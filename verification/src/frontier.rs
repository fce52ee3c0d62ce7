//! The search frontier: a binary min-heap of `(cost, node)` entries.
//!
//! The heap hands out an entry of least cost first. Which of several entries
//! of equal cost leaves first is not fixed.

use vstd::multiset::Multiset;
use vstd::prelude::*;

verus! {

/// A min-priority queue of tentative `(cost, node)` entries.
pub struct Frontier {
    items: Vec<(u128, usize)>,
}

/// Index of the parent slot of slot `i` in the implicit binary tree.
pub open spec fn parent(i: int) -> int {
    (i - 1) / 2
}

/// Every slot but the root holds a cost no smaller than its parent's.
pub open spec fn heap_ordered(s: Seq<(u128, usize)>) -> bool {
    forall|i: int| 1 <= i < s.len() ==> s[parent(i)].0 <= (#[trigger] s[i]).0
}

/// Heap order everywhere except between slot `k` and its parent; the
/// children of `k` already respect `k`'s parent.
spec fn ordered_but_above(s: Seq<(u128, usize)>, k: int) -> bool {
    &&& forall|i: int| 1 <= i < s.len() && i != k ==> s[parent(i)].0 <= (#[trigger] s[i]).0
    &&& forall|i: int|
        1 <= i < s.len() && parent(i) == k && k >= 1 ==> s[parent(k)].0 <= (#[trigger] s[i]).0
}

/// Heap order everywhere except between slot `k` and its children; the
/// children of `k` already respect `k`'s parent.
spec fn ordered_but_below(s: Seq<(u128, usize)>, k: int) -> bool {
    &&& forall|i: int|
        1 <= i < s.len() && parent(i) != k ==> s[parent(i)].0 <= (#[trigger] s[i]).0
    &&& forall|i: int|
        1 <= i < s.len() && parent(i) == k && k >= 1 ==> s[parent(k)].0 <= (#[trigger] s[i]).0
}

/// In a heap-ordered sequence the root holds a least cost.
proof fn lemma_root_is_least(s: Seq<(u128, usize)>, i: int)
    requires
        heap_ordered(s),
        0 <= i < s.len(),
    ensures
        s[0].0 <= s[i].0,
    decreases i,
{
    if i > 0 {
        lemma_root_is_least(s, parent(i));
    }
}

impl View for Frontier {
    type V = Multiset<(u128, usize)>;

    closed spec fn view(&self) -> Multiset<(u128, usize)> {
        self.items@.to_multiset()
    }
}

impl Frontier {
    /// Well-formedness: the entries are in heap order.
    pub closed spec fn wf(&self) -> bool {
        heap_ordered(self.items@)
    }

    /// The empty frontier.
    pub fn new() -> (f: Frontier)
        ensures
            f.wf(),
            f@ == Multiset::<(u128, usize)>::empty(),
    {
        let f = Frontier { items: Vec::new() };
        proof {
            broadcast use vstd::seq_lib::group_to_multiset_ensures;

            assert(f@ =~= Multiset::<(u128, usize)>::empty());
        }
        f
    }

    /// Number of entries.
    pub fn len(&self) -> (n: usize)
        ensures
            n == self@.len(),
    {
        proof {
            broadcast use vstd::seq_lib::group_to_multiset_ensures;

        }
        self.items.len()
    }

    /// Whether no entry is left.
    pub fn is_empty(&self) -> (b: bool)
        ensures
            b == (self@.len() == 0),
    {
        proof {
            broadcast use vstd::seq_lib::group_to_multiset_ensures;

        }
        self.items.len() == 0
    }

    /// Adds the entry `(cost, node)`.
    pub fn push(&mut self, cost: u128, node: usize)
        requires
            old(self).wf(),
        ensures
            final(self).wf(),
            final(self)@ == old(self)@.insert((cost, node)),
    {
        self.items.push((cost, node));
        proof {
            broadcast use vstd::seq_lib::group_to_multiset_ensures;

        }
        let mut k: usize = self.items.len() - 1;
        while k > 0
            invariant
                k < self.items@.len(),
                ordered_but_above(self.items@, k as int),
                self@ == old(self)@.insert((cost, node)),
            ensures
                heap_ordered(self.items@),
            decreases k,
        {
            let p: usize = (k - 1) / 2;
            let below = self.items[k];
            let above = self.items[p];
            if above.0 <= below.0 {
                break ;
            }
            let ghost before = self.items@;
            self.items[p] = below;
            self.items[k] = above;
            proof {
                broadcast use vstd::seq_lib::group_to_multiset_ensures;

                assert(self.items@ == before.update(p as int, below).update(k as int, above));
                assert(self@ =~= before.to_multiset());
                assert forall|i: int| 1 <= i < self.items@.len() && i != p implies self.items@[parent(
                    i,
                )].0 <= (#[trigger] self.items@[i]).0 by {
                    if i != k && parent(i) != p && parent(i) != k {
                        assert(before[parent(i)].0 <= before[i].0);
                    }
                }
            }
            k = p;
        }
    }

    /// Removes and returns an entry of least cost, or nothing when the
    /// frontier is empty.
    pub fn pop(&mut self) -> (least: Option<(u128, usize)>)
        requires
            old(self).wf(),
        ensures
            final(self).wf(),
            match least {
                None => old(self)@.len() == 0 && final(self)@ == old(self)@,
                Some(e) => {
                    &&& old(self)@.count(e) > 0
                    &&& final(self)@ == old(self)@.remove(e)
                    &&& forall|x: (u128, usize)| old(self)@.count(x) > 0 ==> e.0 <= x.0
                },
            },
    {
        proof {
            broadcast use vstd::seq_lib::group_to_multiset_ensures;

        }
        let n = self.items.len();
        if n == 0 {
            return None;
        }
        let top = self.items[0];
        let ghost before = self.items@;
        proof {
            assert forall|x: (u128, usize)| old(self)@.count(x) > 0 implies top.0 <= x.0 by {
                let i = choose|i: int| 0 <= i < before.len() && before[i] == x;
                lemma_root_is_least(before, i);
            }
            assert(before.contains(top));
        }
        let last = self.items[n - 1];
        self.items[0] = last;
        self.items.pop();
        proof {
            let moved = before.update(0, last);
            assert(self.items@ =~= moved.remove(n - 1));
            assert(moved[n - 1] == last);
            assert(self@ =~= before.to_multiset().remove(top));
            assert forall|i: int|
                1 <= i < self.items@.len() && parent(i) != 0 implies self.items@[parent(i)].0 <= (
                #[trigger] self.items@[i]).0 by {
                assert(before[parent(i)].0 <= before[i].0);
            }
        }
        let m = self.items.len();
        let mut k: usize = 0;
        while k < m / 2
            invariant
                m == self.items@.len(),
                ordered_but_below(self.items@, k as int),
                self@ == old(self)@.remove(top),
            ensures
                heap_ordered(self.items@),
            decreases m - k,
        {
            let left: usize = 2 * k + 1;
            let right: usize = left + 1;
            let child: usize = if right < m && self.items[right].0 < self.items[left].0 {
                right
            } else {
                left
            };
            let above = self.items[k];
            let below = self.items[child];
            if above.0 <= below.0 {
                proof {
                    assert forall|i: int| 1 <= i < self.items@.len() implies self.items@[parent(
                        i,
                    )].0 <= (#[trigger] self.items@[i]).0 by {
                        if parent(i) == k {
                            assert(i == left || i == right);
                        }
                    }
                }
                break ;
            }
            let ghost prior = self.items@;
            self.items[k] = below;
            self.items[child] = above;
            proof {
                broadcast use vstd::seq_lib::group_to_multiset_ensures;

                assert(self.items@ == prior.update(k as int, below).update(child as int, above));
                assert(self@ =~= prior.to_multiset());
                assert forall|i: int|
                    1 <= i < self.items@.len() && parent(i) != child implies self.items@[parent(
                    i,
                )].0 <= (#[trigger] self.items@[i]).0 by {
                    if parent(i) == k {
                        assert(i == left || i == right);
                    } else if i == k {
                        assert(prior[parent(k as int)].0 <= prior[child as int].0);
                    } else {
                        assert(prior[parent(i)].0 <= prior[i].0);
                    }
                }
                assert forall|i: int|
                    1 <= i < self.items@.len() && parent(i) == child implies self.items@[parent(
                    child as int,
                )].0 <= (#[trigger] self.items@[i]).0 by {
                    assert(prior[parent(i)].0 <= prior[i].0);
                }
            }
            k = child;
        }
        proof {
            if k >= m / 2 {
                assert forall|i: int| 1 <= i < self.items@.len() implies self.items@[parent(i)].0
                    <= (#[trigger] self.items@[i]).0 by {
                    assert(parent(i) != k);
                }
            }
        }
        Some(top)
    }
}

} // verus!
