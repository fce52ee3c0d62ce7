//! The shortest-path engine: a priority-driven relaxation over the graph.
//!
//! Entries leave the frontier in order of cost. An entry whose cost exceeds
//! the best distance known for its node by then is stale and is skipped. The
//! search stops as soon as an entry for the target leaves the frontier.
//!
//! Weights are `u64` and costs are `u128`: the cost of a path that visits no
//! node twice always fits, so no tentative cost ever overflows.

use crate::frontier::Frontier;
use crate::graph::{targets_in_range, Graph, NodeView};
use crate::paths::{
    connects, hop, is_path, lemma_extend_path, lemma_lightest_le, lemma_lightest_witness,
    lemma_path_cost_nonnegative, lemma_prefix_is_path, lemma_single_node_path, path_cost,
    reachable,
};
use vstd::multiset::Multiset;
use vstd::prelude::*;
use vstd::set_lib::{lemma_int_range, lemma_len_subset, set_int_range};

verus! {

/// Whether `path` leads from `start` to `end` at total cost `cost`, and no
/// path from `start` to `end` is cheaper.
pub open spec fn is_shortest(
    g: Seq<NodeView>,
    start: int,
    end: int,
    cost: int,
    path: Seq<usize>,
) -> bool {
    &&& connects(g, path, start, end)
    &&& path_cost(g, path) == cost
    &&& forall|p: Seq<usize>| #[trigger] connects(g, p, start, end) ==> cost <= path_cost(g, p)
}

/// A shortest path begins at `start` and finishes at `end`, costs nothing
/// where the two are the same node, and never costs less than nothing.
pub proof fn lemma_shortest_ends(
    g: Seq<NodeView>,
    start: int,
    end: int,
    cost: int,
    path: Seq<usize>,
)
    requires
        is_shortest(g, start, end, cost, path),
    ensures
        path.len() >= 1,
        path[0] == start,
        path[path.len() - 1] == end,
        0 <= start < g.len(),
        0 <= end < g.len(),
        0 <= cost,
        start == end ==> cost == 0,
{
    lemma_path_cost_nonnegative(g, path);
    if start == end {
        lemma_single_node_path(g, path[0]);
        assert(connects(g, seq![path[0]], start, end));
    }
}

/// All shortest paths between two nodes cost the same.
pub proof fn lemma_shortest_cost_is_unique(
    g: Seq<NodeView>,
    start: int,
    end: int,
    cost: int,
    path: Seq<usize>,
    other_cost: int,
    other_path: Seq<usize>,
)
    requires
        is_shortest(g, start, end, cost, path),
        is_shortest(g, start, end, other_cost, other_path),
    ensures
        cost == other_cost,
{
}

/// A shortest path shows that its end can be reached, and no path to that
/// end is cheaper.
pub proof fn lemma_shortest_is_cheapest(
    g: Seq<NodeView>,
    start: int,
    end: int,
    cost: int,
    path: Seq<usize>,
    any: Seq<usize>,
)
    requires
        is_shortest(g, start, end, cost, path),
        connects(g, any, start, end),
    ensures
        reachable(g, start, end),
        cost <= path_cost(g, any),
{
}

/// A search in progress, as the proof sees it.
struct Search {
    g: Seq<NodeView>,
    start: int,
    end: int,
    /// Best distance known per node; `None` stands for infinity.
    dist: Seq<Option<u128>>,
    /// Predecessor on the best path known per node.
    prev: Seq<Option<usize>>,
    heap: Multiset<(u128, usize)>,
    /// Nodes whose edges have been relaxed; their distance is final.
    settled: Set<int>,
    /// The best path known per node.
    route: Seq<Seq<usize>>,
    /// Cost of the entry that settled the latest node.
    low: int,
}

/// The greatest cost of a path of `steps` steps.
spec fn cap(steps: int) -> int {
    steps * 0xFFFF_FFFF_FFFF_FFFF
}

spec fn entry_ok(s: Search, e: (u128, usize)) -> bool {
    &&& e.1 < s.g.len()
    &&& s.dist[e.1 as int] is Some
    &&& s.dist[e.1 as int].unwrap() <= e.0
    &&& s.low <= e.0
}

/// The frontier entry that carries the current distance of `v`.
spec fn live_entry(s: Search, v: int) -> (u128, usize) {
    (s.dist[v].unwrap(), v as usize)
}

/// Edge `k` of node `u` offers no improvement any more.
spec fn relaxed(s: Search, u: int, k: int) -> bool {
    let e = s.g[u].edges[k];
    s.dist[e.target as int] is Some && s.dist[e.target as int].unwrap() <= s.dist[u].unwrap()
        + e.weight
}

/// Node `v` hangs below a settled predecessor, and its route is its
/// predecessor's route extended by `v`.
spec fn tree_link(s: Search, v: int) -> bool {
    &&& s.prev[v] is Some
    &&& s.settled.contains(s.prev[v].unwrap() as int)
    &&& s.route[v] == s.route[s.prev[v].unwrap() as int].push(v as usize)
}

spec fn route_ok(s: Search, v: int) -> bool {
    &&& connects(s.g, s.route[v], s.start, v)
    &&& path_cost(s.g, s.route[v]) <= s.dist[v].unwrap()
    &&& s.dist[v].unwrap() <= cap(s.settled.len() as int)
}

/// The search invariant. Node `u` is the one being relaxed, of whose edges
/// the first `done` have been looked at; between relaxations `u` is -1.
spec fn inv(s: Search, u: int, done: int) -> bool {
    &&& targets_in_range(s.g)
    &&& s.g.len() <= usize::MAX
    &&& 0 <= s.start < s.g.len()
    &&& 0 <= s.end < s.g.len()
    &&& s.dist.len() == s.g.len()
    &&& s.prev.len() == s.g.len()
    &&& s.route.len() == s.g.len()
    &&& s.dist[s.start] == Some(0u128)
    &&& s.prev[s.start] is None
    &&& s.route[s.start] == seq![s.start as usize]
    &&& 0 <= s.low
    &&& s.settled.finite()
    &&& forall|v: int| #[trigger]
        s.settled.contains(v) ==> 0 <= v < s.g.len() && s.dist[v] is Some && v != s.end
            && s.dist[v].unwrap() <= s.low && s.dist[v].unwrap() <= cap(s.settled.len() - 1)
    &&& forall|e: (u128, usize)| #[trigger] s.heap.count(e) > 0 ==> entry_ok(s, e)
    &&& forall|v: int|
        0 <= v < s.g.len() && s.dist[v] is Some ==> s.heap.count(#[trigger] live_entry(s, v))
            == (if s.settled.contains(v) {
            0nat
        } else {
            1nat
        })
    &&& forall|v: int, k: int|
        s.settled.contains(v) && 0 <= k < s.g[v].edges.len() && (v != u || k < done)
            ==> #[trigger] relaxed(s, v, k)
    &&& forall|v: int|
        0 <= v < s.g.len() && v != s.start && s.dist[v] is Some ==> #[trigger] tree_link(s, v)
    &&& forall|v: int| 0 <= v < s.g.len() && s.dist[v] is Some ==> #[trigger] route_ok(s, v)
}

/// The state before the first entry leaves the frontier.
proof fn lemma_init(s: Search)
    requires
        targets_in_range(s.g),
        s.g.len() <= usize::MAX,
        0 <= s.start < s.g.len(),
        0 <= s.end < s.g.len(),
        s.dist.len() == s.g.len(),
        s.prev.len() == s.g.len(),
        s.route.len() == s.g.len(),
        forall|v: int| 0 <= v < s.g.len() && v != s.start ==> s.dist[v] is None,
        s.dist[s.start] == Some(0u128),
        s.prev[s.start] is None,
        s.route[s.start] == seq![s.start as usize],
        s.heap == Multiset::<(u128, usize)>::empty().insert((0u128, s.start as usize)),
        s.settled == Set::<int>::empty(),
        s.low == 0,
    ensures
        inv(s, -1, 0),
{
    assert forall|v: int| 0 <= v < s.g.len() && s.dist[v] is Some implies s.heap.count(
        #[trigger] live_entry(s, v),
    ) == 1 by {
        assert(v == s.start);
    }
    assert forall|v: int| 0 <= v < s.g.len() && s.dist[v] is Some implies #[trigger] route_ok(
        s,
        v,
    ) by {
        assert(v == s.start);
    }
}

/// No path from the start is cheaper than `bound`, unless it ends at a
/// settled node; then it is no cheaper than that node's distance.
proof fn lemma_lower_bound(s: Search, bound: int, p: Seq<usize>)
    requires
        inv(s, -1, 0),
        forall|e: (u128, usize)| #[trigger] s.heap.count(e) > 0 ==> bound <= e.0,
        is_path(s.g, p),
        p[0] == s.start,
    ensures
        path_cost(s.g, p) >= bound || (s.settled.contains(p.last() as int) && path_cost(s.g, p)
            >= s.dist[p.last() as int].unwrap()),
    decreases p.len(),
{
    let x = p.last() as int;
    if p.len() == 1 {
        if !s.settled.contains(x) {
            assert(s.heap.count(live_entry(s, x)) == 1);
        }
    } else {
        let q = p.drop_last();
        lemma_prefix_is_path(s.g, p);
        lemma_lower_bound(s, bound, q);
        let y = q.last() as int;
        assert(hop(s.g, p[p.len() - 2] as int, p[p.len() - 2 + 1] as int) is Some);
        let w = hop(s.g, y, x).unwrap();
        let k = lemma_lightest_witness(s.g[y].edges, x);
        if path_cost(s.g, q) < bound {
            assert(relaxed(s, y, k));
            if !s.settled.contains(x) {
                assert(s.heap.count(live_entry(s, x)) == 1);
            }
        }
    }
}

/// Removing a stale entry keeps the invariant.
proof fn lemma_stale(s: Search, e: (u128, usize), t: Search)
    requires
        inv(s, -1, 0),
        s.heap.count(e) > 0,
        e.0 > s.dist[e.1 as int].unwrap(),
        t == (Search { heap: s.heap.remove(e), ..s }),
    ensures
        inv(t, -1, 0),
{
    assert forall|x: (u128, usize)| #[trigger] t.heap.count(x) > 0 implies entry_ok(t, x) by {
        assert(s.heap.count(x) > 0);
        assert(entry_ok(s, x));
    }
    assert forall|v: int| 0 <= v < t.g.len() && t.dist[v] is Some implies t.heap.count(
        #[trigger] live_entry(t, v),
    ) == (if t.settled.contains(v) {
        0nat
    } else {
        1nat
    }) by {
        assert(live_entry(t, v) == live_entry(s, v));
        assert(live_entry(s, v) != e);
    }
    assert forall|v: int, k: int|
        t.settled.contains(v) && 0 <= k < t.g[v].edges.len() implies #[trigger] relaxed(
        t,
        v,
        k,
    ) by {
        assert(relaxed(s, v, k));
    }
    assert forall|v: int|
        0 <= v < t.g.len() && v != t.start && t.dist[v] is Some implies #[trigger] tree_link(
        t,
        v,
    ) by {
        assert(tree_link(s, v));
    }
    assert forall|v: int| 0 <= v < t.g.len() && t.dist[v] is Some implies #[trigger] route_ok(
        t,
        v,
    ) by {
        assert(route_ok(s, v));
    }
}

/// A least entry that carries its node's current distance settles that
/// node, which was not settled before.
proof fn lemma_settle(s: Search, e: (u128, usize), t: Search)
    requires
        inv(s, -1, 0),
        s.heap.count(e) > 0,
        forall|x: (u128, usize)| #[trigger] s.heap.count(x) > 0 ==> e.0 <= x.0,
        e.0 == s.dist[e.1 as int].unwrap(),
        e.1 != s.end,
        t == (Search {
            heap: s.heap.remove(e),
            settled: s.settled.insert(e.1 as int),
            low: e.0 as int,
            ..s
        }),
    ensures
        inv(t, e.1 as int, 0),
        !s.settled.contains(e.1 as int),
        t.settled.len() == s.settled.len() + 1,
        t.settled.len() <= s.g.len(),
{
    let u = e.1 as int;
    assert(entry_ok(s, e));
    assert(live_entry(s, u) == e);
    assert(!s.settled.contains(u));
    assert(route_ok(s, u));
    assert forall|v: int| #[trigger] t.settled.contains(v) implies 0 <= v < t.g.len()
        && t.dist[v] is Some && v != t.end && t.dist[v].unwrap() <= t.low && t.dist[v].unwrap()
        <= cap(t.settled.len() - 1) by {
        if v != u {
            assert(s.settled.contains(v));
        }
    }
    assert forall|x: (u128, usize)| #[trigger] t.heap.count(x) > 0 implies entry_ok(t, x) by {
        assert(s.heap.count(x) > 0);
        assert(entry_ok(s, x));
    }
    assert forall|v: int| 0 <= v < t.g.len() && t.dist[v] is Some implies t.heap.count(
        #[trigger] live_entry(t, v),
    ) == (if t.settled.contains(v) {
        0nat
    } else {
        1nat
    }) by {
        assert(live_entry(t, v) == live_entry(s, v));
        if v != u {
            assert(live_entry(s, v) != e);
        }
    }
    assert forall|v: int, k: int|
        t.settled.contains(v) && 0 <= k < t.g[v].edges.len() && (v != u || k < 0)
        implies #[trigger] relaxed(t, v, k) by {
        assert(s.settled.contains(v));
        assert(relaxed(s, v, k));
    }
    assert forall|v: int|
        0 <= v < t.g.len() && v != t.start && t.dist[v] is Some implies #[trigger] tree_link(
        t,
        v,
    ) by {
        assert(tree_link(s, v));
    }
    assert forall|v: int| 0 <= v < t.g.len() && t.dist[v] is Some implies #[trigger] route_ok(
        t,
        v,
    ) by {
        assert(route_ok(s, v));
    }
    let all = set_int_range(0, s.g.len() as int);
    lemma_int_range(0, s.g.len() as int);
    assert(t.settled.subset_of(all)) by {
        assert forall|v: int| t.settled.contains(v) implies all.contains(v) by {}
    }
    lemma_len_subset(t.settled, all);
}

/// An edge that offers no improvement is done with.
proof fn lemma_keep(s: Search, u: int, done: int)
    requires
        inv(s, u, done),
        s.settled.contains(u),
        0 <= done < s.g[u].edges.len(),
        relaxed(s, u, done),
    ensures
        inv(s, u, done + 1),
{
    assert forall|v: int, k: int|
        s.settled.contains(v) && 0 <= k < s.g[v].edges.len() && (v != u || k < done + 1)
        implies #[trigger] relaxed(s, v, k) by {}
}

/// Once all edges of the settled node have been looked at, the search is
/// between relaxations again.
proof fn lemma_finish(s: Search, u: int)
    requires
        inv(s, u, s.g[u].edges.len() as int),
    ensures
        inv(s, -1, 0),
{
    assert forall|v: int, k: int|
        s.settled.contains(v) && 0 <= k < s.g[v].edges.len() implies #[trigger] relaxed(
        s,
        v,
        k,
    ) by {}
}

/// Taking an edge that improves its target's distance keeps the invariant.
proof fn lemma_relax(s: Search, u: int, done: int, cost: u128, t: Search)
    requires
        inv(s, u, done),
        s.settled.contains(u),
        s.low == s.dist[u].unwrap(),
        0 <= done < s.g[u].edges.len(),
        cost == s.dist[u].unwrap() + s.g[u].edges[done].weight,
        s.dist[s.g[u].edges[done].target as int] is Some ==> cost < s.dist[s.g[u].edges[done].target as int].unwrap(),
        t == ({
            let next = s.g[u].edges[done].target;
            Search {
                dist: s.dist.update(next as int, Some(cost)),
                prev: s.prev.update(next as int, Some(u as usize)),
                heap: s.heap.insert((cost, next)),
                route: s.route.update(next as int, s.route[u].push(next)),
                ..s
            }
        }),
    ensures
        inv(t, u, done + 1),
{
    let edge = s.g[u].edges[done];
    let next = edge.target as int;
    let fresh = (cost, edge.target);
    assert(next < s.g.len());
    assert(!s.settled.contains(next));
    assert(next != s.start);
    assert(next != u);
    assert(route_ok(s, u));
    assert(s.heap.count(fresh) == 0) by {
        if s.heap.count(fresh) > 0 {
            assert(entry_ok(s, fresh));
        }
    }
    assert forall|x: (u128, usize)| #[trigger] t.heap.count(x) > 0 implies entry_ok(t, x) by {
        if x != fresh {
            assert(s.heap.count(x) > 0);
            assert(entry_ok(s, x));
        }
    }
    assert forall|v: int| 0 <= v < t.g.len() && t.dist[v] is Some implies t.heap.count(
        #[trigger] live_entry(t, v),
    ) == (if t.settled.contains(v) {
        0nat
    } else {
        1nat
    }) by {
        if v != next {
            assert(live_entry(t, v) == live_entry(s, v));
            assert(live_entry(s, v) != fresh);
        }
    }
    assert forall|v: int, k: int|
        t.settled.contains(v) && 0 <= k < t.g[v].edges.len() && (v != u || k < done + 1)
        implies #[trigger] relaxed(t, v, k) by {
        if v != u || k < done {
            assert(relaxed(s, v, k));
        }
    }
    assert forall|v: int|
        0 <= v < t.g.len() && v != t.start && t.dist[v] is Some implies #[trigger] tree_link(
        t,
        v,
    ) by {
        if v != next {
            assert(tree_link(s, v));
        }
    }
    assert forall|v: int| 0 <= v < t.g.len() && t.dist[v] is Some implies #[trigger] route_ok(
        t,
        v,
    ) by {
        if v != next {
            assert(route_ok(s, v));
        } else {
            lemma_lightest_le(s.g[u].edges, next, done);
            lemma_extend_path(s.g, s.route[u], edge.target);
        }
    }
}

/// When the frontier is empty, no path leads from the start to the target.
proof fn lemma_exhausted(s: Search)
    requires
        inv(s, -1, 0),
        s.heap.len() == 0,
    ensures
        !reachable(s.g, s.start, s.end),
{
    assert forall|p: Seq<usize>| !connects(s.g, p, s.start, s.end) by {
        if connects(s.g, p, s.start, s.end) {
            let beyond = path_cost(s.g, p) + 1;
            assert forall|e: (u128, usize)| #[trigger] s.heap.count(e) > 0 implies beyond
                <= e.0 by {
                vstd::multiset::axiom_count_le_len(s.heap, e);
            }
            lemma_lower_bound(s, beyond, p);
        }
    }
}

/// When a least entry is one for the target, its cost is the target's
/// distance, and the target's route is a shortest path.
proof fn lemma_arrived(s: Search, e: (u128, usize))
    requires
        inv(s, -1, 0),
        s.heap.count(e) > 0,
        forall|x: (u128, usize)| #[trigger] s.heap.count(x) > 0 ==> e.0 <= x.0,
        e.1 == s.end,
    ensures
        s.dist[s.end] == Some(e.0),
        is_shortest(s.g, s.start, s.end, e.0 as int, s.route[s.end]),
        s.start == s.end ==> e.0 == 0,
{
    assert(entry_ok(s, e));
    assert(s.heap.count(live_entry(s, s.end)) == 1);
    assert(route_ok(s, s.end));
    assert forall|p: Seq<usize>| #[trigger] connects(s.g, p, s.start, s.end) implies e.0
        <= path_cost(s.g, p) by {
        lemma_lower_bound(s, e.0 as int, p);
    }
    assert(connects(s.g, s.route[s.end], s.start, s.end));
}

/// Walks the predecessor links back from the target and returns the nodes
/// passed, from the start to the target.
fn trace_back(prev: &Vec<Option<usize>>, end: usize, Ghost(s): Ghost<Search>) -> (path: Vec<usize>)
    requires
        inv(s, -1, 0),
        prev@ == s.prev,
        end == s.end,
        s.dist[s.end] is Some,
    ensures
        path@ == s.route[s.end],
{
    let ghost whole = s.route[s.end];
    let mut back: Vec<usize> = Vec::new();
    let mut current = end;
    loop
        invariant_except_break
            inv(s, -1, 0),
            prev@ == s.prev,
            whole == s.route[s.end],
            0 <= current < s.g.len(),
            s.dist[current as int] is Some,
            whole.len() == s.route[current as int].len() + back@.len(),
            forall|j: int|
                0 <= j < s.route[current as int].len() ==> whole[j] == s.route[current as int][j],
            forall|j: int| 0 <= j < back@.len() ==> whole[whole.len() - 1 - j] == back@[j],
        ensures
            whole.len() == back@.len(),
            forall|j: int| 0 <= j < back@.len() ==> whole[whole.len() - 1 - j] == back@[j],
        decreases s.route[current as int].len(),
    {
        proof {
            assert(route_ok(s, current as int));
            if current != s.start {
                assert(tree_link(s, current as int));
            }
        }
        back.push(current);
        match prev[current] {
            None => {
                break ;
            },
            Some(before) => {
                current = before;
            },
        }
    }
    let mut path: Vec<usize> = Vec::new();
    let mut i: usize = back.len();
    while i > 0
        invariant
            i <= back@.len(),
            whole.len() == back@.len(),
            forall|j: int| 0 <= j < back@.len() ==> whole[whole.len() - 1 - j] == back@[j],
            path@.len() == back@.len() - i,
            forall|j: int| 0 <= j < path@.len() ==> path@[j] == whole[j],
        decreases i,
    {
        i -= 1;
        path.push(back[i]);
    }
    proof {
        assert(path@ =~= whole);
    }
    path
}

/// Finds a cheapest path from `start` to `end`.
///
/// Returns the total cost and the nodes of the path, from `start` to `end`
/// inclusive. Returns `None` when no path leads from `start` to `end`; that
/// is so in particular when either index is not a node of the graph.
pub fn shortest_path(graph: &Graph, start: usize, end: usize) -> (found: Option<
    (u128, Vec<usize>),
>)
    requires
        graph.wf(),
    ensures
        match found {
            Some((cost, path)) => is_shortest(graph@, start as int, end as int, cost as int, path@),
            None => !reachable(graph@, start as int, end as int),
        },
        found is Some <==> reachable(graph@, start as int, end as int),
        (forall|p: Seq<usize>| !connects(graph@, p, start as int, end as int)) ==> found is None,
        start == end && start < graph@.len() ==> found is Some && found.unwrap().0 == 0
            && found.unwrap().1@ == seq![start],
{
    let n = graph.node_count();
    if start >= n || end >= n {
        proof {
            assert forall|p: Seq<usize>| !connects(graph@, p, start as int, end as int) by {
                if connects(graph@, p, start as int, end as int) {
                    assert(p[0] < n);
                    assert(p[p.len() - 1] < n);
                }
            }
        }
        return None;
    }
    let mut dist: Vec<Option<u128>> = Vec::new();
    let mut prev: Vec<Option<usize>> = Vec::new();
    let mut filled: usize = 0;
    while filled < n
        invariant
            filled <= n,
            dist@.len() == filled,
            prev@.len() == filled,
            forall|j: int| 0 <= j < filled ==> dist@[j] is None,
            forall|j: int| 0 <= j < filled ==> prev@[j] is None,
        decreases n - filled,
    {
        dist.push(None);
        prev.push(None);
        filled += 1;
    }
    dist[start] = Some(0);
    let mut heap = Frontier::new();
    heap.push(0, start);
    let ghost mut settled: Set<int> = Set::empty();
    let ghost mut route: Seq<Seq<usize>> = Seq::new(n as nat, |v: int| seq![start]);
    let ghost mut low: int = 0;
    proof {
        lemma_init(
            Search {
                g: graph@,
                start: start as int,
                end: end as int,
                dist: dist@,
                prev: prev@,
                heap: heap@,
                settled,
                route,
                low,
            },
        );
    }
    loop
        invariant
            graph.wf(),
            n == graph@.len(),
            start < n,
            end < n,
            heap.wf(),
            inv(
                Search {
                    g: graph@,
                    start: start as int,
                    end: end as int,
                    dist: dist@,
                    prev: prev@,
                    heap: heap@,
                    settled,
                    route,
                    low,
                },
                -1,
                0,
            ),
            settled.len() <= n,
        decreases n - settled.len(), heap@.len(),
    {
        let ghost before = Search {
            g: graph@,
            start: start as int,
            end: end as int,
            dist: dist@,
            prev: prev@,
            heap: heap@,
            settled,
            route,
            low,
        };
        let least = heap.pop();
        if least.is_none() {
            proof {
                lemma_exhausted(before);
                if start == end {
                    lemma_single_node_path(graph@, start);
                    assert(connects(graph@, seq![start], start as int, end as int));
                    assert(reachable(graph@, start as int, end as int));
                }
            }
            return None;
        }
        let (cost, u) = least.unwrap();
        proof {
            assert(least == Some((cost, u)));
            assert(before.heap.count((cost, u)) > 0);
            assert(entry_ok(before, (cost, u)));
        }
        if u == end {
            proof {
                lemma_arrived(before, (cost, u));
            }
            let path = trace_back(&prev, end, Ghost(before));
            proof {
                assert(connects(graph@, path@, start as int, end as int));
                lemma_path_cost_nonnegative(graph@, path@);
            }
            return Some((cost, path));
        }
        let known = dist[u].unwrap();
        if cost > known {
            proof {
                lemma_stale(
                    before,
                    (cost, u),
                    Search {
                        g: graph@,
                        start: start as int,
                        end: end as int,
                        dist: dist@,
                        prev: prev@,
                        heap: heap@,
                        settled,
                        route,
                        low,
                    },
                );
            }
            continue ;
        }
        proof {
            settled = settled.insert(u as int);
            low = cost as int;
            lemma_settle(
                before,
                (cost, u),
                Search {
                    g: graph@,
                    start: start as int,
                    end: end as int,
                    dist: dist@,
                    prev: prev@,
                    heap: heap@,
                    settled,
                    route,
                    low,
                },
            );
        }
        let edges = graph.iter_edges_of(u);
        let mut i: usize = 0;
        while i < edges.len()
            invariant
                graph.wf(),
                n == graph@.len(),
                start < n,
                end < n,
                u < n,
                heap.wf(),
                edges@ == graph@[u as int].edges,
                i <= edges@.len(),
                settled.contains(u as int),
                settled.len() <= n,
                dist@[u as int] == Some(cost),
                low == cost,
                inv(
                    Search {
                        g: graph@,
                        start: start as int,
                        end: end as int,
                        dist: dist@,
                        prev: prev@,
                        heap: heap@,
                        settled,
                        route,
                        low,
                    },
                    u as int,
                    i as int,
                ),
            decreases edges@.len() - i,
        {
            let ghost here = Search {
                g: graph@,
                start: start as int,
                end: end as int,
                dist: dist@,
                prev: prev@,
                heap: heap@,
                settled,
                route,
                low,
            };
            let edge = edges[i];
            let next = edge.target;
            proof {
                assert(settled.contains(u as int));
                assert(cost <= cap(settled.len() - 1));
            }
            let candidate: u128 = cost + edge.weight as u128;
            let improved = match dist[next] {
                None => true,
                Some(current) => candidate < current,
            };
            match improved {
                true => {
                    dist[next] = Some(candidate);
                    prev[next] = Some(u);
                    heap.push(candidate, next);
                    proof {
                        route = route.update(next as int, route[u as int].push(next));
                        lemma_relax(
                            here,
                            u as int,
                            i as int,
                            candidate,
                            Search {
                                g: graph@,
                                start: start as int,
                                end: end as int,
                                dist: dist@,
                                prev: prev@,
                                heap: heap@,
                                settled,
                                route,
                                low,
                            },
                        );
                    }
                },
                false => {
                    proof {
                        assert(relaxed(here, u as int, i as int));
                        lemma_keep(here, u as int, i as int);
                    }
                },
            }
            i += 1;
        }
        proof {
            lemma_finish(
                Search {
                    g: graph@,
                    start: start as int,
                    end: end as int,
                    dist: dist@,
                    prev: prev@,
                    heap: heap@,
                    settled,
                    route,
                    low,
                },
                u as int,
            );
        }
    }
}

} // verus!
