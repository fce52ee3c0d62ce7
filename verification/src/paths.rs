//! What a path through the graph is and what it costs.
//!
//! A path is a non-empty sequence of node indices in which every node is
//! joined to the next by at least one edge. Where several edges join the same
//! two nodes, a step over them costs the least of their weights.

use crate::graph::{Edge, NodeView};
use vstd::prelude::*;

verus! {

/// The least weight among the edges in `edges` that lead to `target`;
/// `None` when no edge leads there.
pub open spec fn lightest(edges: Seq<Edge>, target: int) -> Option<int>
    decreases edges.len(),
{
    if edges.len() == 0 {
        None
    } else {
        let rest = lightest(edges.drop_last(), target);
        let e = edges.last();
        if e.target != target {
            rest
        } else if rest is Some && rest.unwrap() <= e.weight {
            rest
        } else {
            Some(e.weight as int)
        }
    }
}

/// The cost of stepping from `u` to `v`: the weight of the lightest edge
/// from `u` to `v`, or `None` when there is no such edge.
pub open spec fn hop(g: Seq<NodeView>, u: int, v: int) -> Option<int> {
    if 0 <= u < g.len() {
        lightest(g[u].edges, v)
    } else {
        None
    }
}

/// Whether `p` is a path in `g`.
pub open spec fn is_path(g: Seq<NodeView>, p: Seq<usize>) -> bool {
    &&& p.len() >= 1
    &&& forall|i: int| 0 <= i < p.len() ==> (#[trigger] p[i]) < g.len()
    &&& forall|i: int|
        0 <= i < p.len() - 1 ==> (#[trigger] hop(g, p[i] as int, p[i + 1] as int)) is Some
}

/// Whether `p` is a path in `g` that begins at `start` and finishes at `end`.
pub open spec fn connects(g: Seq<NodeView>, p: Seq<usize>, start: int, end: int) -> bool {
    &&& is_path(g, p)
    &&& p[0] == start
    &&& p.last() == end
}

/// The total cost of `p`: the sum of the costs of its steps.
pub open spec fn path_cost(g: Seq<NodeView>, p: Seq<usize>) -> int
    decreases p.len(),
{
    if p.len() <= 1 {
        0
    } else {
        path_cost(g, p.drop_last()) + hop(
            g,
            p[p.len() - 2] as int,
            p[p.len() - 1] as int,
        ).unwrap()
    }
}

/// Whether some path leads from `start` to `end`.
pub open spec fn reachable(g: Seq<NodeView>, start: int, end: int) -> bool {
    exists|p: Seq<usize>| connects(g, p, start, end)
}

/// An edge to `target` makes `lightest` defined, and no heavier than that
/// edge.
pub proof fn lemma_lightest_le(edges: Seq<Edge>, target: int, k: int)
    requires
        0 <= k < edges.len(),
        edges[k].target == target,
    ensures
        lightest(edges, target) is Some,
        0 <= lightest(edges, target).unwrap() <= edges[k].weight,
    decreases edges.len(),
{
    let init = edges.drop_last();
    if k < edges.len() - 1 {
        assert(init[k] == edges[k]);
        lemma_lightest_le(init, target, k);
    } else if lightest(init, target) is Some {
        let j = lemma_lightest_witness(init, target);
    }
}

/// Where `lightest` is defined, some edge to `target` has exactly that
/// weight. Returns the index of such an edge.
pub proof fn lemma_lightest_witness(edges: Seq<Edge>, target: int) -> (k: int)
    requires
        lightest(edges, target) is Some,
    ensures
        0 <= k < edges.len(),
        edges[k].target == target,
        edges[k].weight == lightest(edges, target).unwrap(),
    decreases edges.len(),
{
    let init = edges.drop_last();
    let e = edges.last();
    if e.target == target && !(lightest(init, target) is Some && lightest(init, target).unwrap()
        <= e.weight) {
        edges.len() - 1
    } else {
        let j = lemma_lightest_witness(init, target);
        assert(init[j] == edges[j]);
        j
    }
}

/// No step has a negative cost, so no path has.
pub proof fn lemma_path_cost_nonnegative(g: Seq<NodeView>, p: Seq<usize>)
    requires
        is_path(g, p),
    ensures
        0 <= path_cost(g, p),
    decreases p.len(),
{
    if p.len() > 1 {
        let init = p.drop_last();
        lemma_prefix_is_path(g, p);
        lemma_path_cost_nonnegative(g, init);
        let u = p[p.len() - 2] as int;
        let v = p[p.len() - 1] as int;
        assert(hop(g, p[p.len() - 2] as int, p[p.len() - 2 + 1] as int) is Some);
        let k = lemma_lightest_witness(g[u].edges, v);
    }
}

/// A path without its last node is still a path, from the same start.
pub proof fn lemma_prefix_is_path(g: Seq<NodeView>, p: Seq<usize>)
    requires
        is_path(g, p),
        p.len() >= 2,
    ensures
        is_path(g, p.drop_last()),
        p.drop_last()[0] == p[0],
        p.drop_last().last() == p[p.len() - 2],
{
    let init = p.drop_last();
    assert forall|i: int| 0 <= i < init.len() implies (#[trigger] init[i]) < g.len() by {
        assert(init[i] == p[i]);
    }
    assert forall|i: int| 0 <= i < init.len() - 1 implies (#[trigger] hop(
        g,
        init[i] as int,
        init[i + 1] as int,
    )) is Some by {
        assert(init[i] == p[i] && init[i + 1] == p[i + 1]);
        assert(hop(g, p[i] as int, p[i + 1] as int) is Some);
    }
}

/// Extending a path by one step over an existing edge gives a path, and adds
/// the cost of that step.
pub proof fn lemma_extend_path(g: Seq<NodeView>, p: Seq<usize>, v: usize)
    requires
        is_path(g, p),
        v < g.len(),
        hop(g, p.last() as int, v as int) is Some,
    ensures
        is_path(g, p.push(v)),
        p.push(v)[0] == p[0],
        p.push(v).last() == v,
        path_cost(g, p.push(v)) == path_cost(g, p) + hop(g, p.last() as int, v as int).unwrap(),
{
    let q = p.push(v);
    assert(q.drop_last() =~= p);
    assert forall|i: int| 0 <= i < q.len() - 1 implies (#[trigger] hop(
        g,
        q[i] as int,
        q[i + 1] as int,
    )) is Some by {
        if i < p.len() - 1 {
            assert(q[i] == p[i] && q[i + 1] == p[i + 1]);
            assert(hop(g, p[i] as int, p[i + 1] as int) is Some);
        }
    }
}

/// The path that stays where it is costs nothing.
pub proof fn lemma_single_node_path(g: Seq<NodeView>, v: usize)
    requires
        v < g.len(),
    ensures
        connects(g, seq![v], v as int, v as int),
        path_cost(g, seq![v]) == 0,
{
}

} // verus!
