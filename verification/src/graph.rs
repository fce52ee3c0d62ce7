//! The graph store: an append-only sequence of nodes, each owning its
//! outgoing edges.
//!
//! A node is identified by its position in the sequence. Nodes and edges are
//! never removed, so an index stays valid for the lifetime of the graph.
//! Weights are non-negative fixed-point numbers counted in thousandths:
//! the weight "one" is [`UNIT_WEIGHT`].

use crate::geometry::{within_hit_region, Point};
use vstd::prelude::*;

verus! {

/// The weight 1.0 in thousandths; the default weight of a new edge.
pub const UNIT_WEIGHT: u64 = 1000;

/// A directed, weighted connection to `target`.
#[derive(Clone, Copy, Debug, PartialEq, Eq, Structural)]
pub struct Edge {
    pub target: usize,
    pub weight: u64,
}

/// A vertex: where it is drawn, what it is called, and where it leads.
pub struct Node {
    pos: Point,
    label: String,
    edges: Vec<Edge>,
}

/// The mathematical content of a [`Node`].
pub struct NodeView {
    pub pos: Point,
    pub label: Seq<char>,
    pub edges: Seq<Edge>,
}

impl View for Node {
    type V = NodeView;

    closed spec fn view(&self) -> NodeView {
        NodeView { pos: self.pos, label: self.label@, edges: self.edges@ }
    }
}

impl Node {
    /// Where the node is drawn.
    pub fn position(&self) -> (p: Point)
        ensures
            p == self@.pos,
    {
        self.pos
    }

    /// The display label; empty means "show the index".
    pub fn label(&self) -> (s: &String)
        ensures
            s@ == self@.label,
    {
        &self.label
    }

    /// The outgoing edges, in the order in which they were added.
    pub fn edges(&self) -> (es: &Vec<Edge>)
        ensures
            es@ == self@.edges,
    {
        &self.edges
    }
}

/// A weighted directed graph with stable node indices.
pub struct Graph {
    nodes: Vec<Node>,
}

/// Every edge leads to an existing node.
pub open spec fn targets_in_range(g: Seq<NodeView>) -> bool {
    forall|i: int, k: int|
        0 <= i < g.len() && 0 <= k < g[i].edges.len() ==> (#[trigger] g[i].edges[k]).target
            < g.len()
}

/// Whether some edge leads from `source` to `target`.
pub open spec fn has_edge(g: Seq<NodeView>, source: int, target: int) -> bool {
    0 <= source < g.len() && exists|k: int|
        0 <= k < g[source].edges.len() && (#[trigger] g[source].edges[k]).target == target
}

/// Index of the first edge in `edges` that leads to `target`, or
/// `edges.len()` when there is none.
pub open spec fn first_edge_to(edges: Seq<Edge>, target: int) -> int
    decreases edges.len(),
{
    if edges.len() == 0 || edges[0].target == target {
        0
    } else {
        1 + first_edge_to(edges.subrange(1, edges.len() as int), target)
    }
}

/// Index of the first node from `from` on, other than `skip`, whose hit
/// region holds `p`; the number of nodes when there is none.
pub open spec fn first_node_at(g: Seq<NodeView>, p: Point, skip: int, from: int) -> int
    decreases g.len() - from,
{
    if from < 0 || from >= g.len() {
        g.len() as int
    } else if from != skip && within_hit_region(g[from].pos, p) {
        from
    } else {
        first_node_at(g, p, skip, from + 1)
    }
}

/// `first_node_at` is the least index at or after `from`, other than `skip`,
/// of a node whose hit region holds `p`.
pub proof fn lemma_first_node_at(g: Seq<NodeView>, p: Point, skip: int, from: int)
    requires
        0 <= from,
    ensures
        from <= first_node_at(g, p, skip, from) || first_node_at(g, p, skip, from) == g.len(),
        first_node_at(g, p, skip, from) <= g.len(),
        first_node_at(g, p, skip, from) < g.len() ==> first_node_at(g, p, skip, from) != skip
            && within_hit_region(g[first_node_at(g, p, skip, from)].pos, p),
        forall|i: int|
            from <= i < first_node_at(g, p, skip, from) ==> i == skip || !within_hit_region(
                (#[trigger] g[i]).pos,
                p,
            ),
    decreases g.len() - from,
{
    if from < g.len() && !(from != skip && within_hit_region(g[from].pos, p)) {
        lemma_first_node_at(g, p, skip, from + 1);
    }
}

/// The graph after a node with no edges has been appended.
pub open spec fn with_node(g: Seq<NodeView>, pos: Point, label: Seq<char>) -> Seq<NodeView> {
    g.push(NodeView { pos, label, edges: Seq::empty() })
}

/// The graph after an edge has been appended to `source`'s edge list.
pub open spec fn with_edge(g: Seq<NodeView>, source: int, target: usize, weight: u64) -> Seq<
    NodeView,
> {
    g.update(
        source,
        NodeView { edges: g[source].edges.push(Edge { target, weight }), ..g[source] },
    )
}

/// The graph after the first edge from `source` to `target` has been given
/// `weight`; the graph itself when there is no such edge.
pub open spec fn with_weight(g: Seq<NodeView>, source: int, target: usize, weight: u64) -> Seq<
    NodeView,
> {
    if 0 <= source < g.len() {
        let k = first_edge_to(g[source].edges, target as int);
        if k < g[source].edges.len() {
            g.update(
                source,
                NodeView {
                    edges: g[source].edges.update(k, Edge { target, weight }),
                    ..g[source]
                },
            )
        } else {
            g
        }
    } else {
        g
    }
}

/// The graph after node `index` has been moved to `pos`.
pub open spec fn with_position(g: Seq<NodeView>, index: int, pos: Point) -> Seq<NodeView> {
    g.update(index, NodeView { pos, ..g[index] })
}

/// The graph after node `index` has been relabelled.
pub open spec fn with_label(g: Seq<NodeView>, index: int, label: Seq<char>) -> Seq<NodeView> {
    g.update(index, NodeView { label, ..g[index] })
}

/// The graph after the first `n` of `items`, each a position and a label,
/// have been appended as nodes, in order.
pub open spec fn with_nodes(g: Seq<NodeView>, items: Seq<(Point, Seq<char>)>, n: int) -> Seq<
    NodeView,
>
    decreases n,
{
    if n <= 0 {
        g
    } else {
        with_node(with_nodes(g, items, n - 1), items[n - 1].0, items[n - 1].1)
    }
}

/// Adding nodes one after another gives them consecutive indices in the
/// order of the calls, each with the position and label supplied and without
/// edges, and leaves the nodes that were there as they were.
pub proof fn lemma_nodes_added_in_order(g: Seq<NodeView>, items: Seq<(Point, Seq<char>)>, n: int)
    requires
        0 <= n <= items.len(),
    ensures
        with_nodes(g, items, n).len() == g.len() + n,
        forall|i: int| 0 <= i < g.len() ==> with_nodes(g, items, n)[i] == g[i],
        forall|j: int|
            0 <= j < n ==> (#[trigger] with_nodes(g, items, n)[g.len() + j]) == (NodeView {
                pos: items[j].0,
                label: items[j].1,
                edges: Seq::empty(),
            }),
        targets_in_range(g) ==> targets_in_range(with_nodes(g, items, n)),
    decreases n,
{
    if n > 0 {
        lemma_nodes_added_in_order(g, items, n - 1);
        let before = with_nodes(g, items, n - 1);
        let after = with_nodes(g, items, n);
        assert forall|j: int| 0 <= j < n implies (#[trigger] after[g.len() + j]) == (NodeView {
            pos: items[j].0,
            label: items[j].1,
            edges: Seq::empty(),
        }) by {
            if j < n - 1 {
                assert(after[g.len() + j] == before[g.len() + j]);
            }
        }
        if targets_in_range(g) {
            assert forall|i: int, k: int|
                0 <= i < after.len() && 0 <= k < after[i].edges.len() implies (
            #[trigger] after[i].edges[k]).target < after.len() by {
                if i < before.len() {
                    assert(after[i] == before[i]);
                    assert(before[i].edges[k].target < before.len());
                }
            }
        }
    }
}

/// Giving a weight to an edge that does not exist changes nothing.
pub proof fn lemma_weight_of_missing_edge(
    g: Seq<NodeView>,
    source: int,
    target: usize,
    weight: u64,
)
    requires
        !has_edge(g, source, target as int),
    ensures
        with_weight(g, source, target, weight) == g,
{
    if 0 <= source < g.len() {
        lemma_first_edge_to_props(g[source].edges, target as int);
    }
}

/// Giving a weight to an edge changes the first edge from `source` to
/// `target` and nothing else: no node or edge comes or goes, no edge is
/// redirected, and every other edge keeps its weight.
pub proof fn lemma_weight_of_first_edge(g: Seq<NodeView>, source: int, target: usize, weight: u64)
    requires
        has_edge(g, source, target as int),
    ensures
        ({
            let h = with_weight(g, source, target, weight);
            let k = first_edge_to(g[source].edges, target as int);
            &&& h.len() == g.len()
            &&& forall|i: int| 0 <= i < g.len() && i != source ==> h[i] == g[i]
            &&& h[source].pos == g[source].pos
            &&& h[source].label == g[source].label
            &&& h[source].edges.len() == g[source].edges.len()
            &&& 0 <= k < g[source].edges.len()
            &&& g[source].edges[k].target == target
            &&& forall|j: int| 0 <= j < k ==> (#[trigger] g[source].edges[j]).target != target
            &&& h[source].edges[k] == (Edge { target, weight })
            &&& forall|j: int|
                0 <= j < g[source].edges.len() && j != k ==> h[source].edges[j]
                    == g[source].edges[j]
        }),
{
    lemma_first_edge_to_props(g[source].edges, target as int);
}

/// `first_edge_to` is the least index of an edge to `target`, and is
/// characterised by that.
pub proof fn lemma_first_edge_to(edges: Seq<Edge>, target: int, k: int)
    requires
        0 <= k <= edges.len(),
        forall|j: int| 0 <= j < k ==> (#[trigger] edges[j]).target != target,
        k < edges.len() ==> edges[k].target == target,
    ensures
        first_edge_to(edges, target) == k,
    decreases k,
{
    if k > 0 {
        let rest = edges.subrange(1, edges.len() as int);
        assert(edges[0].target != target);
        assert forall|j: int| 0 <= j < k - 1 implies (#[trigger] rest[j]).target != target by {
            assert(rest[j] == edges[j + 1]);
        }
        lemma_first_edge_to(rest, target, k - 1);
    }
}

/// `first_edge_to` stays within bounds, points at an edge to `target` when
/// it points at an edge at all, and passes over no such edge.
pub proof fn lemma_first_edge_to_props(edges: Seq<Edge>, target: int)
    ensures
        0 <= first_edge_to(edges, target) <= edges.len(),
        first_edge_to(edges, target) < edges.len() ==> edges[first_edge_to(
            edges,
            target,
        )].target == target,
        forall|j: int|
            0 <= j < first_edge_to(edges, target) ==> (#[trigger] edges[j]).target != target,
    decreases edges.len(),
{
    if edges.len() != 0 && edges[0].target != target {
        let rest = edges.subrange(1, edges.len() as int);
        lemma_first_edge_to_props(rest, target);
        let k = first_edge_to(rest, target);
        assert(k < rest.len() ==> rest[k] == edges[k + 1]);
        assert forall|j: int| 0 <= j < k + 1 implies (#[trigger] edges[j]).target != target by {
            if j > 0 {
                assert(edges[j] == rest[j - 1]);
            }
        }
    }
}

impl View for Graph {
    type V = Seq<NodeView>;

    closed spec fn view(&self) -> Seq<NodeView> {
        Seq::new(self.nodes@.len(), |i: int| self.nodes@[i]@)
    }
}

impl Graph {
    /// Well-formedness: every edge leads to an existing node.
    pub open spec fn wf(&self) -> bool {
        targets_in_range(self@)
    }

    /// The empty graph.
    pub fn new() -> (g: Graph)
        ensures
            g@ == Seq::<NodeView>::empty(),
            g.wf(),
    {
        Graph { nodes: Vec::new() }
    }

    /// Number of nodes; also the index that the next node will get.
    pub fn node_count(&self) -> (n: usize)
        ensures
            n == self@.len(),
    {
        self.nodes.len()
    }

    /// Appends a node without edges and returns its index, which is the
    /// number of nodes before the call.
    pub fn add_node(&mut self, pos: Point, label: String) -> (index: usize)
        requires
            old(self).wf(),
        ensures
            index == old(self)@.len(),
            final(self)@ == with_node(old(self)@, pos, label@),
            final(self).wf(),
    {
        let index = self.nodes.len();
        self.nodes.push(Node { pos, label, edges: Vec::new() });
        proof {
            assert(self@ =~= with_node(old(self)@, pos, label@));
        }
        index
    }

    /// Appends an edge to `source`'s edge list. Duplicate edges are kept.
    pub fn add_edge(&mut self, source: usize, target: usize, weight: u64)
        requires
            old(self).wf(),
            source < old(self)@.len(),
            target < old(self)@.len(),
        ensures
            final(self)@ == with_edge(old(self)@, source as int, target, weight),
            final(self).wf(),
    {
        self.nodes[source].edges.push(Edge { target, weight });
        proof {
            assert(self@ =~= with_edge(old(self)@, source as int, target, weight));
        }
    }

    /// Overwrites the weight of the first edge from `source` to `target`.
    /// Does nothing when there is no such edge.
    pub fn update_edge_weight(&mut self, source: usize, target: usize, weight: u64)
        requires
            old(self).wf(),
        ensures
            final(self)@ == with_weight(old(self)@, source as int, target, weight),
            !has_edge(old(self)@, source as int, target as int) ==> final(self)@ == old(self)@,
            final(self).wf(),
    {
        proof {
            if source < self@.len() {
                lemma_first_edge_to_props(self@[source as int].edges, target as int);
            }
        }
        if source >= self.nodes.len() {
            return ;
        }
        let count = self.nodes[source].edges.len();
        let mut k: usize = 0;
        while k < count
            invariant
                *self == *old(self),
                self.wf(),
                source < self.nodes@.len(),
                count == self.nodes@[source as int].edges@.len(),
                k <= count,
                forall|j: int|
                    0 <= j < k ==> (#[trigger] self.nodes@[source as int].edges@[j]).target
                        != target,
            decreases count - k,
        {
            if self.nodes[source].edges[k].target == target {
                proof {
                    lemma_first_edge_to(self@[source as int].edges, target as int, k as int);
                }
                self.nodes[source].edges[k].weight = weight;
                proof {
                    assert(self@ =~= with_weight(old(self)@, source as int, target, weight));
                }
                return ;
            }
            k += 1;
        }
        proof {
            lemma_first_edge_to(self@[source as int].edges, target as int, count as int);
        }
    }

    /// Whether some edge leads from `source` to `target`.
    pub fn has_edge_to(&self, source: usize, target: usize) -> (found: bool)
        ensures
            found == has_edge(self@, source as int, target as int),
    {
        if source >= self.nodes.len() {
            return false;
        }
        let edges = &self.nodes[source].edges;
        let mut k: usize = 0;
        while k < edges.len()
            invariant
                k <= edges@.len(),
                source < self@.len(),
                edges@ == self@[source as int].edges,
                forall|j: int| 0 <= j < k ==> (#[trigger] edges@[j]).target != target,
            decreases edges@.len() - k,
        {
            if edges[k].target == target {
                return true;
            }
            k += 1;
        }
        false
    }

    /// The first node in index order, other than `skip`, whose hit region
    /// holds `p`.
    pub fn node_at(&self, p: Point, skip: Option<usize>) -> (found: Option<usize>)
        ensures
            found == ({
                let k = first_node_at(
                    self@,
                    p,
                    match skip {
                        Some(s) => s as int,
                        None => -1,
                    },
                    0,
                );
                if k < self@.len() {
                    Some(k as usize)
                } else {
                    None
                }
            }),
    {
        let ghost skipped: int = match skip {
            Some(s) => s as int,
            None => -1,
        };
        let n = self.nodes.len();
        let mut i: usize = 0;
        while i < n
            invariant
                n == self@.len(),
                i <= n,
                skipped == match skip {
                    Some(s) => s as int,
                    None => -1,
                },
                first_node_at(self@, p, skipped, 0) == first_node_at(self@, p, skipped, i as int),
            decreases n - i,
        {
            let skip_this = match skip {
                Some(s) => s == i,
                None => false,
            };
            if !skip_this && self.nodes[i].pos.hit_by(p) {
                return Some(i);
            }
            i += 1;
        }
        None
    }

    /// Position of node `index`.
    pub fn node_position(&self, index: usize) -> (p: Point)
        requires
            index < self@.len(),
        ensures
            p == self@[index as int].pos,
    {
        self.nodes[index].pos
    }

    /// Moves node `index` to `pos`.
    pub fn set_node_position(&mut self, index: usize, pos: Point)
        requires
            old(self).wf(),
            index < old(self)@.len(),
        ensures
            final(self)@ == with_position(old(self)@, index as int, pos),
            final(self).wf(),
    {
        self.nodes[index].pos = pos;
        proof {
            assert(self@ =~= with_position(old(self)@, index as int, pos));
        }
    }

    /// Gives node `index` a new label.
    pub fn set_node_label(&mut self, index: usize, label: String)
        requires
            old(self).wf(),
            index < old(self)@.len(),
        ensures
            final(self)@ == with_label(old(self)@, index as int, label@),
            final(self).wf(),
    {
        self.nodes[index].label = label;
        proof {
            assert(self@ =~= with_label(old(self)@, index as int, label@));
        }
    }

    /// All nodes in index order, for read-only traversal.
    pub fn iter_nodes(&self) -> (nodes: &Vec<Node>)
        ensures
            nodes@.len() == self@.len(),
            forall|i: int| 0 <= i < nodes@.len() ==> (#[trigger] nodes@[i])@ == self@[i],
    {
        &self.nodes
    }

    /// The outgoing edges of node `index` in insertion order, for read-only
    /// traversal.
    pub fn iter_edges_of(&self, index: usize) -> (edges: &Vec<Edge>)
        requires
            index < self@.len(),
        ensures
            edges@ == self@[index as int].edges,
    {
        &self.nodes[index].edges
    }
}

} // verus!
