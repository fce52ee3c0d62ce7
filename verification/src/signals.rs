//! Input signals as values, and what holds of the state whatever signal
//! arrives.
//!
//! The "Solve" action is not among them: what it stores is fixed only up to
//! the choice among equally short paths.

use crate::editor::{
    after_edge_label_click, after_new_edge_key, after_new_node_key, after_node_click,
    after_node_drag, after_node_label_click, edge_target, unit_text, view_wf, weight_in, Editor,
    EditorView,
};
use crate::geometry::Point;
use crate::graph::{
    first_edge_to, has_edge, lemma_first_edge_to_props, lemma_first_node_at, Edge, UNIT_WEIGHT,
};
use crate::text::{
    digit_value, digits_value, index_of_text, is_digit, lemma_index_round_trip,
    lemma_leading_digits, unsigned_part, weight_of_text,
};
use vstd::prelude::*;

verus! {

/// One input signal.
#[derive(Clone, Copy, Debug)]
pub enum Signal {
    /// The weight label of the edge from `source` to `target` was clicked.
    EdgeLabelClick { source: usize, target: usize },
    /// Node `index` was dragged by `(dx, dy)`.
    NodeDrag { index: usize, dx: i32, dy: i32 },
    /// Node `index` was clicked without being dragged.
    NodeClick { index: usize },
    /// The label of node `index` was clicked.
    NodeLabelClick { index: usize },
    /// The "new edge" key was pressed with the pointer at `pointer`.
    NewEdgeKey { pointer: Option<Point> },
    /// The "new node" key was pressed with the pointer at `pointer`.
    NewNodeKey { pointer: Option<Point> },
}

/// State after `signal`.
pub open spec fn after(v: EditorView, signal: Signal) -> EditorView {
    match signal {
        Signal::EdgeLabelClick { source, target } => after_edge_label_click(v, source, target),
        Signal::NodeDrag { index, dx, dy } => after_node_drag(v, index, dx as int, dy as int),
        Signal::NodeClick { index } => after_node_click(v, index),
        Signal::NodeLabelClick { index } => after_node_label_click(v, index),
        Signal::NewEdgeKey { pointer } => after_new_edge_key(v, pointer),
        Signal::NewNodeKey { pointer } => after_new_node_key(v, pointer),
    }
}

/// State after the first `n` of `signals`, taken in order.
pub open spec fn after_all(v: EditorView, signals: Seq<Signal>, n: int) -> EditorView
    decreases n,
{
    if n <= 0 {
        v
    } else {
        after(after_all(v, signals, n - 1), signals[n - 1])
    }
}

/// No signal makes a well-formed state ill-formed: edges keep leading to
/// nodes, and the selection stays a node.
pub proof fn lemma_signal_keeps_wf(v: EditorView, signal: Signal)
    requires
        view_wf(v),
        v.graph.len() <= usize::MAX,
    ensures
        view_wf(after(v, signal)),
{
    match signal {
        Signal::EdgeLabelClick { source, target } => {
            if source < v.graph.len() {
                lemma_first_edge_to_props(v.graph[source as int].edges, target as int);
            }
        },
        Signal::NewEdgeKey { pointer } => {
            if edge_target(v, pointer) is Some {
                lemma_first_node_at(v.graph, pointer.unwrap(), v.selected.unwrap() as int, 0);
            }
        },
        _ => {},
    }
}

/// No signal removes a node, removes an edge or redirects one: the nodes
/// there were keep their indices, and each keeps the edges it had, in order
/// and to the same targets.
pub proof fn lemma_signal_keeps_nodes_and_edges(v: EditorView, signal: Signal)
    requires
        view_wf(v),
    ensures
        after(v, signal).graph.len() >= v.graph.len(),
        forall|i: int|
            0 <= i < v.graph.len() ==> (#[trigger] after(v, signal).graph[i]).edges.len()
                >= v.graph[i].edges.len(),
        forall|i: int, k: int|
            0 <= i < v.graph.len() && 0 <= k < v.graph[i].edges.len() ==> (#[trigger] after(
                v,
                signal,
            ).graph[i].edges[k]).target == v.graph[i].edges[k].target,
{
    match signal {
        Signal::EdgeLabelClick { source, target } => {
            if source < v.graph.len() {
                lemma_first_edge_to_props(v.graph[source as int].edges, target as int);
            }
        },
        _ => {},
    }
}

/// No signal touches the stored solution or the query buffers: a solution
/// stays until the next query replaces it.
pub proof fn lemma_signal_keeps_solution(v: EditorView, signal: Signal)
    ensures
        after(v, signal).solution == v.solution,
        after(v, signal).start_node_input == v.start_node_input,
        after(v, signal).end_node_input == v.end_node_input,
{
}

/// The text that the weight buffer is reset to denotes the unit weight.
pub proof fn lemma_unit_text_is_unit_weight()
    ensures
        weight_in(unit_text()) == Some(UNIT_WEIGHT),
{
    let s = unit_text();
    assert(unsigned_part(s) == s);
    assert(is_digit(s[0]));
    lemma_leading_digits(s, 1);
    let whole = s.take(1);
    assert(whole.drop_last() =~= Seq::<char>::empty());
    assert(digits_value(whole.drop_last()) == 0);
    assert(digit_value(whole.last()) == 1);
    assert(digits_value(whole) == 1);
    assert(weight_of_text(s) == Some(1000nat));
}

/// A click on the weight label of an existing edge, with a weight in the
/// buffer, gives that weight to the first edge between the two nodes and
/// resets the buffer to the text of the unit weight.
pub proof fn lemma_edge_label_click_sets_weight(v: EditorView, source: usize, target: usize)
    requires
        view_wf(v),
        has_edge(v.graph, source as int, target as int),
        weight_in(v.edge_weight_input) is Some,
    ensures
        ({
            let w = after_edge_label_click(v, source, target);
            let k = first_edge_to(v.graph[source as int].edges, target as int);
            &&& 0 <= k < v.graph[source as int].edges.len()
            &&& w.graph[source as int].edges[k] == (Edge {
                target,
                weight: weight_in(v.edge_weight_input).unwrap(),
            })
            &&& w.edge_weight_input == unit_text()
            &&& weight_in(w.edge_weight_input) == Some(UNIT_WEIGHT)
        }),
{
    lemma_first_edge_to_props(v.graph[source as int].edges, target as int);
    lemma_unit_text_is_unit_weight();
}

/// A node created while the label buffer is empty is labelled with its own
/// index, and the buffer then holds the index of the node after it.
pub proof fn lemma_new_node_names_its_index(v: EditorView, pointer: Point)
    requires
        v.node_label_input.len() == 0,
    ensures
        ({
            let w = after_new_node_key(v, Some(pointer));
            &&& w.graph.len() == v.graph.len() + 1
            &&& w.graph[v.graph.len() as int].pos == pointer
            &&& w.graph[v.graph.len() as int].edges.len() == 0
            &&& index_of_text(w.graph[v.graph.len() as int].label) == Some(v.graph.len())
            &&& index_of_text(w.node_label_input) == Some(w.graph.len())
        }),
{
    lemma_index_round_trip(v.graph.len());
    lemma_index_round_trip(v.graph.len() + 1);
}

impl Editor {
    /// Applies one signal.
    pub fn handle(&mut self, signal: Signal)
        requires
            old(self).wf(),
        ensures
            final(self).wf(),
            final(self)@ == after(old(self)@, signal),
    {
        match signal {
            Signal::EdgeLabelClick { source, target } => self.click_edge_label(source, target),
            Signal::NodeDrag { index, dx, dy } => self.drag_node(index, dx, dy),
            Signal::NodeClick { index } => self.click_node(index),
            Signal::NodeLabelClick { index } => self.click_node_label(index),
            Signal::NewEdgeKey { pointer } => self.press_new_edge(pointer),
            Signal::NewNodeKey { pointer } => self.press_new_node(pointer),
        }
    }

    /// Applies `signals` in order.
    pub fn handle_all(&mut self, signals: &Vec<Signal>)
        requires
            old(self).wf(),
        ensures
            final(self).wf(),
            final(self)@ == after_all(old(self)@, signals@, signals@.len() as int),
    {
        let mut i: usize = 0;
        while i < signals.len()
            invariant
                self.wf(),
                i <= signals@.len(),
                self@ == after_all(old(self)@, signals@, i as int),
            decreases signals@.len() - i,
        {
            self.handle(signals[i]);
            i += 1;
        }
    }
}

} // verus!
