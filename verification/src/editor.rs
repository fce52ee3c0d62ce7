//! The interaction state machine: selection, pending text inputs, and the
//! result of the last path query.
//!
//! Every input signal is one transition. A transition whose precondition
//! does not hold leaves the state as it is; none of them fails. The host
//! reports signals; what they do to the graph is decided here.

use crate::geometry::{shifted, Point};
use crate::graph::{
    first_node_at, has_edge, lemma_first_node_at, targets_in_range, with_edge, with_label,
    with_node, with_position, with_weight, Graph, NodeView, UNIT_WEIGHT,
};
use crate::paths::reachable;
use crate::search::{is_shortest, shortest_path};
use crate::text::{
    bounded, decimal, index_of_text, index_text, parse_index, parse_weight, weight_of_text,
};
use vstd::prelude::*;
use vstd::string::*;

verus! {

/// The editor's whole state.
pub struct Editor {
    graph: Graph,
    selected: Option<usize>,
    node_label_input: String,
    edge_weight_input: String,
    start_node_input: String,
    end_node_input: String,
    solution: Option<(u128, Vec<usize>)>,
}

/// The mathematical content of an [`Editor`].
pub struct EditorView {
    pub graph: Seq<NodeView>,
    /// The selected node, if any.
    pub selected: Option<usize>,
    /// Label to give to the next node created or relabelled.
    pub node_label_input: Seq<char>,
    /// Weight to give to the next edge created or reweighted.
    pub edge_weight_input: Seq<char>,
    /// Start node of the next path query.
    pub start_node_input: Seq<char>,
    /// End node of the next path query.
    pub end_node_input: Seq<char>,
    /// Cost and path found by the last query.
    pub solution: Option<(u128, Seq<usize>)>,
}

/// The text that the weight buffer is reset to.
pub open spec fn unit_text() -> Seq<char> {
    seq!['1']
}

/// The weight that `s` denotes, where it denotes one that fits.
pub open spec fn weight_in(s: Seq<char>) -> Option<u64> {
    match weight_of_text(s) {
        Some(v) => bounded(v, u64::MAX),
        None => None,
    }
}

/// The index that `s` denotes, where it denotes one that fits.
pub open spec fn index_in(s: Seq<char>) -> Option<usize> {
    match index_of_text(s) {
        Some(v) => if v <= usize::MAX {
            Some(v as usize)
        } else {
            None
        },
        None => None,
    }
}

/// State after a click on the weight label of the edge from `source` to
/// `target`: with a weight in the buffer and such an edge in the graph, the
/// edge gets the weight and the buffer is reset.
pub open spec fn after_edge_label_click(v: EditorView, source: usize, target: usize) -> EditorView {
    match weight_in(v.edge_weight_input) {
        Some(w) => if has_edge(v.graph, source as int, target as int) {
            EditorView {
                graph: with_weight(v.graph, source as int, target, w),
                edge_weight_input: unit_text(),
                ..v
            }
        } else {
            v
        },
        None => v,
    }
}

/// State after node `index` has been dragged by `(dx, dy)`.
pub open spec fn after_node_drag(v: EditorView, index: usize, dx: int, dy: int) -> EditorView {
    if index < v.graph.len() {
        EditorView {
            graph: with_position(
                v.graph,
                index as int,
                shifted(v.graph[index as int].pos, dx, dy),
            ),
            ..v
        }
    } else {
        v
    }
}

/// State after a click on node `index`: that node is selected.
pub open spec fn after_node_click(v: EditorView, index: usize) -> EditorView {
    if index < v.graph.len() {
        EditorView { selected: Some(index), ..v }
    } else {
        v
    }
}

/// State after a click on the label of node `index`: the node takes the
/// label in the buffer, and the buffer is reset to the next free index.
pub open spec fn after_node_label_click(v: EditorView, index: usize) -> EditorView {
    if index < v.graph.len() {
        EditorView {
            graph: with_label(v.graph, index as int, v.node_label_input),
            node_label_input: decimal(v.graph.len()),
            ..v
        }
    } else {
        v
    }
}

/// The node that an edge created now would lead to: the first node other
/// than the selected one whose hit region holds the pointer.
pub open spec fn edge_target(v: EditorView, pointer: Option<Point>) -> Option<usize> {
    match (v.selected, pointer) {
        (Some(s), Some(p)) => {
            let k = first_node_at(v.graph, p, s as int, 0);
            if s < v.graph.len() && k < v.graph.len() {
                Some(k as usize)
            } else {
                None
            }
        },
        _ => None,
    }
}

/// State after the "new edge" key: with a node selected and the pointer over
/// another node, an edge is added from the one to the other, with the weight
/// in the buffer or the unit weight, and the buffer is reset.
pub open spec fn after_new_edge_key(v: EditorView, pointer: Option<Point>) -> EditorView {
    match edge_target(v, pointer) {
        Some(h) => EditorView {
            graph: with_edge(
                v.graph,
                v.selected.unwrap() as int,
                h,
                match weight_in(v.edge_weight_input) {
                    Some(w) => w,
                    None => UNIT_WEIGHT,
                },
            ),
            edge_weight_input: unit_text(),
            ..v
        },
        None => v,
    }
}

/// The label that a node created now would get: the buffer's text, or the
/// node's own index where the buffer is empty.
pub open spec fn new_node_label(v: EditorView) -> Seq<char> {
    if v.node_label_input.len() == 0 {
        decimal(v.graph.len())
    } else {
        v.node_label_input
    }
}

/// State after the "new node" key: with the pointer over the canvas, a node
/// is added there, and the label buffer is reset to the next free index.
pub open spec fn after_new_node_key(v: EditorView, pointer: Option<Point>) -> EditorView {
    match pointer {
        Some(p) => EditorView {
            graph: with_node(v.graph, p, new_node_label(v)),
            node_label_input: decimal(v.graph.len() + 1),
            ..v
        },
        None => v,
    }
}

/// The query that "Solve" would run: both buffers denote nodes of the graph.
pub open spec fn query(v: EditorView) -> Option<(usize, usize)> {
    match (index_in(v.start_node_input), index_in(v.end_node_input)) {
        (Some(s), Some(e)) => if s < v.graph.len() && e < v.graph.len() {
            Some((s, e))
        } else {
            None
        },
        _ => None,
    }
}

/// Whether `found` answers the query from `start` to `end` on `g`: a
/// shortest path with its cost, or nothing where the end cannot be reached.
/// From a node to itself the answer is the node alone.
pub open spec fn answers(
    g: Seq<NodeView>,
    start: usize,
    end: usize,
    found: Option<(u128, Seq<usize>)>,
) -> bool {
    &&& match found {
        Some((cost, path)) => is_shortest(g, start as int, end as int, cost as int, path),
        None => !reachable(g, start as int, end as int),
    }
    &&& start == end && start < g.len() ==> found == Some((0u128, seq![start]))
}

/// The view of a stored solution.
pub open spec fn solution_view(s: Option<(u128, Vec<usize>)>) -> Option<(u128, Seq<usize>)> {
    match s {
        Some((cost, path)) => Some((cost, path@)),
        None => None,
    }
}

impl View for Editor {
    type V = EditorView;

    closed spec fn view(&self) -> EditorView {
        EditorView {
            graph: self.graph@,
            selected: self.selected,
            node_label_input: self.node_label_input@,
            edge_weight_input: self.edge_weight_input@,
            start_node_input: self.start_node_input@,
            end_node_input: self.end_node_input@,
            solution: solution_view(self.solution),
        }
    }
}

/// Well-formedness of an editor state: edges lead to nodes, the selection is
/// a node, and a stored path is not empty.
pub open spec fn view_wf(v: EditorView) -> bool {
    &&& targets_in_range(v.graph)
    &&& v.selected matches Some(s) ==> s < v.graph.len()
    &&& v.solution matches Some(found) ==> found.1.len() >= 1
}

/// The text of the unit weight.
fn unit_string() -> (s: String)
    ensures
        s@ == unit_text(),
{
    proof {
        reveal_strlit("1");
    }
    let s = String::from_str("1");
    proof {
        assert(s@ =~= unit_text());
    }
    s
}

impl Editor {
    /// Well-formedness; see [`view_wf`].
    pub open spec fn wf(&self) -> bool {
        view_wf(self@)
    }

    /// The state at start-up: an empty graph, nothing selected, no solution,
    /// label buffer "0" and weight buffer "1".
    pub fn new() -> (e: Editor)
        ensures
            e.wf(),
            e@ == (EditorView {
                graph: Seq::empty(),
                selected: None,
                node_label_input: decimal(0),
                edge_weight_input: unit_text(),
                start_node_input: Seq::empty(),
                end_node_input: Seq::empty(),
                solution: None,
            }),
    {
        Editor {
            graph: Graph::new(),
            selected: None,
            node_label_input: index_text(0),
            edge_weight_input: unit_string(),
            start_node_input: String::new(),
            end_node_input: String::new(),
            solution: None,
        }
    }

    /// The graph being edited.
    pub fn graph(&self) -> (g: &Graph)
        ensures
            g@ == self@.graph,
            self.wf() ==> g.wf(),
    {
        &self.graph
    }

    /// The selected node, if any.
    pub fn selected(&self) -> (s: Option<usize>)
        ensures
            s == self@.selected,
    {
        self.selected
    }

    /// The result of the last path query.
    pub fn solution(&self) -> (s: &Option<(u128, Vec<usize>)>)
        ensures
            solution_view(*s) == self@.solution,
    {
        &self.solution
    }

    /// The pending node label.
    pub fn node_label_input(&self) -> (s: &String)
        ensures
            s@ == self@.node_label_input,
    {
        &self.node_label_input
    }

    /// The pending edge weight, as typed.
    pub fn edge_weight_input(&self) -> (s: &String)
        ensures
            s@ == self@.edge_weight_input,
    {
        &self.edge_weight_input
    }

    /// The start node of the next query, as typed.
    pub fn start_node_input(&self) -> (s: &String)
        ensures
            s@ == self@.start_node_input,
    {
        &self.start_node_input
    }

    /// The end node of the next query, as typed.
    pub fn end_node_input(&self) -> (s: &String)
        ensures
            s@ == self@.end_node_input,
    {
        &self.end_node_input
    }

    /// Replaces the pending node label.
    pub fn set_node_label_input(&mut self, text: String)
        ensures
            final(self)@ == (EditorView { node_label_input: text@, ..old(self)@ }),
    {
        self.node_label_input = text;
    }

    /// Replaces the pending edge weight.
    pub fn set_edge_weight_input(&mut self, text: String)
        ensures
            final(self)@ == (EditorView { edge_weight_input: text@, ..old(self)@ }),
    {
        self.edge_weight_input = text;
    }

    /// Replaces the start node of the next query.
    pub fn set_start_node_input(&mut self, text: String)
        ensures
            final(self)@ == (EditorView { start_node_input: text@, ..old(self)@ }),
    {
        self.start_node_input = text;
    }

    /// Replaces the end node of the next query.
    pub fn set_end_node_input(&mut self, text: String)
        ensures
            final(self)@ == (EditorView { end_node_input: text@, ..old(self)@ }),
    {
        self.end_node_input = text;
    }

    /// A click on the weight label of the edge from `source` to `target`.
    pub fn click_edge_label(&mut self, source: usize, target: usize)
        requires
            old(self).wf(),
        ensures
            final(self).wf(),
            final(self)@ == after_edge_label_click(old(self)@, source, target),
    {
        match parse_weight(self.edge_weight_input.as_str()) {
            Some(w) => {
                if self.graph.has_edge_to(source, target) {
                    self.graph.update_edge_weight(source, target, w);
                    self.edge_weight_input = unit_string();
                }
            },
            None => {},
        }
    }

    /// A drag of node `index` by `(dx, dy)`.
    pub fn drag_node(&mut self, index: usize, dx: i32, dy: i32)
        requires
            old(self).wf(),
        ensures
            final(self).wf(),
            final(self)@ == after_node_drag(old(self)@, index, dx as int, dy as int),
    {
        if index < self.graph.node_count() {
            let moved = self.graph.node_position(index).shift(dx, dy);
            self.graph.set_node_position(index, moved);
        }
    }

    /// A click on node `index`.
    pub fn click_node(&mut self, index: usize)
        requires
            old(self).wf(),
        ensures
            final(self).wf(),
            final(self)@ == after_node_click(old(self)@, index),
    {
        if index < self.graph.node_count() {
            self.selected = Some(index);
        }
    }

    /// A click on the label of node `index`.
    pub fn click_node_label(&mut self, index: usize)
        requires
            old(self).wf(),
        ensures
            final(self).wf(),
            final(self)@ == after_node_label_click(old(self)@, index),
    {
        let count = self.graph.node_count();
        if index < count {
            let label = self.node_label_input.clone();
            self.graph.set_node_label(index, label);
            self.node_label_input = index_text(count);
        }
    }

    /// The node that an edge created now would lead to.
    pub fn hovered_target(&self, pointer: Option<Point>) -> (h: Option<usize>)
        requires
            self.wf(),
        ensures
            h == edge_target(self@, pointer),
    {
        match (self.selected, pointer) {
            (Some(s), Some(p)) => {
                if s < self.graph.node_count() {
                    self.graph.node_at(p, Some(s))
                } else {
                    None
                }
            },
            _ => None,
        }
    }

    /// The "new edge" key, with the pointer at `pointer`.
    pub fn press_new_edge(&mut self, pointer: Option<Point>)
        requires
            old(self).wf(),
        ensures
            final(self).wf(),
            final(self)@ == after_new_edge_key(old(self)@, pointer),
    {
        match self.hovered_target(pointer) {
            Some(h) => {
                let source = self.selected.unwrap();
                let count = self.graph.node_count();
                proof {
                    lemma_first_node_at(self@.graph, pointer.unwrap(), source as int, 0);
                }
                let weight = match parse_weight(self.edge_weight_input.as_str()) {
                    Some(w) => w,
                    None => UNIT_WEIGHT,
                };
                self.graph.add_edge(source, h, weight);
                self.edge_weight_input = unit_string();
            },
            None => {},
        }
    }

    /// The "new node" key, with the pointer at `pointer`.
    pub fn press_new_node(&mut self, pointer: Option<Point>)
        requires
            old(self).wf(),
        ensures
            final(self).wf(),
            final(self)@ == after_new_node_key(old(self)@, pointer),
    {
        match pointer {
            Some(p) => {
                let label = if self.node_label_input.as_str().unicode_len() == 0 {
                    index_text(self.graph.node_count())
                } else {
                    self.node_label_input.clone()
                };
                self.graph.add_node(p, label);
                self.node_label_input = index_text(self.graph.node_count());
            },
            None => {},
        }
    }

    /// Whether the "Solve" control is enabled: both query buffers denote
    /// indices.
    pub fn solve_enabled(&self) -> (enabled: bool)
        ensures
            enabled == (index_in(self@.start_node_input) is Some && index_in(
                self@.end_node_input,
            ) is Some),
    {
        parse_index(self.start_node_input.as_str()).is_some() && parse_index(
            self.end_node_input.as_str(),
        ).is_some()
    }

    /// The query that "Solve" would run now, if any.
    pub fn pending_query(&self) -> (q: Option<(usize, usize)>)
        ensures
            q == query(self@),
    {
        let count = self.graph.node_count();
        match (
            parse_index(self.start_node_input.as_str()),
            parse_index(self.end_node_input.as_str()),
        ) {
            (Some(s), Some(e)) => if s < count && e < count {
                Some((s, e))
            } else {
                None
            },
            _ => None,
        }
    }

    /// The "Solve" action: where both query buffers denote nodes of the
    /// graph, the answer to the query replaces the stored solution, also
    /// where the answer is that there is no path.
    pub fn solve(&mut self)
        requires
            old(self).wf(),
        ensures
            final(self).wf(),
            final(self)@ == (EditorView { solution: final(self)@.solution, ..old(self)@ }),
            match query(old(self)@) {
                Some((s, e)) => answers(old(self)@.graph, s, e, final(self)@.solution),
                None => final(self)@.solution == old(self)@.solution,
            },
    {
        match self.pending_query() {
            Some((s, e)) => {
                self.solution = shortest_path(&self.graph, s, e);
            },
            None => {},
        }
    }
}

} // verus!
