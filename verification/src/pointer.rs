//! From what the pointer did to the signals of a frame.
//!
//! A click goes to everything under it: to every weight label and every
//! caption whose box holds the pointer, and to the node on top of the
//! others there. Nodes are drawn in index order, so of the nodes under the
//! pointer the one with the greatest index lies on top.

use crate::editor::Editor;
use crate::frame::{Frame, NodeSignal};
use crate::geometry::{within_box, within_hit_region, Point};
use crate::graph::{targets_in_range, Graph, NodeView};
use crate::render::{
    caption_anchor, caption_anchor_of, midpoint, midpoint_of, CAPTION_WIDTH, LABEL_HEIGHT,
    WEIGHT_LABEL_WIDTH,
};
use vstd::prelude::*;

verus! {

/// What the pointer and the trigger keys did during a frame.
#[derive(Clone, Copy, Debug)]
pub struct Gesture {
    /// Where the pointer hovers, if it is over the canvas.
    pub pointer: Option<Point>,
    /// Whether the primary button was clicked without a drag.
    pub clicked: bool,
    /// The node being dragged and how far it moved in this frame.
    pub drag: Option<(usize, i32, i32)>,
    /// Whether the "new edge" key was pressed.
    pub new_edge_key: bool,
    /// Whether the "new node" key was pressed.
    pub new_node_key: bool,
}

/// Whether the box of the weight label of edge `k` of node `i` holds `p`.
pub open spec fn weight_label_holds(g: Seq<NodeView>, i: int, k: int, p: Point) -> bool {
    let edge = g[i].edges[k];
    within_box(
        midpoint(g[i].pos, g[edge.target as int].pos),
        WEIGHT_LABEL_WIDTH as int,
        LABEL_HEIGHT as int,
        p,
    )
}

/// Whether the box of the caption of node `i` holds `p`.
pub open spec fn caption_holds(g: Seq<NodeView>, i: int, p: Point) -> bool {
    within_box(caption_anchor(g[i].pos), CAPTION_WIDTH as int, LABEL_HEIGHT as int, p)
}

/// Of the first `n` edges of node `i`, those whose weight label holds `p`,
/// as (source, target).
pub open spec fn labels_of_node_at(g: Seq<NodeView>, i: int, n: int, p: Point) -> Seq<
    (usize, usize),
>
    decreases n,
{
    if n <= 0 {
        Seq::empty()
    } else if weight_label_holds(g, i, n - 1, p) {
        labels_of_node_at(g, i, n - 1, p).push((i as usize, g[i].edges[n - 1].target))
    } else {
        labels_of_node_at(g, i, n - 1, p)
    }
}

/// Of the edges of the first `n` nodes, those whose weight label holds `p`.
pub open spec fn labels_at(g: Seq<NodeView>, n: int, p: Point) -> Seq<(usize, usize)>
    decreases n,
{
    if n <= 0 {
        Seq::empty()
    } else {
        labels_at(g, n - 1, p) + labels_of_node_at(g, n - 1, g[n - 1].edges.len() as int, p)
    }
}

/// Of the first `n` nodes, the last whose hit region holds `p`.
pub open spec fn top_node_at(g: Seq<NodeView>, n: int, p: Point) -> Option<usize>
    decreases n,
{
    if n <= 0 {
        None
    } else if within_hit_region(g[n - 1].pos, p) {
        Some((n - 1) as usize)
    } else {
        top_node_at(g, n - 1, p)
    }
}

/// The signals that `gesture` means for node `i`.
pub open spec fn node_signal_of(g: Seq<NodeView>, gesture: Gesture, i: int) -> NodeSignal {
    let click = if gesture.clicked {
        gesture.pointer
    } else {
        None
    };
    NodeSignal {
        index: i as usize,
        drag: match gesture.drag {
            Some((node, dx, dy)) => if node == i {
                Some((dx, dy))
            } else {
                None
            },
            None => None,
        },
        clicked: click is Some && top_node_at(g, g.len() as int, click.unwrap()) == Some(
            i as usize,
        ),
        label_clicked: click is Some && caption_holds(g, i, click.unwrap()),
    }
}

/// Whether `frame` holds the signals that `gesture` means on the graph `g`.
pub open spec fn frame_of(g: Seq<NodeView>, gesture: Gesture, frame: Frame) -> bool {
    &&& frame.pointer == gesture.pointer
    &&& frame.new_edge_key == gesture.new_edge_key
    &&& frame.new_node_key == gesture.new_node_key
    &&& frame.edge_label_clicks@ == (match gesture.pointer {
        Some(p) => if gesture.clicked {
            labels_at(g, g.len() as int, p)
        } else {
            Seq::empty()
        },
        None => Seq::empty(),
    })
    &&& frame.node_signals@ == Seq::new(g.len(), |i: int| node_signal_of(g, gesture, i))
}

/// The node on top of the others under `p`, if any node is there.
pub fn node_on_top(graph: &Graph, p: Point) -> (top: Option<usize>)
    ensures
        top == top_node_at(graph@, graph@.len() as int, p),
{
    let nodes = graph.iter_nodes();
    let mut n: usize = nodes.len();
    while n > 0
        invariant
            nodes@.len() == graph@.len(),
            forall|j: int| 0 <= j < nodes@.len() ==> (#[trigger] nodes@[j])@ == graph@[j],
            n <= nodes@.len(),
            top_node_at(graph@, graph@.len() as int, p) == top_node_at(graph@, n as int, p),
        decreases n,
    {
        if nodes[n - 1].position().hit_by(p) {
            return Some(n - 1);
        }
        n -= 1;
    }
    None
}

/// The edges, as (source, target), whose weight label holds `p`, in the
/// order in which they are drawn.
pub fn weight_labels_at(graph: &Graph, p: Point) -> (hits: Vec<(usize, usize)>)
    requires
        graph.wf(),
    ensures
        hits@ == labels_at(graph@, graph@.len() as int, p),
{
    let nodes = graph.iter_nodes();
    let count = nodes.len();
    let mut hits: Vec<(usize, usize)> = Vec::new();
    let mut i: usize = 0;
    while i < count
        invariant
            targets_in_range(graph@),
            count == graph@.len(),
            nodes@.len() == count,
            forall|j: int| 0 <= j < count ==> (#[trigger] nodes@[j])@ == graph@[j],
            i <= count,
            hits@ == labels_at(graph@, i as int, p),
        decreases count - i,
    {
        let from = nodes[i].position();
        let edges = nodes[i].edges();
        let ghost before = hits@;
        let mut k: usize = 0;
        proof {
            assert(hits@ =~= before + labels_of_node_at(graph@, i as int, 0, p));
        }
        while k < edges.len()
            invariant
                targets_in_range(graph@),
                count == graph@.len(),
                nodes@.len() == count,
                forall|j: int| 0 <= j < count ==> (#[trigger] nodes@[j])@ == graph@[j],
                i < count,
                from == graph@[i as int].pos,
                edges@ == graph@[i as int].edges,
                k <= edges@.len(),
                hits@ == before + labels_of_node_at(graph@, i as int, k as int, p),
            decreases edges@.len() - k,
        {
            let edge = edges[k];
            proof {
                assert(graph@[i as int].edges[k as int].target < graph@.len());
            }
            let to = nodes[edge.target].position();
            if midpoint_of(from, to).box_holds(WEIGHT_LABEL_WIDTH, LABEL_HEIGHT, p) {
                hits.push((i, edge.target));
            }
            proof {
                assert(hits@ =~= before + labels_of_node_at(graph@, i as int, k + 1, p));
            }
            k += 1;
        }
        proof {
            assert(hits@ =~= labels_at(graph@, i + 1, p));
        }
        i += 1;
    }
    hits
}

/// The signals that `gesture` means for the editor as it stands.
pub fn read_gesture(editor: &Editor, gesture: Gesture) -> (frame: Frame)
    requires
        editor.wf(),
    ensures
        frame_of(editor@.graph, gesture, frame),
{
    let graph = editor.graph();
    let nodes = graph.iter_nodes();
    let count = nodes.len();
    let click = if gesture.clicked {
        gesture.pointer
    } else {
        None
    };
    let (edge_label_clicks, clicked_node) = match click {
        Some(p) => (weight_labels_at(graph, p), node_on_top(graph, p)),
        None => (Vec::new(), None),
    };
    let mut node_signals: Vec<NodeSignal> = Vec::new();
    let mut i: usize = 0;
    while i < count
        invariant
            graph@ == editor@.graph,
            count == graph@.len(),
            nodes@.len() == count,
            forall|j: int| 0 <= j < count ==> (#[trigger] nodes@[j])@ == graph@[j],
            click == (if gesture.clicked {
                gesture.pointer
            } else {
                None
            }),
            clicked_node == (match click {
                Some(p) => top_node_at(graph@, graph@.len() as int, p),
                None => None,
            }),
            i <= count,
            node_signals@.len() == i,
            forall|j: int|
                0 <= j < i ==> (#[trigger] node_signals@[j]) == node_signal_of(
                    graph@,
                    gesture,
                    j,
                ),
        decreases count - i,
    {
        let drag = match gesture.drag {
            Some((node, dx, dy)) => if node == i {
                Some((dx, dy))
            } else {
                None
            },
            None => None,
        };
        let clicked = match clicked_node {
            Some(top) => top == i,
            None => false,
        };
        let label_clicked = match click {
            Some(p) => caption_anchor_of(nodes[i].position()).box_holds(
                CAPTION_WIDTH,
                LABEL_HEIGHT,
                p,
            ),
            None => false,
        };
        node_signals.push(NodeSignal { index: i, drag, clicked, label_clicked });
        i += 1;
    }
    proof {
        assert(node_signals@ =~= Seq::new(
            graph@.len(),
            |i: int| node_signal_of(graph@, gesture, i),
        ));
    }
    Frame {
        pointer: gesture.pointer,
        edge_label_clicks,
        node_signals,
        new_edge_key: gesture.new_edge_key,
        new_node_key: gesture.new_node_key,
    }
}

} // verus!
