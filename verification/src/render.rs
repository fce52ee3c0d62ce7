//! What a frame shows: the draw list derived from the editor's state.
//!
//! Nothing here changes the state. Edges come first, each as a line with its
//! weight at the midpoint; then the nodes, each as a disc, a ring where the
//! node is selected, and a caption beside it.

use crate::editor::{index_in, Editor, EditorView};
use crate::geometry::{shifted, Point};
use crate::graph::NodeView;
use crate::text::{
    cost_text, decimal, index_text, parse_index, weight_decimal, weight_text,
};
use vstd::prelude::*;
use vstd::string::*;

verus! {

/// Offset of a node's caption from the node's centre, along each axis.
pub const CAPTION_OFFSET: i32 = 20;

/// Width of the box around an edge's weight label.
pub const WEIGHT_LABEL_WIDTH: i32 = 30;

/// Width of the box around a node's caption.
pub const CAPTION_WIDTH: i32 = 50;

/// Height of the box around a weight label or a caption.
pub const LABEL_HEIGHT: i32 = 20;

/// How a node is marked.
#[derive(Clone, Copy, Debug, PartialEq, Eq, Structural)]
pub enum Marker {
    /// The start node of the query being typed.
    Start,
    /// The end node of the query being typed.
    End,
    /// A node on the path found by the last query.
    OnPath,
    /// Any other node.
    Plain,
}

/// One draw primitive.
#[derive(Debug, PartialEq, Eq)]
pub enum Shape {
    /// An edge.
    Line { from: Point, to: Point },
    /// A node.
    Disc { center: Point, marker: Marker },
    /// The highlight around the selected node.
    Ring { center: Point },
    /// A caption centred at `anchor`.
    Text { anchor: Point, text: String },
}

/// The mathematical content of a [`Shape`].
pub enum ShapeView {
    Line { from: Point, to: Point },
    Disc { center: Point, marker: Marker },
    Ring { center: Point },
    Text { anchor: Point, text: Seq<char> },
}

impl View for Shape {
    type V = ShapeView;

    open spec fn view(&self) -> ShapeView {
        match *self {
            Shape::Line { from, to } => ShapeView::Line { from, to },
            Shape::Disc { center, marker } => ShapeView::Disc { center, marker },
            Shape::Ring { center } => ShapeView::Ring { center },
            Shape::Text { anchor, text } => ShapeView::Text { anchor, text: text@ },
        }
    }
}

/// The views of a list of shapes.
pub open spec fn views(shapes: Seq<Shape>) -> Seq<ShapeView> {
    Seq::new(shapes.len(), |i: int| shapes[i]@)
}

/// Half of `v`, rounded towards zero.
pub open spec fn half(v: int) -> int {
    if v >= 0 {
        v / 2
    } else {
        -((-v) / 2)
    }
}

/// The point halfway between `a` and `b`.
pub open spec fn midpoint(a: Point, b: Point) -> Point {
    Point { x: half(a.x + b.x) as i32, y: half(a.y + b.y) as i32 }
}

/// Where the caption of a node at `center` goes.
pub open spec fn caption_anchor(center: Point) -> Point {
    shifted(center, CAPTION_OFFSET as int, CAPTION_OFFSET as int)
}

/// How node `index` is marked: as the start or the end of the query being
/// typed, else as part of the path last found, else plainly.
pub open spec fn marker_of(v: EditorView, index: usize) -> Marker {
    if index_in(v.start_node_input) == Some(index) {
        Marker::Start
    } else if index_in(v.end_node_input) == Some(index) {
        Marker::End
    } else if v.solution is Some && v.solution.unwrap().1.contains(index) {
        Marker::OnPath
    } else {
        Marker::Plain
    }
}

/// The caption of node `index`: its label, or its index where the label is
/// empty, followed by the index in parentheses.
pub open spec fn caption_of(label: Seq<char>, index: nat) -> Seq<char> {
    (if label.len() == 0 {
        decimal(index)
    } else {
        label
    }) + seq![' ', '('] + decimal(index) + seq![')']
}

/// The shapes of edge `k` of node `i`.
pub open spec fn edge_shapes(g: Seq<NodeView>, i: int, k: int) -> Seq<ShapeView> {
    let from = g[i].pos;
    let edge = g[i].edges[k];
    let to = g[edge.target as int].pos;
    seq![
        ShapeView::Line { from, to },
        ShapeView::Text { anchor: midpoint(from, to), text: weight_decimal(edge.weight as nat) },
    ]
}

/// The shapes of the first `n` edges of node `i`.
pub open spec fn edges_of_node(g: Seq<NodeView>, i: int, n: int) -> Seq<ShapeView>
    decreases n,
{
    if n <= 0 {
        Seq::empty()
    } else {
        edges_of_node(g, i, n - 1) + edge_shapes(g, i, n - 1)
    }
}

/// The shapes of all edges of the first `n` nodes.
pub open spec fn edges_of_nodes(g: Seq<NodeView>, n: int) -> Seq<ShapeView>
    decreases n,
{
    if n <= 0 {
        Seq::empty()
    } else {
        edges_of_nodes(g, n - 1) + edges_of_node(g, n - 1, g[n - 1].edges.len() as int)
    }
}

/// The shapes of node `i`.
pub open spec fn node_shapes(v: EditorView, i: int) -> Seq<ShapeView> {
    let center = v.graph[i].pos;
    seq![ShapeView::Disc { center, marker: marker_of(v, i as usize) }] + (if v.selected == Some(
        i as usize,
    ) {
        seq![ShapeView::Ring { center }]
    } else {
        Seq::empty()
    }) + seq![
        ShapeView::Text {
            anchor: caption_anchor(center),
            text: caption_of(v.graph[i].label, i as nat),
        },
    ]
}

/// The shapes of the first `n` nodes.
pub open spec fn shapes_of_nodes(v: EditorView, n: int) -> Seq<ShapeView>
    decreases n,
{
    if n <= 0 {
        Seq::empty()
    } else {
        shapes_of_nodes(v, n - 1) + node_shapes(v, n - 1)
    }
}

/// The whole draw list: all edges, then all nodes.
pub open spec fn scene_of(v: EditorView) -> Seq<ShapeView> {
    edges_of_nodes(v.graph, v.graph.len() as int) + shapes_of_nodes(v, v.graph.len() as int)
}

/// The nodes of `path` written as `i, j, k`, the first `n` of them.
pub open spec fn joined(path: Seq<usize>, n: int) -> Seq<char>
    decreases n,
{
    if n <= 0 {
        Seq::empty()
    } else if n == 1 {
        decimal(path[0] as nat)
    } else {
        joined(path, n - 1) + seq![',', ' '] + decimal(path[n - 1] as nat)
    }
}

/// The summary of a solution: `distance: 7.0, path: [0, 1, 2]`.
pub open spec fn summary_of(cost: u128, path: Seq<usize>) -> Seq<char> {
    "distance: "@ + weight_decimal(cost as nat) + ", path: ["@ + joined(path, path.len() as int)
        + seq![']']
}

/// Half of `v`, rounded towards zero.
fn halve(v: i64) -> (h: i64)
    requires
        -0x1_0000_0000 <= v <= 0x1_0000_0000,
    ensures
        h == half(v as int),
{
    if v >= 0 {
        v / 2
    } else {
        -((-v) / 2)
    }
}

/// The point halfway between `a` and `b`.
pub fn midpoint_of(a: Point, b: Point) -> (m: Point)
    ensures
        m == midpoint(a, b),
{
    let x = halve(a.x as i64 + b.x as i64);
    let y = halve(a.y as i64 + b.y as i64);
    Point { x: x as i32, y: y as i32 }
}

/// Where the caption of a node at `center` goes.
pub fn caption_anchor_of(center: Point) -> (anchor: Point)
    ensures
        anchor == caption_anchor(center),
{
    center.shift(CAPTION_OFFSET, CAPTION_OFFSET)
}

/// How node `index` is marked.
#[verifier::loop_isolation(false)]
pub fn node_marker(editor: &Editor, index: usize) -> (m: Marker)
    ensures
        m == marker_of(editor@, index),
{
    match parse_index(editor.start_node_input().as_str()) {
        Some(s) => {
            if s == index {
                return Marker::Start;
            }
        },
        None => {},
    }
    match parse_index(editor.end_node_input().as_str()) {
        Some(e) => {
            if e == index {
                return Marker::End;
            }
        },
        None => {},
    }
    match editor.solution() {
        Some((_, path)) => {
            let mut i: usize = 0;
            while i < path.len()
                invariant
                    i <= path@.len(),
                    forall|j: int| 0 <= j < i ==> path@[j] != index,
                decreases path@.len() - i,
            {
                if path[i] == index {
                    proof {
                        assert(path@[i as int] == index);
                    }
                    return Marker::OnPath;
                }
                i += 1;
            }
            Marker::Plain
        },
        None => Marker::Plain,
    }
}

/// The caption of a node with label `label` and index `index`.
pub fn node_caption(label: &String, index: usize) -> (caption: String)
    ensures
        caption@ == caption_of(label@, index as nat),
{
    let number = index_text(index);
    let mut caption = if label.as_str().unicode_len() == 0 {
        number.clone()
    } else {
        label.clone()
    };
    proof {
        reveal_strlit(" (");
        reveal_strlit(")");
        assert(" ("@ =~= seq![' ', '(']);
        assert(")"@ =~= seq![')']);
    }
    caption.append(" (");
    caption.append(number.as_str());
    caption.append(")");
    caption
}

/// The summary of a solution, as shown above the canvas.
pub fn solution_summary(cost: u128, path: &Vec<usize>) -> (summary: String)
    ensures
        summary@ == summary_of(cost, path@),
{
    let mut summary = String::from_str("distance: ");
    summary.append(cost_text(cost).as_str());
    summary.append(", path: [");
    proof {
        reveal_strlit(", ");
        reveal_strlit("]");
        assert(", "@ =~= seq![',', ' ']);
        assert("]"@ =~= seq![']']);
    }
    let ghost head = summary@;
    let mut i: usize = 0;
    while i < path.len()
        invariant
            i <= path@.len(),
            summary@ == head + joined(path@, i as int),
            ", "@ == seq![',', ' '],
        decreases path@.len() - i,
    {
        if i > 0 {
            summary.append(", ");
        }
        summary.append(index_text(path[i]).as_str());
        proof {
            assert(summary@ =~= head + joined(path@, i + 1));
        }
        i += 1;
    }
    summary.append("]");
    summary
}

/// The draw list of the current state.
pub fn scene(editor: &Editor) -> (shapes: Vec<Shape>)
    requires
        editor.wf(),
    ensures
        views(shapes@) == scene_of(editor@),
{
    let graph = editor.graph();
    let nodes = graph.iter_nodes();
    let count = nodes.len();
    let mut shapes: Vec<Shape> = Vec::new();
    let mut i: usize = 0;
    proof {
        assert(views(shapes@) =~= edges_of_nodes(editor@.graph, 0));
    }
    while i < count
        invariant
            editor.wf(),
            graph@ == editor@.graph,
            graph.wf(),
            count == graph@.len(),
            nodes@.len() == count,
            forall|j: int| 0 <= j < count ==> (#[trigger] nodes@[j])@ == graph@[j],
            i <= count,
            views(shapes@) == edges_of_nodes(graph@, i as int),
        decreases count - i,
    {
        let from = nodes[i].position();
        let edges = nodes[i].edges();
        let ghost before = views(shapes@);
        let mut k: usize = 0;
        proof {
            assert(views(shapes@) =~= before + edges_of_node(graph@, i as int, 0));
        }
        while k < edges.len()
            invariant
                graph.wf(),
                count == graph@.len(),
                nodes@.len() == count,
                forall|j: int| 0 <= j < count ==> (#[trigger] nodes@[j])@ == graph@[j],
                i < count,
                from == graph@[i as int].pos,
                edges@ == graph@[i as int].edges,
                k <= edges@.len(),
                views(shapes@) == before + edges_of_node(graph@, i as int, k as int),
            decreases edges@.len() - k,
        {
            let edge = edges[k];
            proof {
                assert(graph@[i as int].edges[k as int].target < graph@.len());
            }
            let to = nodes[edge.target].position();
            let ghost prior = views(shapes@);
            shapes.push(Shape::Line { from, to });
            shapes.push(Shape::Text { anchor: midpoint_of(from, to), text: weight_text(edge.weight) });
            proof {
                assert(views(shapes@) =~= prior + edge_shapes(graph@, i as int, k as int));
                assert(views(shapes@) =~= before + edges_of_node(graph@, i as int, k + 1));
            }
            k += 1;
        }
        proof {
            assert(views(shapes@) =~= edges_of_nodes(graph@, i + 1));
        }
        i += 1;
    }
    let ghost lines = views(shapes@);
    let mut n: usize = 0;
    proof {
        assert(views(shapes@) =~= lines + shapes_of_nodes(editor@, 0));
    }
    while n < count
        invariant
            graph@ == editor@.graph,
            count == graph@.len(),
            nodes@.len() == count,
            forall|j: int| 0 <= j < count ==> (#[trigger] nodes@[j])@ == graph@[j],
            n <= count,
            lines == edges_of_nodes(editor@.graph, count as int),
            views(shapes@) == lines + shapes_of_nodes(editor@, n as int),
        decreases count - n,
    {
        let center = nodes[n].position();
        let ghost prior = views(shapes@);
        shapes.push(Shape::Disc { center, marker: node_marker(editor, n) });
        let chosen = match editor.selected() {
            Some(s) => s == n,
            None => false,
        };
        if chosen {
            shapes.push(Shape::Ring { center });
        }
        shapes.push(
            Shape::Text {
                anchor: caption_anchor_of(center),
                text: node_caption(nodes[n].label(), n),
            },
        );
        proof {
            assert(views(shapes@) =~= prior + node_shapes(editor@, n as int));
            assert(views(shapes@) =~= lines + shapes_of_nodes(editor@, n + 1));
        }
        n += 1;
    }
    shapes
}

} // verus!
