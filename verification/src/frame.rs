//! One frame's worth of input signals and the order in which they take
//! effect.
//!
//! Within a frame the signals are applied in a fixed order: clicks on edge
//! weight labels, then the signals of each node (drag, click, label click),
//! then the "new edge" key, then the "new node" key. Each sees what the
//! earlier ones did.

use crate::editor::{
    after_edge_label_click, after_new_edge_key, after_new_node_key, after_node_click,
    after_node_drag, after_node_label_click, Editor, EditorView,
};
use crate::geometry::Point;
use vstd::prelude::*;

verus! {

/// What happened to one node during a frame.
#[derive(Clone, Copy, Debug)]
pub struct NodeSignal {
    /// The node concerned.
    pub index: usize,
    /// How far the node was dragged, if it was.
    pub drag: Option<(i32, i32)>,
    /// Whether the node was clicked without being dragged.
    pub clicked: bool,
    /// Whether the node's label was clicked.
    pub label_clicked: bool,
}

/// The input signals of one frame.
pub struct Frame {
    /// Where the pointer hovers, if it is over the canvas.
    pub pointer: Option<Point>,
    /// The edges, as (source, target), whose weight labels were clicked.
    pub edge_label_clicks: Vec<(usize, usize)>,
    /// Per-node signals, in the order in which the nodes were visited.
    pub node_signals: Vec<NodeSignal>,
    /// Whether the "new edge" key was pressed.
    pub new_edge_key: bool,
    /// Whether the "new node" key was pressed.
    pub new_node_key: bool,
}

/// State after the first `n` edge label clicks.
pub open spec fn after_edge_label_clicks(
    v: EditorView,
    clicks: Seq<(usize, usize)>,
    n: int,
) -> EditorView
    decreases n,
{
    if n <= 0 {
        v
    } else {
        let click = clicks[n - 1];
        after_edge_label_click(after_edge_label_clicks(v, clicks, n - 1), click.0, click.1)
    }
}

/// State after the signals of one node: drag, then click, then label click.
pub open spec fn after_node_signal(v: EditorView, s: NodeSignal) -> EditorView {
    let dragged = match s.drag {
        Some((dx, dy)) => after_node_drag(v, s.index, dx as int, dy as int),
        None => v,
    };
    let clicked = if s.clicked {
        after_node_click(dragged, s.index)
    } else {
        dragged
    };
    if s.label_clicked {
        after_node_label_click(clicked, s.index)
    } else {
        clicked
    }
}

/// State after the signals of the first `n` nodes visited.
pub open spec fn after_node_signals(v: EditorView, signals: Seq<NodeSignal>, n: int) -> EditorView
    decreases n,
{
    if n <= 0 {
        v
    } else {
        after_node_signal(after_node_signals(v, signals, n - 1), signals[n - 1])
    }
}

/// State after the two trigger keys, the "new edge" key first.
pub open spec fn after_keys(
    v: EditorView,
    pointer: Option<Point>,
    new_edge_key: bool,
    new_node_key: bool,
) -> EditorView {
    let with_edge = if new_edge_key {
        after_new_edge_key(v, pointer)
    } else {
        v
    };
    if new_node_key {
        after_new_node_key(with_edge, pointer)
    } else {
        with_edge
    }
}

/// State after a whole frame.
pub open spec fn after_frame(v: EditorView, f: Frame) -> EditorView {
    after_keys(
        after_node_signals(
            after_edge_label_clicks(v, f.edge_label_clicks@, f.edge_label_clicks@.len() as int),
            f.node_signals@,
            f.node_signals@.len() as int,
        ),
        f.pointer,
        f.new_edge_key,
        f.new_node_key,
    )
}

impl Editor {
    /// Applies the signals of one node.
    pub fn node_signal(&mut self, signal: NodeSignal)
        requires
            old(self).wf(),
        ensures
            final(self).wf(),
            final(self)@ == after_node_signal(old(self)@, signal),
    {
        match signal.drag {
            Some((dx, dy)) => {
                self.drag_node(signal.index, dx, dy);
            },
            None => {},
        }
        if signal.clicked {
            self.click_node(signal.index);
        }
        if signal.label_clicked {
            self.click_node_label(signal.index);
        }
    }

    /// Applies the signals of one frame, in the order that the frame rules
    /// fix.
    pub fn run_frame(&mut self, frame: &Frame)
        requires
            old(self).wf(),
        ensures
            final(self).wf(),
            final(self)@ == after_frame(old(self)@, *frame),
    {
        let mut i: usize = 0;
        while i < frame.edge_label_clicks.len()
            invariant
                self.wf(),
                i <= frame.edge_label_clicks@.len(),
                self@ == after_edge_label_clicks(old(self)@, frame.edge_label_clicks@, i as int),
            decreases frame.edge_label_clicks@.len() - i,
        {
            let click = frame.edge_label_clicks[i];
            self.click_edge_label(click.0, click.1);
            i += 1;
        }
        let ghost clicked = self@;
        let mut j: usize = 0;
        while j < frame.node_signals.len()
            invariant
                self.wf(),
                j <= frame.node_signals@.len(),
                self@ == after_node_signals(clicked, frame.node_signals@, j as int),
            decreases frame.node_signals@.len() - j,
        {
            let signal = frame.node_signals[j];
            self.node_signal(signal);
            j += 1;
        }
        if frame.new_edge_key {
            self.press_new_edge(frame.pointer);
        }
        if frame.new_node_key {
            self.press_new_node(frame.pointer);
        }
    }
}

} // verus!
