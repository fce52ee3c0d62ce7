use graph_editor::editor::Editor;
use graph_editor::frame::{Frame, NodeSignal};
use graph_editor::geometry::Point;
use graph_editor::graph::Edge;

fn at(x: i32, y: i32) -> Point {
    Point { x, y }
}

/// Nodes 0, 1, 2 at x = 0, 100, 200, with labels "0", "1", "2".
fn three_nodes() -> Editor {
    let mut e = Editor::new();
    e.press_new_node(Some(at(0, 0)));
    e.press_new_node(Some(at(100, 0)));
    e.press_new_node(Some(at(200, 0)));
    e
}

/// The graph 0→1 (4.0), 1→2 (3.0), 0→2 (10.0).
fn triangle() -> Editor {
    let mut e = three_nodes();
    for (from, to, weight) in [(0, 1, "4"), (1, 2, "3"), (0, 2, "10")] {
        e.click_node(from);
        e.set_edge_weight_input(String::from(weight));
        e.press_new_edge(Some(at(to as i32 * 100, 0)));
    }
    e
}

fn label_of(e: &Editor, index: usize) -> String {
    e.graph().iter_nodes()[index].label().clone()
}

fn quiet_frame() -> Frame {
    Frame {
        pointer: None,
        edge_label_clicks: Vec::new(),
        node_signals: Vec::new(),
        new_edge_key: false,
        new_node_key: false,
    }
}

#[test]
fn editor_starts_empty_with_default_buffers() {
    let e = Editor::new();
    assert_eq!(e.graph().node_count(), 0);
    assert_eq!(e.selected(), None);
    assert_eq!(e.solution(), &None);
    assert_eq!(e.node_label_input(), "0");
    assert_eq!(e.edge_weight_input(), "1");
    assert_eq!(e.start_node_input(), "");
    assert_eq!(e.end_node_input(), "");
    assert!(!e.solve_enabled());
}

#[test]
fn typed_weight_goes_to_the_clicked_edge_and_buffer_resets() {
    let mut e = triangle();
    e.set_edge_weight_input(String::from("5"));
    e.click_edge_label(0, 1);
    assert_eq!(
        e.graph().iter_edges_of(0),
        &vec![Edge { target: 1, weight: 5000 }, Edge { target: 2, weight: 10000 }]
    );
    assert_eq!(e.edge_weight_input(), "1");
}

#[test]
fn edge_label_click_with_unreadable_weight_does_nothing() {
    let mut e = triangle();
    e.set_edge_weight_input(String::from("heavy"));
    e.click_edge_label(0, 1);
    assert_eq!(e.graph().iter_edges_of(0)[0], Edge { target: 1, weight: 4000 });
    assert_eq!(e.edge_weight_input(), "heavy");
}

#[test]
fn edge_label_click_on_a_missing_edge_does_nothing() {
    let mut e = triangle();
    e.set_edge_weight_input(String::from("5"));
    e.click_edge_label(2, 0);
    e.click_edge_label(9, 0);
    assert_eq!(e.edge_weight_input(), "5");
    assert_eq!(e.graph().iter_edges_of(0)[0], Edge { target: 1, weight: 4000 });
    assert!(e.graph().iter_edges_of(2).is_empty());
}

#[test]
fn new_node_with_empty_label_buffer_is_labelled_with_its_index() {
    let mut e = Editor::new();
    e.set_node_label_input(String::new());
    e.press_new_node(Some(at(100, 200)));
    assert_eq!(e.graph().node_count(), 1);
    assert_eq!(e.graph().node_position(0), at(100, 200));
    assert_eq!(label_of(&e, 0), "0");
    assert_eq!(e.node_label_input(), "1");
    e.set_node_label_input(String::new());
    e.press_new_node(Some(at(5, 5)));
    assert_eq!(label_of(&e, 1), "1");
    assert_eq!(e.node_label_input(), "2");
}

#[test]
fn new_node_takes_the_label_in_the_buffer() {
    let mut e = Editor::new();
    e.set_node_label_input(String::from("depot"));
    e.press_new_node(Some(at(1, 2)));
    assert_eq!(label_of(&e, 0), "depot");
    assert_eq!(e.node_label_input(), "1");
    assert!(e.graph().iter_edges_of(0).is_empty());
}

#[test]
fn new_node_needs_the_pointer_over_the_canvas() {
    let mut e = Editor::new();
    e.press_new_node(None);
    assert_eq!(e.graph().node_count(), 0);
    assert_eq!(e.node_label_input(), "0");
}

#[test]
fn click_selects_and_replaces_the_selection() {
    let mut e = three_nodes();
    assert_eq!(e.selected(), None);
    e.click_node(1);
    assert_eq!(e.selected(), Some(1));
    e.click_node(2);
    assert_eq!(e.selected(), Some(2));
    e.click_node(3);
    assert_eq!(e.selected(), Some(2));
}

#[test]
fn drag_moves_the_node_by_the_delta() {
    let mut e = three_nodes();
    e.drag_node(1, 7, -3);
    e.drag_node(1, 1, 1);
    assert_eq!(e.graph().node_position(1), at(108, -2));
    assert_eq!(e.graph().node_position(0), at(0, 0));
    e.drag_node(5, 1, 1);
    assert_eq!(e.graph().node_count(), 3);
    e.drag_node(2, i32::MAX, i32::MIN);
    assert_eq!(e.graph().node_position(2), at(i32::MAX, i32::MIN));
}

#[test]
fn label_click_relabels_and_resets_buffer_to_next_free_index() {
    let mut e = three_nodes();
    e.set_node_label_input(String::from("hub"));
    e.click_node_label(1);
    assert_eq!(label_of(&e, 1), "hub");
    assert_eq!(e.node_label_input(), "3");
    e.click_node_label(7);
    assert_eq!(e.node_label_input(), "3");
    e.click_node_label(0);
    assert_eq!(label_of(&e, 0), "3");
}

#[test]
fn new_edge_needs_selection_and_hovered_node() {
    let mut e = three_nodes();
    e.press_new_edge(Some(at(100, 0)));
    assert!(e.graph().iter_edges_of(0).is_empty());
    e.click_node(0);
    e.press_new_edge(None);
    e.press_new_edge(Some(at(50, 50)));
    assert!(e.graph().iter_edges_of(0).is_empty());
    assert_eq!(e.edge_weight_input(), "1");
    e.press_new_edge(Some(at(104, 3)));
    assert_eq!(e.graph().iter_edges_of(0), &vec![Edge { target: 1, weight: 1000 }]);
}

#[test]
fn new_edge_takes_the_typed_weight_or_the_unit_weight() {
    let mut e = three_nodes();
    e.click_node(0);
    e.set_edge_weight_input(String::from("2.5"));
    e.press_new_edge(Some(at(100, 0)));
    assert_eq!(e.edge_weight_input(), "1");
    e.set_edge_weight_input(String::from("many"));
    e.press_new_edge(Some(at(200, 0)));
    assert_eq!(e.edge_weight_input(), "1");
    e.set_edge_weight_input(String::from("-3"));
    e.press_new_edge(Some(at(200, 0)));
    assert_eq!(
        e.graph().iter_edges_of(0),
        &vec![
            Edge { target: 1, weight: 2500 },
            Edge { target: 2, weight: 1000 },
            Edge { target: 2, weight: 1000 }
        ]
    );
}

#[test]
fn new_edge_leads_to_another_node_than_the_selected_one() {
    let mut e = Editor::new();
    e.press_new_node(Some(at(0, 0)));
    e.press_new_node(Some(at(10, 0)));
    e.click_node(0);
    assert_eq!(e.hovered_target(Some(at(0, 0))), Some(1));
    e.press_new_edge(Some(at(0, 0)));
    assert_eq!(e.graph().iter_edges_of(0), &vec![Edge { target: 1, weight: 1000 }]);
    e.click_node(1);
    assert_eq!(e.hovered_target(Some(at(-10, 0))), Some(0));
    assert_eq!(e.hovered_target(Some(at(24, 0))), None);
    e.press_new_edge(Some(at(24, 0)));
    assert!(e.graph().iter_edges_of(1).is_empty());
}

#[test]
fn solve_is_enabled_when_both_buffers_read_as_indices() {
    let mut e = three_nodes();
    e.set_start_node_input(String::from("0"));
    assert!(!e.solve_enabled());
    e.set_end_node_input(String::from("two"));
    assert!(!e.solve_enabled());
    e.set_end_node_input(String::from("2"));
    assert!(e.solve_enabled());
    assert_eq!(e.pending_query(), Some((0, 2)));
    e.set_end_node_input(String::from("3"));
    assert!(e.solve_enabled());
    assert_eq!(e.pending_query(), None);
}

#[test]
fn solve_stores_cost_and_path() {
    let mut e = triangle();
    e.set_start_node_input(String::from("0"));
    e.set_end_node_input(String::from("2"));
    e.solve();
    assert_eq!(e.solution(), &Some((7000, vec![0, 1, 2])));
}

#[test]
fn solve_without_a_path_clears_the_solution() {
    let mut e = triangle();
    e.set_start_node_input(String::from("0"));
    e.set_end_node_input(String::from("2"));
    e.solve();
    e.set_start_node_input(String::from("2"));
    e.set_end_node_input(String::from("0"));
    e.solve();
    assert_eq!(e.solution(), &None);
}

#[test]
fn solve_with_unusable_buffers_keeps_the_solution() {
    let mut e = triangle();
    e.set_start_node_input(String::from("0"));
    e.set_end_node_input(String::from("1"));
    e.solve();
    assert_eq!(e.solution(), &Some((4000, vec![0, 1])));
    e.set_end_node_input(String::from(""));
    e.solve();
    assert_eq!(e.solution(), &Some((4000, vec![0, 1])));
    e.set_end_node_input(String::from("17"));
    e.solve();
    assert_eq!(e.solution(), &Some((4000, vec![0, 1])));
}

#[test]
fn solution_stays_when_the_graph_changes_under_it() {
    let mut e = triangle();
    e.set_start_node_input(String::from("0"));
    e.set_end_node_input(String::from("2"));
    e.solve();
    e.set_edge_weight_input(String::from("100"));
    e.click_edge_label(0, 1);
    e.press_new_node(Some(at(300, 0)));
    assert_eq!(e.solution(), &Some((7000, vec![0, 1, 2])));
    e.solve();
    assert_eq!(e.solution(), &Some((10000, vec![0, 2])));
}

#[test]
fn quiet_frame_changes_nothing() {
    let mut e = triangle();
    e.click_node(2);
    e.run_frame(&quiet_frame());
    assert_eq!(e.graph().node_count(), 3);
    assert_eq!(e.selected(), Some(2));
    assert_eq!(e.edge_weight_input(), "1");
    assert_eq!(e.node_label_input(), "3");
}

#[test]
fn second_label_click_in_a_frame_sees_the_reset_buffer() {
    let mut e = triangle();
    e.set_edge_weight_input(String::from("5"));
    let mut frame = quiet_frame();
    frame.edge_label_clicks = vec![(0, 1), (1, 2)];
    e.run_frame(&frame);
    assert_eq!(e.graph().iter_edges_of(0)[0], Edge { target: 1, weight: 5000 });
    assert_eq!(e.graph().iter_edges_of(1)[0], Edge { target: 2, weight: 1000 });
    assert_eq!(e.edge_weight_input(), "1");
}

#[test]
fn frame_applies_label_clicks_then_nodes_then_edge_key_then_node_key() {
    let mut e = three_nodes();
    e.click_node(0);
    e.press_new_edge(Some(at(100, 0)));
    e.set_edge_weight_input(String::from("5"));
    e.set_node_label_input(String::from("hub"));
    let frame = Frame {
        pointer: Some(at(200, 0)),
        edge_label_clicks: vec![(0, 1)],
        node_signals: vec![
            NodeSignal { index: 0, drag: Some((3, 4)), clicked: false, label_clicked: false },
            NodeSignal { index: 1, drag: None, clicked: true, label_clicked: true },
        ],
        new_edge_key: true,
        new_node_key: true,
    };
    e.run_frame(&frame);
    // The label click used the typed weight and reset the buffer, ...
    assert_eq!(e.graph().iter_edges_of(0), &vec![Edge { target: 1, weight: 5000 }]);
    // ... node 0 moved, node 1 was selected and relabelled, ...
    assert_eq!(e.graph().node_position(0), at(3, 4));
    assert_eq!(e.selected(), Some(1));
    assert_eq!(label_of(&e, 1), "hub");
    // ... the new edge starts at the node selected in this frame, with the
    // reset weight, ...
    assert_eq!(e.graph().iter_edges_of(1), &vec![Edge { target: 2, weight: 1000 }]);
    // ... and the new node got the label that the label click left behind.
    assert_eq!(e.graph().node_count(), 4);
    assert_eq!(e.graph().node_position(3), at(200, 0));
    assert_eq!(label_of(&e, 3), "3");
    assert_eq!(e.node_label_input(), "4");
    assert_eq!(e.edge_weight_input(), "1");
}

#[test]
fn node_signal_drags_before_it_clicks() {
    let mut e = three_nodes();
    e.node_signal(NodeSignal { index: 2, drag: Some((-1, -1)), clicked: true, label_clicked: false });
    assert_eq!(e.graph().node_position(2), at(199, -1));
    assert_eq!(e.selected(), Some(2));
    assert_eq!(label_of(&e, 2), "2");
}
