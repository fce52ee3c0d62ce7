use graph_editor::geometry::Point;
use graph_editor::graph::{Edge, Graph, UNIT_WEIGHT};

fn at(x: i32, y: i32) -> Point {
    Point { x, y }
}

fn three_nodes() -> Graph {
    let mut g = Graph::new();
    g.add_node(at(0, 0), String::from("a"));
    g.add_node(at(10, 0), String::from("b"));
    g.add_node(at(20, 0), String::from("c"));
    g
}

#[test]
fn new_graph_is_empty() {
    let g = Graph::new();
    assert_eq!(g.node_count(), 0);
    assert!(g.iter_nodes().is_empty());
}

#[test]
fn add_node_returns_previous_count() {
    let mut g = Graph::new();
    assert_eq!(g.add_node(at(1, 2), String::from("x")), 0);
    assert_eq!(g.add_node(at(3, 4), String::new()), 1);
    assert_eq!(g.add_node(at(5, 6), String::from("z")), 2);
    assert_eq!(g.node_count(), 3);
}

#[test]
fn add_node_many_times_keeps_call_order() {
    let mut g = Graph::new();
    for i in 0..50usize {
        let index = g.add_node(at(i as i32, -(i as i32)), format!("n{}", i));
        assert_eq!(index, i);
    }
    assert_eq!(g.node_count(), 50);
    for (i, node) in g.iter_nodes().iter().enumerate() {
        assert_eq!(node.position(), at(i as i32, -(i as i32)));
        assert_eq!(node.label(), &format!("n{}", i));
        assert!(node.edges().is_empty());
    }
}

#[test]
fn add_node_keeps_position_and_label_as_supplied() {
    let mut g = Graph::new();
    g.add_node(at(i32::MIN, i32::MAX), String::from("héllo ✓"));
    assert_eq!(g.node_position(0), at(i32::MIN, i32::MAX));
    assert_eq!(g.iter_nodes()[0].label(), "héllo ✓");
}

#[test]
fn add_edge_appends_to_the_source() {
    let mut g = three_nodes();
    g.add_edge(0, 1, 4000);
    g.add_edge(0, 2, 10000);
    g.add_edge(1, 2, 3000);
    assert_eq!(
        g.iter_edges_of(0),
        &vec![Edge { target: 1, weight: 4000 }, Edge { target: 2, weight: 10000 }]
    );
    assert_eq!(g.iter_edges_of(1), &vec![Edge { target: 2, weight: 3000 }]);
    assert!(g.iter_edges_of(2).is_empty());
}

#[test]
fn add_edge_keeps_duplicates_and_self_loops() {
    let mut g = three_nodes();
    g.add_edge(0, 1, 1);
    g.add_edge(0, 1, 2);
    g.add_edge(2, 2, UNIT_WEIGHT);
    assert_eq!(g.iter_edges_of(0).len(), 2);
    assert_eq!(g.iter_edges_of(2), &vec![Edge { target: 2, weight: 1000 }]);
}

#[test]
fn update_edge_weight_overwrites_the_first_match_only() {
    let mut g = three_nodes();
    g.add_edge(0, 2, 1);
    g.add_edge(0, 1, 2);
    g.add_edge(0, 1, 3);
    g.update_edge_weight(0, 1, 99);
    assert_eq!(
        g.iter_edges_of(0),
        &vec![
            Edge { target: 2, weight: 1 },
            Edge { target: 1, weight: 99 },
            Edge { target: 1, weight: 3 }
        ]
    );
}

#[test]
fn update_edge_weight_without_such_an_edge_changes_nothing() {
    let mut g = three_nodes();
    g.add_edge(0, 1, 4000);
    g.add_edge(1, 2, 3000);
    g.update_edge_weight(1, 0, 5);
    g.update_edge_weight(2, 0, 5);
    g.update_edge_weight(0, 2, 5);
    g.update_edge_weight(7, 1, 5);
    g.update_edge_weight(0, 7, 5);
    assert_eq!(g.node_count(), 3);
    assert_eq!(g.iter_edges_of(0), &vec![Edge { target: 1, weight: 4000 }]);
    assert_eq!(g.iter_edges_of(1), &vec![Edge { target: 2, weight: 3000 }]);
    assert!(g.iter_edges_of(2).is_empty());
    assert_eq!(g.node_position(1), at(10, 0));
    assert_eq!(g.iter_nodes()[1].label(), "b");
}

#[test]
fn has_edge_to_sees_direction() {
    let mut g = three_nodes();
    g.add_edge(0, 1, 1);
    assert!(g.has_edge_to(0, 1));
    assert!(!g.has_edge_to(1, 0));
    assert!(!g.has_edge_to(0, 2));
    assert!(!g.has_edge_to(3, 0));
}

#[test]
fn set_node_position_moves_one_node() {
    let mut g = three_nodes();
    g.set_node_position(1, at(-5, 7));
    assert_eq!(g.node_position(0), at(0, 0));
    assert_eq!(g.node_position(1), at(-5, 7));
    assert_eq!(g.node_position(2), at(20, 0));
}

#[test]
fn set_node_label_relabels_one_node() {
    let mut g = three_nodes();
    g.set_node_label(2, String::from("goal"));
    assert_eq!(g.iter_nodes()[0].label(), "a");
    assert_eq!(g.iter_nodes()[2].label(), "goal");
}

#[test]
fn node_at_finds_the_first_node_under_the_point() {
    let mut g = Graph::new();
    g.add_node(at(0, 0), String::new());
    g.add_node(at(10, 0), String::new());
    g.add_node(at(100, 100), String::new());
    assert_eq!(g.node_at(at(5, 0), None), Some(0));
    assert_eq!(g.node_at(at(5, 0), Some(0)), Some(1));
    assert_eq!(g.node_at(at(5, 0), Some(1)), Some(0));
    assert_eq!(g.node_at(at(100, 90), None), Some(2));
    assert_eq!(g.node_at(at(100, 90), Some(2)), None);
    assert_eq!(g.node_at(at(50, 50), None), None);
}

#[test]
fn hit_region_is_an_open_disc_of_radius_fifteen() {
    let c = at(100, 200);
    assert!(c.hit_by(at(100, 200)));
    assert!(c.hit_by(at(114, 200)));
    assert!(!c.hit_by(at(115, 200)));
    assert!(!c.hit_by(at(100, 185)));
    assert!(c.hit_by(at(108, 212)));
    assert!(!c.hit_by(at(109, 212)));
    assert!(c.hit_by(at(110, 210)));
    assert!(!c.hit_by(at(111, 211)));
    assert!(!at(i32::MIN, i32::MIN).hit_by(at(i32::MAX, i32::MAX)));
}

#[test]
fn shift_stops_at_the_edge_of_the_range() {
    assert_eq!(at(1, 2).shift(3, -5), at(4, -3));
    assert_eq!(at(i32::MAX - 1, 0).shift(5, 0), at(i32::MAX, 0));
    assert_eq!(at(0, i32::MIN + 2).shift(0, -7), at(0, i32::MIN));
    assert_eq!(at(i32::MIN, i32::MAX).shift(i32::MIN, i32::MAX), at(i32::MIN, i32::MAX));
}
