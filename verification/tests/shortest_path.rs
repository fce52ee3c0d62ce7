use graph_editor::frontier::Frontier;
use graph_editor::geometry::Point;
use graph_editor::graph::Graph;
use graph_editor::search::shortest_path;

fn graph_with(nodes: usize, edges: &[(usize, usize, u64)]) -> Graph {
    let mut g = Graph::new();
    for i in 0..nodes {
        g.add_node(Point { x: i as i32 * 40, y: 0 }, String::new());
    }
    for &(from, to, weight) in edges {
        g.add_edge(from, to, weight);
    }
    g
}

fn triangle() -> Graph {
    graph_with(3, &[(0, 1, 4000), (1, 2, 3000), (0, 2, 10000)])
}

/// Cheapest cost from `from` to `to` by trying every walk of at most `hops`
/// steps.
fn brute_force(edges: &[(usize, usize, u64)], from: usize, to: usize, hops: usize) -> Option<u128> {
    let mut best = if from == to { Some(0) } else { None };
    if hops == 0 {
        return best;
    }
    for &(a, b, w) in edges {
        if a == from {
            if let Some(rest) = brute_force(edges, b, to, hops - 1) {
                let total = w as u128 + rest;
                if best.map_or(true, |c| total < c) {
                    best = Some(total);
                }
            }
        }
    }
    best
}

fn cost_along(edges: &[(usize, usize, u64)], path: &[usize]) -> u128 {
    let mut total = 0;
    for step in path.windows(2) {
        total += edges
            .iter()
            .filter(|e| e.0 == step[0] && e.1 == step[1])
            .map(|e| e.2 as u128)
            .min()
            .unwrap();
    }
    total
}

#[test]
fn cheaper_detour_beats_direct_edge() {
    assert_eq!(shortest_path(&triangle(), 0, 2), Some((7000, vec![0, 1, 2])));
}

#[test]
fn edges_are_directed() {
    assert_eq!(shortest_path(&triangle(), 2, 0), None);
}

#[test]
fn start_equal_to_end_is_a_single_node_of_cost_zero() {
    let g = triangle();
    assert_eq!(shortest_path(&g, 0, 0), Some((0, vec![0])));
    assert_eq!(shortest_path(&g, 2, 2), Some((0, vec![2])));
}

#[test]
fn start_equal_to_end_ignores_cycles_through_it() {
    let g = graph_with(2, &[(0, 1, 0), (1, 0, 0), (0, 0, 0)]);
    assert_eq!(shortest_path(&g, 0, 0), Some((0, vec![0])));
}

#[test]
fn unreachable_end_is_absent() {
    let g = graph_with(4, &[(0, 1, 1), (2, 3, 1)]);
    assert_eq!(shortest_path(&g, 0, 3), None);
    assert_eq!(shortest_path(&g, 1, 0), None);
}

#[test]
fn indices_outside_the_graph_are_absent() {
    let g = triangle();
    assert_eq!(shortest_path(&g, 3, 0), None);
    assert_eq!(shortest_path(&g, 0, 3), None);
    assert_eq!(shortest_path(&g, usize::MAX, usize::MAX), None);
    assert_eq!(shortest_path(&Graph::new(), 0, 0), None);
}

#[test]
fn direct_edge_wins_when_it_is_cheaper() {
    let g = graph_with(3, &[(0, 1, 4000), (1, 2, 3000), (0, 2, 6999)]);
    assert_eq!(shortest_path(&g, 0, 2), Some((6999, vec![0, 2])));
}

#[test]
fn lightest_of_duplicate_edges_counts() {
    let g = graph_with(2, &[(0, 1, 9), (0, 1, 2), (0, 1, 5)]);
    assert_eq!(shortest_path(&g, 0, 1), Some((2, vec![0, 1])));
}

#[test]
fn zero_weight_edges_are_free() {
    let g = graph_with(4, &[(0, 1, 0), (1, 2, 0), (2, 3, 0), (0, 3, 1)]);
    assert_eq!(shortest_path(&g, 0, 3), Some((0, vec![0, 1, 2, 3])));
}

#[test]
fn an_improved_distance_leaves_a_stale_entry_behind() {
    // Node 2 is first reached at cost 10 and then at cost 3 by way of node 1.
    let g = graph_with(4, &[(0, 2, 10), (0, 1, 1), (1, 2, 2), (2, 3, 1)]);
    assert_eq!(shortest_path(&g, 0, 3), Some((4, vec![0, 1, 2, 3])));
    assert_eq!(shortest_path(&g, 0, 2), Some((3, vec![0, 1, 2])));
}

#[test]
fn costs_grow_beyond_the_range_of_a_weight() {
    let heavy = u64::MAX;
    let g = graph_with(4, &[(0, 1, heavy), (1, 2, heavy), (2, 3, heavy), (0, 3, heavy)]);
    assert_eq!(shortest_path(&g, 0, 1), Some((heavy as u128, vec![0, 1])));
    assert_eq!(shortest_path(&g, 0, 2), Some((2 * heavy as u128, vec![0, 1, 2])));
    assert_eq!(shortest_path(&g, 1, 3), Some((2 * heavy as u128, vec![1, 2, 3])));
    assert_eq!(shortest_path(&g, 0, 3), Some((heavy as u128, vec![0, 3])));
    let h = graph_with(3, &[(0, 1, heavy), (1, 2, 1), (0, 2, heavy)]);
    assert_eq!(shortest_path(&h, 0, 2), Some((heavy as u128, vec![0, 2])));
}

#[test]
fn returned_cost_is_the_sum_along_the_returned_path() {
    let edges = [
        (0, 1, 7),
        (0, 2, 9),
        (0, 5, 14),
        (1, 2, 10),
        (1, 3, 15),
        (2, 3, 11),
        (2, 5, 2),
        (3, 4, 6),
        (5, 4, 9),
    ];
    let g = graph_with(6, &edges);
    let (cost, path) = shortest_path(&g, 0, 4).unwrap();
    assert_eq!(cost, 20);
    assert_eq!(path, vec![0, 2, 5, 4]);
    assert_eq!(cost_along(&edges, &path), cost);
}

#[test]
fn returned_cost_is_minimal_among_all_walks() {
    let edges = [
        (0, 1, 3),
        (0, 2, 1),
        (1, 3, 1),
        (2, 1, 1),
        (2, 3, 5),
        (3, 4, 2),
        (4, 0, 1),
        (1, 4, 6),
        (3, 3, 0),
    ];
    let g = graph_with(6, &edges);
    for start in 0..6 {
        for end in 0..6 {
            let expected = brute_force(&edges, start, end, 6);
            let found = shortest_path(&g, start, end);
            assert_eq!(found.as_ref().map(|f| f.0), expected);
            if let Some((cost, path)) = found {
                assert_eq!(path.first(), Some(&start));
                assert_eq!(path.last(), Some(&end));
                assert_eq!(cost_along(&edges, &path), cost);
            }
        }
    }
}

#[test]
fn long_chain_is_followed_to_its_end() {
    let n = 2000;
    let edges: Vec<(usize, usize, u64)> = (0..n - 1).map(|i| (i, i + 1, 2)).collect();
    let g = graph_with(n, &edges);
    let (cost, path) = shortest_path(&g, 0, n - 1).unwrap();
    assert_eq!(cost, 2 * (n as u128 - 1));
    assert_eq!(path, (0..n).collect::<Vec<usize>>());
}

#[test]
fn frontier_hands_out_least_cost_first() {
    let mut f = Frontier::new();
    assert!(f.is_empty());
    assert_eq!(f.pop(), None);
    for (cost, node) in [(5, 0), (1, 1), (9, 2), (3, 3), (7, 4), (0, 5), (8, 6)] {
        f.push(cost, node);
    }
    assert_eq!(f.len(), 7);
    let mut out = Vec::new();
    while let Some(entry) = f.pop() {
        out.push(entry);
    }
    assert_eq!(out, vec![(0, 5), (1, 1), (3, 3), (5, 0), (7, 4), (8, 6), (9, 2)]);
    assert!(f.is_empty());
}

#[test]
fn frontier_keeps_entries_of_equal_cost() {
    let mut f = Frontier::new();
    f.push(2, 10);
    f.push(2, 11);
    f.push(1, 12);
    f.push(2, 10);
    assert_eq!(f.pop(), Some((1, 12)));
    let mut rest = vec![f.pop().unwrap(), f.pop().unwrap(), f.pop().unwrap()];
    rest.sort();
    assert_eq!(rest, vec![(2, 10), (2, 10), (2, 11)]);
    assert_eq!(f.pop(), None);
}
