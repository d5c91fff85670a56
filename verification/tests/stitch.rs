use ch_router::{ContractionHierarchy, Edge, Node};
use truck_router::route::{Coordinate, RouteError, Router};

// A line graph 0 - 1 - 2 - 3 plus a disconnected pair 4 - 5, all edges of
// weight 1 in both directions.
fn graph_nodes() -> Vec<Node> {
    vec![
        Node { x: 0.0, y: 0.0 },
        Node { x: 1.0, y: 0.0 },
        Node { x: 2.0, y: 0.0 },
        Node { x: 3.0, y: 0.0 },
        Node { x: 10.0, y: 0.0 },
        Node { x: 11.0, y: 0.0 },
    ]
}

fn graph_edges() -> Vec<Edge> {
    let pairs = [(0u32, 1u32), (1, 2), (2, 3), (4, 5)];
    let mut edges = Vec::new();
    for (a, b) in pairs {
        edges.push(Edge { from: a, to: b, weight: 1.0 });
        edges.push(Edge { from: b, to: a, weight: 1.0 });
    }
    edges
}

fn coordinate_of(node: &Node) -> Coordinate {
    Coordinate { longitude: node.x.to_bits(), latitude: node.y.to_bits() }
}

fn build_router() -> Router {
    let nodes = graph_nodes();
    let ch = ContractionHierarchy::new(&nodes, &graph_edges(), 1.0);
    let points: Vec<Coordinate> = nodes.iter().map(coordinate_of).collect();
    Router::new(ch, points)
}

#[test]
fn empty_waypoint_list_yields_empty_route() {
    let router = build_router();
    let route = router.get_route(&[]).unwrap();
    assert!(route.is_empty());
}

#[test]
fn single_waypoint_yields_empty_route() {
    let router = build_router();
    let route = router.get_route(&[2]).unwrap();
    assert!(route.is_empty());
}

#[test]
fn identical_pair_yields_one_node_with_stop_zero() {
    let router = build_router();
    let route = router.get_route(&[1, 1]).unwrap();
    assert_eq!(route.len(), 1);
    assert_eq!(route[0].stop_index, Some(0));
    assert_eq!(route[0].coordinate, coordinate_of(&graph_nodes()[1]));
}

#[test]
fn adjacent_pair_route() {
    let router = build_router();
    let route = router.get_route(&[2, 3]).unwrap();
    assert_eq!(route.len(), 2);
    assert_eq!(route[0].coordinate, coordinate_of(&graph_nodes()[2]));
    assert_eq!(route[0].stop_index, Some(0));
    assert_eq!(route[1].coordinate, coordinate_of(&graph_nodes()[3]));
    assert_eq!(route[1].stop_index, Some(1));
}

#[test]
fn three_waypoints_concatenate_with_duplicated_boundary() {
    let router = build_router();
    let nodes = graph_nodes();
    // Segment 1: 0 -> 2 has 3 nodes; segment 2: 2 -> 3 has 2 nodes.
    let route = router.get_route(&[0, 2, 3]).unwrap();
    assert_eq!(route.len(), 5);

    let expect = [
        (0usize, Some(0u32)),
        (1, None),
        (2, Some(1)),
        (2, Some(1)),
        (3, Some(2)),
    ];
    for (i, (node_id, stop)) in expect.iter().enumerate() {
        assert_eq!(route[i].coordinate, coordinate_of(&nodes[*node_id]));
        assert_eq!(route[i].stop_index, *stop);
    }
}

#[test]
fn disconnected_pair_is_unreachable_and_later_requests_succeed() {
    let router = build_router();
    let result = router.get_route(&[0, 4]);
    assert_eq!(result, Err(RouteError::Unreachable { from: 0, to: 4 }));

    // The shared state is untouched: an unrelated connected request works.
    let route = router.get_route(&[0, 3]).unwrap();
    assert_eq!(route.len(), 4);
    assert_eq!(route[0].stop_index, Some(0));
    assert_eq!(route[3].stop_index, Some(1));
}

#[test]
fn waypoint_outside_engine_is_unknown() {
    let router = build_router();
    let result = router.get_route(&[0, 9]);
    assert_eq!(result, Err(RouteError::UnknownNode { from: 0, to: 9 }));
}

#[test]
fn path_node_without_coordinate_is_unknown() {
    // The engine knows nodes 0..=5, but only two coordinates were loaded:
    // a path through node 2 names a node with no stored coordinate.
    let nodes = graph_nodes();
    let ch = ContractionHierarchy::new(&nodes, &graph_edges(), 1.0);
    let points: Vec<Coordinate> = nodes.iter().take(2).map(coordinate_of).collect();
    let router = Router::new(ch, points);
    let result = router.get_route(&[0, 3]);
    assert_eq!(result, Err(RouteError::UnknownNode { from: 0, to: 3 }));
}

#[test]
fn router_exposes_loaded_points() {
    let router = build_router();
    let nodes = graph_nodes();
    assert_eq!(router.node_count(), nodes.len());
    assert_eq!(router.point(2), Some(coordinate_of(&nodes[2])));
    assert_eq!(router.point(6), None);
}

#[test]
fn results_are_repeatable_across_requests() {
    let router = build_router();
    let first = router.get_route(&[0, 2, 3]).unwrap();
    let other = router.get_route(&[4, 5]).unwrap();
    let second = router.get_route(&[0, 2, 3]).unwrap();
    assert_eq!(first, second);
    assert_eq!(other.len(), 2);
}

#[test]
fn engine_round_trip_through_bytes() {
    let nodes = graph_nodes();
    let ch = ContractionHierarchy::new(&nodes, &graph_edges(), 1.0);
    let mut engine_bytes = Vec::new();
    ch.write(&mut engine_bytes).unwrap();

    let engine = ContractionHierarchy::read(&mut engine_bytes.as_slice()).unwrap();
    let points: Vec<Coordinate> = nodes.iter().map(coordinate_of).collect();
    let router = Router::new(engine, points);

    let route = router.get_route(&[0, 3]).unwrap();
    assert_eq!(route.len(), 4);
    assert_eq!(route[0].coordinate, coordinate_of(&nodes[0]));
    assert_eq!(route[0].stop_index, Some(0));
    assert_eq!(route[3].coordinate, coordinate_of(&nodes[3]));
    assert_eq!(route[3].stop_index, Some(1));
}

#[test]
fn truncated_engine_bytes_are_rejected() {
    let nodes = graph_nodes();
    let ch = ContractionHierarchy::new(&nodes, &graph_edges(), 1.0);
    let mut engine_bytes = Vec::new();
    ch.write(&mut engine_bytes).unwrap();
    engine_bytes.truncate(engine_bytes.len() / 2);
    assert!(ContractionHierarchy::read(&mut engine_bytes.as_slice()).is_err());
}

#[test]
fn later_disconnected_pair_fails_with_that_pair() {
    let router = build_router();
    // Pair (0, 3) is connected; pair (3, 4) crosses into the other component.
    let result = router.get_route(&[0, 3, 4]);
    assert_eq!(result, Err(RouteError::Unreachable { from: 3, to: 4 }));
}
