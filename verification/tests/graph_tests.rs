use geo::{HaversineDistance, Point};
use geoutils::Location;
use openrailwaymap_exporter::coordinate::Coordinate;
use openrailwaymap_exporter::importer::from_railway_elements;
use openrailwaymap_exporter::railway_element::{ElementType, RailwayElement};
use openrailwaymap_exporter::railway_model::{RailwayEdge, RailwayGraph, RailwayNode};
use std::collections::HashMap;

fn deg(x: f64) -> i64 {
    (x * 1e7).round() as i64
}

fn vincenty_mm(a: Coordinate, b: Coordinate) -> u64 {
    let la = Location::new(a.lat as f64 / 1e7, a.lon as f64 / 1e7);
    let lb = Location::new(b.lat as f64 / 1e7, b.lon as f64 / 1e7);
    (la.distance_to(&lb).unwrap().meters() * 1000.0).round() as u64
}

fn haversine_mm(a: Coordinate, b: Coordinate) -> u64 {
    let pa = Point::new(a.lon as f64 / 1e7, a.lat as f64 / 1e7);
    let pb = Point::new(b.lon as f64 / 1e7, b.lat as f64 / 1e7);
    (pa.haversine_distance(&pb) * 1000.0).round() as u64
}

fn build(elements: &[RailwayElement]) -> RailwayGraph {
    from_railway_elements(elements, &vincenty_mm, &haversine_mm)
}

fn node(id: i64, lat: f64, lon: f64, tags: Option<HashMap<String, String>>) -> RailwayElement {
    RailwayElement {
        id,
        element_type: ElementType::Node,
        lat: Some(deg(lat)),
        lon: Some(deg(lon)),
        tags,
        nodes: None,
        geometry: None,
    }
}

fn way(id: i64, nodes: Vec<i64>, geometry: Vec<(f64, f64)>) -> RailwayElement {
    RailwayElement {
        id,
        element_type: ElementType::Way,
        lat: None,
        lon: None,
        tags: Some(HashMap::new()),
        nodes: Some(nodes),
        geometry: Some(geometry.into_iter().map(|(lat, lon)| Coordinate { lat: deg(lat), lon: deg(lon) }).collect()),
    }
}

fn station_tags() -> HashMap<String, String> {
    let mut tags = HashMap::new();
    tags.insert("railway".to_string(), "station".to_string());
    tags
}

fn three_stations_and_a_way() -> Vec<RailwayElement> {
    let tags = station_tags();
    vec![
        node(1, 50.1109, 8.6821, Some(tags.clone())),
        node(2, 51.1109, 9.6821, Some(tags.clone())),
        node(3, 49.1109, 7.6821, Some(tags.clone())),
        way(4, vec![1, 2], vec![(50.1109, 8.6821), (51.1109, 9.6821)]),
    ]
}

#[test]
fn test_bounding_box() {
    let tags = station_tags();
    let elements = vec![
        node(1, 50.1109, 8.6821, Some(tags.clone())),
        node(2, 51.1109, 9.6821, Some(tags.clone())),
        node(3, 49.1109, 7.6821, Some(tags)),
    ];

    let railway_graph = build(&elements);
    let (min_coord, max_coord) = railway_graph.bounding_box();

    assert_eq!(min_coord, Coordinate { lon: deg(7.6821), lat: deg(49.1109) });
    assert_eq!(max_coord, Coordinate { lon: deg(9.6821), lat: deg(51.1109) });
}

#[test]
fn bounding_box_of_an_empty_graph() {
    let railway_graph = build(&[]);
    let (min_coord, max_coord) = railway_graph.bounding_box();
    assert_eq!(min_coord, Coordinate { lat: i64::MAX, lon: i64::MAX });
    assert_eq!(max_coord, Coordinate { lat: i64::MIN, lon: i64::MIN });
}

#[test]
fn test_total_length() {
    let elements = vec![
        node(1, 50.1109, 8.6821, Some(HashMap::new())),
        node(2, 50.1119, 8.6831, Some(HashMap::new())),
        way(3, vec![1, 2], vec![(50.1109, 8.6821), (50.1119, 8.6831)]),
    ];

    let railway_graph = build(&elements);
    let total_length = railway_graph.total_length();
    assert_eq!(total_length as f64 / 1000.0, 132.246);
}

#[test]
fn test_railway_edge() {
    let railway_graph = build(&three_stations_and_a_way());

    println!("{:?}", railway_graph.graph);

    let edge = railway_graph.railway_edge(1, 2);
    assert!(edge.is_some());
    assert_eq!(edge.unwrap().id, 4);

    let edge = railway_graph.railway_edge(2, 1);
    assert_eq!(edge.unwrap().id, 4);

    let edge = railway_graph.railway_edge(1, 3);
    assert!(edge.is_none());

    let edge = railway_graph.railway_edge(1, 99);
    assert!(edge.is_none());
}

#[test]
fn test_get_edges_of_node() {
    let railway_graph = build(&three_stations_and_a_way());

    let edges = railway_graph.get_edges_of_node(1);
    assert_eq!(edges.len(), 1);
    assert_eq!(edges[0].id, 4);

    let edges = railway_graph.get_edges_of_node(3);
    assert_eq!(edges.len(), 0);

    let edges = railway_graph.get_edges_of_node(999);
    assert_eq!(edges.len(), 0);
}

#[test]
fn get_node_and_edge_by_id() {
    let railway_graph = build(&three_stations_and_a_way());
    assert_eq!(
        railway_graph.get_node_by_id(2),
        Some(&RailwayNode { id: 2, lat: deg(51.1109), lon: deg(9.6821) })
    );
    assert_eq!(railway_graph.get_node_by_id(4), None);
    let edge = railway_graph.get_edge_by_id(4).unwrap();
    assert_eq!(edge.id, 4);
    assert_eq!(edge.source, 1);
    assert_eq!(edge.target, 2);
    assert!(railway_graph.get_edge_by_id(1).is_none());
}

#[test]
fn test_nearest_node() {
    let elements = vec![
        node(1, 50.1109, 8.6821, Some(HashMap::new())),
        node(2, 50.1119, 8.6831, Some(HashMap::new())),
        way(3, vec![1, 2], vec![(50.1109, 8.6821), (50.1119, 8.6831)]),
    ];

    let railway_graph = build(&elements);

    let edge_id = 3;
    let position_on_edge = 520_000;
    let nearest_node_id = railway_graph.nearest_node(edge_id, position_on_edge, Some(1));

    assert_eq!(nearest_node_id, Some(2));

    let nearest_node_id = railway_graph.nearest_node(edge_id, position_on_edge, Some(2));
    assert_eq!(nearest_node_id, Some(1));

    let nearest_node_id = railway_graph.nearest_node(5, position_on_edge, Some(2));
    assert_eq!(nearest_node_id, None);
}

#[test]
fn nearest_node_clamps_the_position() {
    let elements = vec![
        node(1, 50.1109, 8.6821, None),
        node(2, 50.1119, 8.6831, None),
        way(3, vec![1, 2], vec![(50.1109, 8.6821), (50.1119, 8.6831)]),
    ];
    let railway_graph = build(&elements);
    assert_eq!(railway_graph.nearest_node(3, -5, None), Some(1));
    assert_eq!(railway_graph.nearest_node(3, 7_000_000, None), Some(2));
    assert_eq!(railway_graph.nearest_node(3, 400_000, None), Some(1));
}

fn test_elements() -> Vec<RailwayElement> {
    vec![
        node(1, 50.1109, 8.6821, Some(HashMap::new())),
        node(2, 50.1209, 8.6921, Some(HashMap::new())),
        node(3, 50.1309, 8.6721, Some(HashMap::new())),
        way(4, vec![1, 2], vec![(50.1109, 8.6821), (50.1209, 8.6921)]),
        way(5, vec![2, 3], vec![(50.1209, 8.6921), (50.1309, 8.6721)]),
    ]
}

#[test]
fn test_reachable_nodes() {
    let railway_graph = build(&test_elements());

    let start_node_id = 1;
    let reachable_nodes = railway_graph.reachable_nodes(start_node_id);
    assert_eq!(reachable_nodes, vec![2, 3]);
}

#[test]
fn reachable_nodes_of_a_missing_node() {
    let railway_graph = build(&test_elements());
    assert_eq!(railway_graph.reachable_nodes(42), Vec::<i64>::new());
}

#[test]
fn test_reachable_edges() {
    let railway_graph = build(&test_elements());

    let start_node_id = 1;
    let reachable_edges = railway_graph.reachable_edges(start_node_id);
    assert_eq!(reachable_edges, vec![4, 5]);
}

#[test]
fn test_get_next_node() {
    let railway_graph = build(&test_elements());

    assert_eq!(railway_graph.get_next_node(1, 2), Some(2));
    assert_eq!(railway_graph.get_next_node(1, 3), Some(2));
    assert_eq!(railway_graph.get_next_node(2, 3), Some(3));
    assert_eq!(railway_graph.get_next_node(1, 4), None);
}

#[test]
fn test_shortest_path_distance() {
    let railway_graph = build(&test_elements());

    let d12 = railway_graph.shortest_path_distance(1, 2).unwrap() as f64 / 1000.0;
    assert!((d12 - 1322.421).abs() <= 0.1);
    let d13 = railway_graph.shortest_path_distance(1, 3).unwrap() as f64 / 1000.0;
    assert!((d13 - 3134.2).abs() <= 0.1);
    let d23 = railway_graph.shortest_path_distance(2, 3).unwrap() as f64 / 1000.0;
    assert!((d23 - 1811.801).abs() <= 1e-9);
    assert_eq!(railway_graph.shortest_path_distance(1, 4), None);
}

#[test]
fn shortest_path_distance_is_symmetric_and_zero_at_the_start() {
    let railway_graph = build(&test_elements());
    assert_eq!(railway_graph.shortest_path_distance(3, 1), railway_graph.shortest_path_distance(1, 3));
    assert_eq!(railway_graph.shortest_path_distance(2, 2), Some(0));
}

#[test]
fn test_shortest_path_nodes() {
    let railway_graph = build(&test_elements());

    assert_eq!(railway_graph.shortest_path_nodes(1, 2), Some(vec![1, 2]));
    assert_eq!(railway_graph.shortest_path_nodes(1, 3), Some(vec![1, 2, 3]));
    assert_eq!(railway_graph.shortest_path_nodes(2, 3), Some(vec![2, 3]));
    assert_eq!(railway_graph.shortest_path_nodes(1, 4), None);
}

#[test]
fn test_shortest_path_edges() {
    let railway_graph = build(&test_elements());

    assert_eq!(railway_graph.shortest_path_edges(1, 2), Some(vec![4]));
    assert_eq!(railway_graph.shortest_path_edges(1, 3), Some(vec![4, 5]));
    assert_eq!(railway_graph.shortest_path_edges(2, 3), Some(vec![5]));
    assert_eq!(railway_graph.shortest_path_edges(1, 4), None);
}

#[test]
fn test_railway_edge_creation() {
    let edge = RailwayEdge {
        id: 1,
        length: 1500,
        path: vec![
            Coordinate { lon: deg(8.6821), lat: deg(50.1109) },
            Coordinate { lon: deg(8.6921), lat: deg(50.1209) },
        ],
        source: 0,
        target: 0,
    };

    assert_eq!(edge.id, 1);
    assert_eq!(edge.length, 1500);
}

#[test]
fn test_railway_edge_comparison() {
    let edge1 = RailwayEdge {
        id: 1,
        length: 1500,
        path: vec![
            Coordinate { lon: deg(8.6821), lat: deg(50.1109) },
            Coordinate { lon: deg(8.6921), lat: deg(50.1209) },
        ],
        source: 0,
        target: 0,
    };
    let edge2 = edge1.duplicate();
    let edge3 = RailwayEdge {
        id: 2,
        length: 2500,
        path: vec![
            Coordinate { lon: deg(8.6921), lat: deg(50.1209) },
            Coordinate { lon: deg(8.7021), lat: deg(50.1309) },
        ],
        source: 0,
        target: 0,
    };

    assert_eq!(edge1, edge2);
    assert_ne!(edge1, edge3);
}

#[test]
fn test_source_coordinate() {
    let edge = RailwayEdge {
        id: 1,
        length: 1500,
        path: vec![
            Coordinate { lon: deg(8.6821), lat: deg(50.1109) },
            Coordinate { lon: deg(8.6921), lat: deg(50.1209) },
        ],
        source: 0,
        target: 0,
    };
    assert_eq!(edge.source_coordinate(), Coordinate { lon: deg(8.6821), lat: deg(50.1109) });
}

#[test]
fn test_target_coordinate() {
    let edge = RailwayEdge {
        id: 1,
        length: 1500,
        path: vec![
            Coordinate { lon: deg(8.6821), lat: deg(50.1109) },
            Coordinate { lon: deg(8.6921), lat: deg(50.1209) },
        ],
        source: 0,
        target: 0,
    };
    assert_eq!(edge.target_coordinate(), Coordinate { lon: deg(8.6921), lat: deg(50.1209) });
}

#[test]
fn test_railway_node_creation() {
    let node = RailwayNode { id: 1, lon: deg(8.6090232), lat: deg(50.1191127) };

    assert_eq!(node.id, 1);
    assert_eq!(node.lat, deg(50.1191127));
    assert_eq!(node.lon, deg(8.6090232));
}

#[test]
fn test_railway_node_clone() {
    let node = RailwayNode { id: 1, lon: deg(8.6090232), lat: deg(50.1191127) };
    let cloned_node = node.clone();
    assert_eq!(node, cloned_node);
}

#[test]
fn test_coordinate() {
    let coord = Coordinate { lat: deg(50.1109), lon: deg(8.6821) };
    assert_eq!(coord.lat, 501109000);
    assert_eq!(coord.lon, 86821000);
}
