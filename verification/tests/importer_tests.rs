use geo::{HaversineDistance, Point};
use geoutils::Location;
use openrailwaymap_exporter::coordinate::Coordinate;
use openrailwaymap_exporter::importer::{
    calculate_geometry_length, create_nodes, create_nodes_from_way_elements_without_existing,
    find_next_existing_node, from_railway_elements,
};
use openrailwaymap_exporter::railway_element::{ElementType, RailwayElement};
use std::collections::{HashMap, HashSet};

fn deg(x: f64) -> i64 {
    (x * 1e7).round() as i64
}

fn vincenty_mm(a: Coordinate, b: Coordinate) -> u64 {
    let la = Location::new(a.lat as f64 / 1e7, a.lon as f64 / 1e7);
    let lb = Location::new(b.lat as f64 / 1e7, b.lon as f64 / 1e7);
    (la.distance_to(&lb).unwrap().meters() * 1000.0).round() as u64
}

fn haversine_mm(a: Coordinate, b: Coordinate) -> u64 {
    let pa = Point::new(a.lon as f64 / 1e7, a.lat as f64 / 1e7);
    let pb = Point::new(b.lon as f64 / 1e7, b.lat as f64 / 1e7);
    (pa.haversine_distance(&pb) * 1000.0).round() as u64
}

#[test]
fn test_calculate_geometry_length() {
    let geometry = vec![
        Coordinate { lat: deg(1.0), lon: deg(1.0) },
        Coordinate { lat: deg(2.0), lon: deg(1.0) },
        Coordinate { lat: deg(2.0), lon: deg(2.0) },
    ];

    let length = calculate_geometry_length(&geometry, &vincenty_mm);
    let length_m = length as f64 / 1000.0;
    assert_eq!((length_m * 100.0).round() / 100.0, 221827.2);
}

#[test]
fn geometry_length_of_one_point_is_zero() {
    let geometry = vec![Coordinate { lat: deg(1.0), lon: deg(1.0) }];
    assert_eq!(calculate_geometry_length(&geometry, &vincenty_mm), 0);
}

#[test]
fn geometry_length_sums_the_segments() {
    let geometry = vec![
        Coordinate { lat: 0, lon: 0 },
        Coordinate { lat: 1, lon: 0 },
        Coordinate { lat: 3, lon: 0 },
    ];
    let unit = |a: Coordinate, b: Coordinate| -> u64 { (a.lat - b.lat).unsigned_abs() * 10 };
    assert_eq!(calculate_geometry_length(&geometry, &unit), 30);
}

#[test]
fn geometry_length_saturates() {
    let geometry = vec![
        Coordinate { lat: 0, lon: 0 },
        Coordinate { lat: 1, lon: 0 },
        Coordinate { lat: 2, lon: 0 },
    ];
    let huge = |_a: Coordinate, _b: Coordinate| -> u64 { u64::MAX - 1 };
    assert_eq!(calculate_geometry_length(&geometry, &huge), u64::MAX);
}

#[test]
fn test_from_railway_elements() {
    let elements = vec![
        RailwayElement {
            id: 1,
            element_type: ElementType::Node,
            lat: Some(deg(0.0)),
            lon: Some(deg(1.0)),
            tags: Some(HashMap::new()),
            nodes: None,
            geometry: None,
        },
        RailwayElement {
            id: 2,
            element_type: ElementType::Way,
            lat: None,
            lon: None,
            tags: Some(HashMap::new()),
            nodes: Some(vec![1, 7, 3, 8]),
            geometry: Some(vec![
                Coordinate { lat: deg(0.0), lon: deg(0.0) },
                Coordinate { lat: deg(0.0), lon: deg(3.5) },
            ]),
        },
        RailwayElement {
            id: 5,
            element_type: ElementType::Node,
            lat: Some(deg(0.0)),
            lon: Some(deg(5.0)),
            tags: Some(HashMap::new()),
            nodes: None,
            geometry: None,
        },
        RailwayElement {
            id: 4,
            element_type: ElementType::Way,
            lat: None,
            lon: None,
            tags: Some(HashMap::new()),
            nodes: Some(vec![9, 3, 10, 5]),
            geometry: Some(vec![
                Coordinate { lat: deg(0.0), lon: deg(3.0) },
                Coordinate { lat: deg(0.0), lon: deg(5.0) },
            ]),
        },
    ];

    let railway_graph = from_railway_elements(&elements, &vincenty_mm, &haversine_mm);
    assert_eq!(railway_graph.graph.node_count(), 3);

    let node_index_1 = railway_graph.node_indices.get(&1).unwrap();
    let node_1 = &railway_graph.graph[petgraph::graph::NodeIndex::new(*node_index_1)];
    assert_eq!(node_1.lat, deg(0.0));
    assert_eq!(node_1.lon, deg(1.0));

    let node_index_3 = railway_graph.node_indices.get(&3).unwrap();
    let node_3 = &railway_graph.graph[petgraph::graph::NodeIndex::new(*node_index_3)];
    assert_eq!(node_3.lat, deg(0.0));
    assert_eq!(node_3.lon, deg(3.5));
}

#[test]
fn from_railway_elements_builds_one_edge_per_way() {
    let elements = vec![
        RailwayElement {
            id: 1,
            element_type: ElementType::Node,
            lat: Some(deg(50.1109)),
            lon: Some(deg(8.6821)),
            tags: None,
            nodes: None,
            geometry: None,
        },
        RailwayElement {
            id: 2,
            element_type: ElementType::Node,
            lat: Some(deg(50.1119)),
            lon: Some(deg(8.6831)),
            tags: None,
            nodes: None,
            geometry: None,
        },
        RailwayElement {
            id: 3,
            element_type: ElementType::Way,
            lat: None,
            lon: None,
            tags: None,
            nodes: Some(vec![2, 1]),
            geometry: Some(vec![
                Coordinate { lat: deg(50.1109), lon: deg(8.6821) },
                Coordinate { lat: deg(50.1119), lon: deg(8.6831) },
            ]),
        },
    ];
    let graph = from_railway_elements(&elements, &vincenty_mm, &haversine_mm);
    assert_eq!(graph.graph.edge_count(), 1);
    let edge = &graph.graph[petgraph::graph::EdgeIndex::new(0)];
    assert_eq!(edge.id, 3);
    assert_eq!(edge.source, 2);
    assert_eq!(edge.target, 1);
    assert_eq!(edge.length, 132246);
    // The first node of the way lies at the end of the geometry, so the path is reversed.
    assert_eq!(edge.path[0], Coordinate { lat: deg(50.1119), lon: deg(8.6831) });
    assert_eq!(edge.path[1], Coordinate { lat: deg(50.1109), lon: deg(8.6821) });
}

#[test]
fn test_find_next_existing_node() {
    let node_ids = vec![1, 3, 5];
    let mut node_indices = HashMap::new();
    node_indices.insert(1, 0usize);
    node_indices.insert(3, 1usize);
    node_indices.insert(5, 2usize);

    assert_eq!(find_next_existing_node(Some(1), &node_ids, &node_indices), (Some(3), Some(1)));
    assert_eq!(find_next_existing_node(Some(3), &node_ids, &node_indices), (Some(5), Some(2)));
    assert_eq!(find_next_existing_node(Some(5), &node_ids, &node_indices), (None, None));
    assert_eq!(find_next_existing_node(None, &node_ids, &node_indices), (Some(1), Some(0)));
}

#[test]
fn find_next_existing_node_skips_missing_ids() {
    let node_ids = vec![9, 4, 7];
    let mut node_indices = HashMap::new();
    node_indices.insert(7, 3usize);
    assert_eq!(find_next_existing_node(None, &node_ids, &node_indices), (Some(7), Some(3)));
    assert_eq!(find_next_existing_node(Some(42), &node_ids, &node_indices), (Some(7), Some(3)));
    assert_eq!(find_next_existing_node(Some(7), &node_ids, &node_indices), (None, None));
}

#[test]
fn mod_test_create_nodes() {
    let elements = vec![
        RailwayElement {
            id: 1,
            element_type: ElementType::Node,
            lat: Some(deg(50.1191127)),
            lon: Some(deg(8.6090232)),
            tags: Some(HashMap::new()),
            nodes: None,
            geometry: None,
        },
        RailwayElement {
            id: 2,
            element_type: ElementType::Way,
            lat: None,
            lon: None,
            tags: Some(HashMap::new()),
            nodes: Some(vec![1, 3]),
            geometry: None,
        },
        RailwayElement {
            id: 3,
            element_type: ElementType::Node,
            lat: Some(deg(50.1191177)),
            lon: Some(deg(8.6090237)),
            tags: Some(HashMap::new()),
            nodes: None,
            geometry: None,
        },
    ];

    let nodes = create_nodes(&elements, &haversine_mm);
    assert_eq!(nodes.len(), 2);

    let node_a = &nodes[0];
    assert_eq!(node_a.id, 1);
    assert_eq!(node_a.lat, deg(50.1191127));
    assert_eq!(node_a.lon, deg(8.6090232));

    let node_b = &nodes[1];
    assert_eq!(node_b.id, 3);
    assert_eq!(node_b.lat, deg(50.1191177));
    assert_eq!(node_b.lon, deg(8.6090237));
}

#[test]
fn test_create_nodes_from_way_elements_without_existing() {
    let elements = vec![
        RailwayElement {
            id: 2,
            element_type: ElementType::Way,
            lat: None,
            lon: None,
            tags: Some(HashMap::new()),
            nodes: Some(vec![1, 3]),
            geometry: Some(vec![
                Coordinate { lat: deg(50.1191127), lon: deg(8.6090232) },
                Coordinate { lat: deg(50.2291127), lon: deg(8.7190232) },
            ]),
        },
        RailwayElement {
            id: 3,
            element_type: ElementType::Way,
            lat: None,
            lon: None,
            tags: Some(HashMap::new()),
            nodes: Some(vec![3, 4]),
            geometry: Some(vec![
                Coordinate { lat: deg(50.1191127), lon: deg(8.6090232) },
                Coordinate { lat: deg(50.2291127), lon: deg(8.7190232) },
            ]),
        },
    ];

    let mut node_ids = HashSet::new();
    node_ids.insert(1);

    let nodes = create_nodes_from_way_elements_without_existing(&elements, &mut node_ids, &haversine_mm);
    assert_eq!(nodes.len(), 1);

    let node_a = &nodes[0];
    assert_eq!(node_a.id, 3);
    assert_eq!(node_a.lat, deg(50.1191127));
    assert_eq!(node_a.lon, deg(8.6090232));
    assert!(node_ids.contains(&3));
    assert!(node_ids.contains(&1));
    assert!(!node_ids.contains(&4));
}

#[test]
fn implicit_node_takes_the_closest_coordinate_of_the_first_way() {
    let elements = vec![
        RailwayElement {
            id: 10,
            element_type: ElementType::Way,
            lat: None,
            lon: None,
            tags: None,
            nodes: Some(vec![1, 2]),
            geometry: Some(vec![Coordinate { lat: 0, lon: 0 }, Coordinate { lat: 0, lon: 35 }]),
        },
        RailwayElement {
            id: 11,
            element_type: ElementType::Way,
            lat: None,
            lon: None,
            tags: None,
            nodes: Some(vec![2, 3]),
            geometry: Some(vec![Coordinate { lat: 0, lon: 30 }, Coordinate { lat: 0, lon: 50 }]),
        },
    ];
    let planar = |a: Coordinate, b: Coordinate| -> u64 { (a.lon - b.lon).unsigned_abs() + (a.lat - b.lat).unsigned_abs() };
    let mut node_ids = HashSet::new();
    let nodes = create_nodes_from_way_elements_without_existing(&elements, &mut node_ids, &planar);
    assert_eq!(nodes.len(), 1);
    assert_eq!(nodes[0].id, 2);
    assert_eq!(nodes[0].lon, 35);
}

#[test]
fn test_create_nodes_implicit() {
    let elements = vec![
        RailwayElement {
            id: 1,
            element_type: ElementType::Way,
            lat: None,
            lon: None,
            tags: Some(HashMap::new()),
            nodes: Some(vec![3, 4]),
            geometry: Some(vec![Coordinate { lat: deg(50.1191127), lon: deg(8.6090232) }]),
        },
        RailwayElement {
            id: 2,
            element_type: ElementType::Way,
            lat: None,
            lon: None,
            tags: Some(HashMap::new()),
            nodes: Some(vec![4, 5]),
            geometry: Some(vec![Coordinate { lat: deg(50.1191127), lon: deg(8.6090232) }]),
        },
    ];

    let railway_nodes = create_nodes(&elements, &haversine_mm);
    assert_eq!(railway_nodes.len(), 1);
}

fn node_element(id: i64, lat: i64, lon: i64) -> RailwayElement {
    RailwayElement { id, element_type: ElementType::Node, lat: Some(lat), lon: Some(lon), tags: None, nodes: None, geometry: None }
}

fn way_element(id: i64, nodes: Vec<i64>, geometry: Vec<Coordinate>) -> RailwayElement {
    RailwayElement { id, element_type: ElementType::Way, lat: None, lon: None, tags: None, nodes: Some(nodes), geometry: Some(geometry) }
}

#[test]
fn importable_elements_give_a_graph() {
    let elements = vec![
        node_element(1, 0, 0),
        node_element(2, 0, 100),
        way_element(3, vec![1, 2], vec![Coordinate { lat: 0, lon: 0 }, Coordinate { lat: 0, lon: 100 }]),
    ];
    assert!(openrailwaymap_exporter::import_check::is_importable(&elements));
    let graph = openrailwaymap_exporter::import_check::try_from_railway_elements(&elements, &vincenty_mm, &haversine_mm);
    assert_eq!(graph.unwrap().graph.edge_count(), 1);
}

#[test]
fn duplicate_node_elements_are_not_importable() {
    let elements = vec![node_element(1, 0, 0), node_element(1, 5, 5)];
    assert!(!openrailwaymap_exporter::import_check::is_importable(&elements));
    assert!(openrailwaymap_exporter::import_check::try_from_railway_elements(&elements, &vincenty_mm, &haversine_mm).is_none());
}

#[test]
fn a_way_back_to_its_own_node_is_not_importable() {
    let elements = vec![
        node_element(1, 0, 0),
        way_element(3, vec![1, 1], vec![Coordinate { lat: 0, lon: 0 }, Coordinate { lat: 0, lon: 100 }]),
    ];
    assert!(!openrailwaymap_exporter::import_check::is_importable(&elements));
}

#[test]
fn a_way_with_an_empty_geometry_is_not_importable() {
    let elements = vec![node_element(1, 0, 0), way_element(3, vec![1, 2], vec![])];
    assert!(!openrailwaymap_exporter::import_check::is_importable(&elements));
}

#[test]
fn shared_node_of_ways_without_coordinates_is_not_importable() {
    let elements = vec![
        way_element(3, vec![1, 2], vec![]),
        RailwayElement { id: 4, element_type: ElementType::Way, lat: None, lon: None, tags: None, nodes: Some(vec![2, 5]), geometry: Some(vec![]) },
    ];
    assert!(!openrailwaymap_exporter::import_check::is_importable(&elements));
}
