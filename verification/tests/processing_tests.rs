use openrailwaymap_exporter::coordinate::Coordinate;
use openrailwaymap_exporter::railway_element::{ElementType, RailwayElement};
use openrailwaymap_exporter::railway_model::RailwayNode;
use openrailwaymap_exporter::railway_processing::{create_nodes, find_node_by_id};
use std::collections::HashMap;

fn deg(x: f64) -> i64 {
    (x * 1e7).round() as i64
}

#[test]
fn test_find_node_by_id() {
    let elements = vec![
        RailwayElement::new_with_id(1),
        RailwayElement {
            element_type: ElementType::Node,
            id: 2,
            lat: Some(deg(50.2291127)),
            lon: Some(deg(8.7190232)),
            tags: None,
            nodes: None,
            geometry: None,
        },
        RailwayElement {
            element_type: ElementType::Way,
            id: 3,
            lat: None,
            lon: None,
            tags: None,
            nodes: Some(vec![1, 2]),
            geometry: Some(vec![
                Coordinate { lat: deg(50.1191127), lon: deg(8.6090232) },
                Coordinate { lat: deg(50.2291127), lon: deg(8.7190232) },
            ]),
        },
    ];

    let expected_node = RailwayNode { id: 2, lat: deg(50.2291127), lon: deg(8.7190232) };

    let result = find_node_by_id(&elements, 2);
    assert_eq!(result, Some(expected_node));

    let result = find_node_by_id(&elements, 3);
    assert_eq!(result, None);
}

#[test]
fn railway_processing_test_create_nodes() {
    let elements = vec![
        RailwayElement {
            id: 1,
            element_type: ElementType::Node,
            lat: Some(deg(50.1191127)),
            lon: Some(deg(8.6090232)),
            tags: Some(HashMap::new()),
            nodes: None,
            geometry: None,
        },
        RailwayElement {
            id: 2,
            element_type: ElementType::Way,
            lat: None,
            lon: None,
            tags: Some(HashMap::new()),
            nodes: Some(vec![1, 3]),
            geometry: None,
        },
        RailwayElement {
            id: 3,
            element_type: ElementType::Node,
            lat: Some(deg(50.1191177)),
            lon: Some(deg(8.6090237)),
            tags: Some(HashMap::new()),
            nodes: None,
            geometry: None,
        },
    ];

    let nodes = create_nodes(&elements);
    assert_eq!(nodes.len(), 2);

    let node_a = &nodes[0];
    assert_eq!(node_a.id, 1);
    assert_eq!(node_a.lat, deg(50.1191127));
    assert_eq!(node_a.lon, deg(8.6090232));

    let node_b = &nodes[1];
    assert_eq!(node_b.id, 3);
    assert_eq!(node_b.lat, deg(50.1191177));
    assert_eq!(node_b.lon, deg(8.6090237));
}

#[test]
fn create_nodes_takes_each_id_once() {
    let elements = vec![
        RailwayElement {
            id: 7,
            element_type: ElementType::Node,
            lat: Some(1),
            lon: Some(2),
            tags: None,
            nodes: None,
            geometry: None,
        },
        RailwayElement {
            id: 7,
            element_type: ElementType::Node,
            lat: Some(3),
            lon: Some(4),
            tags: None,
            nodes: None,
            geometry: None,
        },
        RailwayElement {
            id: 8,
            element_type: ElementType::Way,
            lat: None,
            lon: None,
            tags: None,
            nodes: Some(vec![7, 7, 9]),
            geometry: None,
        },
    ];
    let nodes = create_nodes(&elements);
    assert_eq!(nodes, vec![RailwayNode { id: 7, lat: 1, lon: 2 }]);
}

#[test]
fn node_without_position_is_skipped() {
    let elements = vec![RailwayElement::new_with_id(4)];
    assert_eq!(create_nodes(&elements), Vec::<RailwayNode>::new());
}

#[test]
fn a_node_collected_before_the_way_is_not_looked_up() {
    let elements = vec![
        RailwayElement::new_with_id(5),
        RailwayElement {
            id: 5,
            element_type: ElementType::Node,
            lat: Some(10),
            lon: Some(20),
            tags: None,
            nodes: None,
            geometry: None,
        },
        RailwayElement {
            id: 6,
            element_type: ElementType::Way,
            lat: None,
            lon: None,
            tags: None,
            nodes: Some(vec![5]),
            geometry: None,
        },
    ];
    assert_eq!(create_nodes(&elements), vec![RailwayNode { id: 5, lat: 10, lon: 20 }]);
}
