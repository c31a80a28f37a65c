use openrailwaymap_exporter::railway_element::{count_node_elements, count_way_elements, ElementType, RailwayElement};
use std::collections::HashMap;

fn deg(x: f64) -> i64 {
    (x * 1e7).round() as i64
}

#[test]
fn test_railway_element_default() {
    let default_element = RailwayElement::default();
    assert_eq!(default_element.id, 0);
    assert!(default_element.tags.is_none());
    assert_eq!(default_element.element_type, ElementType::Node);
    assert!(default_element.nodes.is_none());
    assert!(default_element.geometry.is_none());
    assert!(default_element.lat.is_none());
    assert!(default_element.lon.is_none());
}

#[test]
fn test_railway_element_new_with_id() {
    let id = 42;
    let element_with_id = RailwayElement::new_with_id(id);
    assert_eq!(element_with_id.id, id);
    assert!(element_with_id.tags.is_none());
    assert_eq!(element_with_id.element_type, ElementType::Node);
    assert!(element_with_id.nodes.is_none());
    assert!(element_with_id.geometry.is_none());
    assert!(element_with_id.lat.is_none());
    assert!(element_with_id.lon.is_none());
}

fn three_elements() -> Vec<RailwayElement> {
    vec![
        RailwayElement {
            id: 1,
            element_type: ElementType::Node,
            lat: Some(deg(50.1109)),
            lon: Some(deg(8.6821)),
            tags: Some(HashMap::new()),
            nodes: None,
            geometry: None,
        },
        RailwayElement {
            id: 2,
            element_type: ElementType::Way,
            lat: None,
            lon: None,
            tags: Some(HashMap::new()),
            nodes: Some(vec![1, 3]),
            geometry: None,
        },
        RailwayElement {
            id: 3,
            element_type: ElementType::Way,
            lat: None,
            lon: None,
            tags: Some(HashMap::new()),
            nodes: Some(vec![3, 5]),
            geometry: None,
        },
    ]
}

#[test]
fn test_count_way_elements() {
    let elements = three_elements();
    let way_count = count_way_elements(&elements);
    assert_eq!(way_count, 2);
}

#[test]
fn count_node_elements_counts_the_rest() {
    let elements = three_elements();
    assert_eq!(count_node_elements(&elements), 1);
    assert_eq!(count_node_elements(&elements) + count_way_elements(&elements), elements.len());
}

#[test]
fn counts_of_no_elements_are_zero() {
    let elements: Vec<RailwayElement> = Vec::new();
    assert_eq!(count_way_elements(&elements), 0);
    assert_eq!(count_node_elements(&elements), 0);
}
