use openrailwaymap_exporter::edge::{create_edges, Edge};
use openrailwaymap_exporter::railway_element::{ElementType, RailwayElement};

#[test]
fn create_edges_pairs_consecutive_nodes() {
    let elements = vec![
        RailwayElement::new_with_id(1),
        RailwayElement {
            id: 2,
            element_type: ElementType::Way,
            lat: None,
            lon: None,
            tags: None,
            nodes: Some(vec![1, 2, 3]),
            geometry: None,
        },
        RailwayElement {
            id: 3,
            element_type: ElementType::Way,
            lat: None,
            lon: None,
            tags: None,
            nodes: Some(vec![7]),
            geometry: None,
        },
        RailwayElement {
            id: 4,
            element_type: ElementType::Way,
            lat: None,
            lon: None,
            tags: None,
            nodes: Some(vec![3, 4]),
            geometry: None,
        },
    ];
    let edges = create_edges(&elements);
    assert_eq!(
        edges,
        vec![
            Edge { node_a: 1, node_b: 2 },
            Edge { node_a: 2, node_b: 3 },
            Edge { node_a: 3, node_b: 4 },
        ]
    );
}


#[test]
fn create_edges_of_no_elements_is_empty() {
    let elements: Vec<RailwayElement> = Vec::new();
    assert_eq!(create_edges(&elements), Vec::<Edge>::new());
}
