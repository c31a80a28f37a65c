//! Railway infrastructure data from OpenStreetMap: elements as the Overpass API delivers them,
//! the railway graph built from them, and the algorithms that run on that graph.
//!
//! Coordinates are fixed-point integers in units of 10^-7 degrees, the resolution in which
//! OpenStreetMap stores them; lengths and distances are integer millimetres.

pub mod types;
pub mod coordinate;
pub mod railway_element;
pub mod railway_model;
pub mod petgraph_specs;
pub mod graph_lemmas;
pub mod railway_graph;
pub mod railway_algorithms;
pub mod path_finding;
pub mod nearest;
pub mod algorithms;
pub mod railway_edge_algos;
pub mod importer;
pub mod import_check;
pub mod railway_processing;
pub mod edge;
pub mod ai;
pub mod api_client;
pub mod railway_objects;
pub mod graph_operations;

pub use coordinate::Coordinate;
pub use railway_element::{count_node_elements, count_way_elements, ElementType, RailwayElement};
pub use railway_model::{RailwayEdge, RailwayGraph, RailwayNode};
