//! Identifier types shared across the crate.
use vstd::prelude::*;

verus! {

/// The OpenStreetMap id of a node.
pub type NodeId = i64;

/// The OpenStreetMap id of a way, used as the id of the edge built from it.
pub type EdgeId = i64;

/// The id of an object moving on the railway network.
pub type RailwayObjectId = i64;

} // verus!
