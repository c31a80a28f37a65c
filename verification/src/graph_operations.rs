//! Operations that a graph of the railway network offers.
use vstd::prelude::*;

verus! {

/// A graph in which a route between two nodes can be looked up.
pub trait GraphOperations {
    /// Returns the ids of the nodes of a shortest route from the node with id `start_node` to
    /// the node with id `end_node`, if there is one.
    fn shortest_route(&self, start_node: i64, end_node: i64) -> Option<Vec<i64>>;
}

} // verus!
