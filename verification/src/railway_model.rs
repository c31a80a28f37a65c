//! The railway model: nodes, edges and the graph that holds them, with the mathematical
//! model that the contracts of the graph operations speak of.
use crate::coordinate::Coordinate;
use petgraph::graph::Graph;
use petgraph::Undirected;
use std::collections::HashMap;
use vstd::prelude::*;

verus! {

/// A railway node: an OpenStreetMap node id and its position in 10^-7 degrees.
#[derive(Clone, Copy, Debug, PartialEq, Eq, Structural)]
pub struct RailwayNode {
    /// The OpenStreetMap id of the node.
    pub id: i64,
    /// The latitude, in 10^-7 degrees.
    pub lat: i64,
    /// The longitude, in 10^-7 degrees.
    pub lon: i64,
}

/// A railway edge between two nodes, built from a way.
#[derive(Clone, Debug, PartialEq)]
pub struct RailwayEdge {
    /// The id of the way the edge was built from.
    pub id: i64,
    /// The length of the edge in millimetres.
    pub length: u64,
    /// The coordinates along the edge, from its source to its target.
    pub path: Vec<Coordinate>,
    /// The id of the source node.
    pub source: i64,
    /// The id of the target node.
    pub target: i64,
}

/// The mathematical value of a `RailwayEdge`.
pub struct EdgeView {
    pub id: i64,
    pub length: u64,
    pub path: Seq<Coordinate>,
    pub source: i64,
    pub target: i64,
}

impl View for RailwayEdge {
    type V = EdgeView;

    open spec fn view(&self) -> EdgeView {
        EdgeView {
            id: self.id,
            length: self.length,
            path: self.path@,
            source: self.source,
            target: self.target,
        }
    }
}

impl RailwayEdge {
    /// A copy of the edge.
    pub fn duplicate(&self) -> (r: RailwayEdge)
        ensures
            r@ == self@,
    {
        let path = self.path.clone();
        assert(path@ =~= self.path@);
        RailwayEdge {
            id: self.id,
            length: self.length,
            path,
            source: self.source,
            target: self.target,
        }
    }
}

impl RailwayEdge {
    /// The first coordinate of the path: where the edge leaves its source.
    pub fn source_coordinate(&self) -> (r: Coordinate)
        requires
            self.path@.len() >= 1,
        ensures
            r == self.path@[0],
    {
        self.path[0]
    }

    /// The last coordinate of the path: where the edge reaches its target.
    pub fn target_coordinate(&self) -> (r: Coordinate)
        requires
            self.path@.len() >= 1,
        ensures
            r == self.path@.last(),
    {
        self.path[self.path.len() - 1]
    }
}

/// The undirected petgraph graph that holds the railway network.
pub type PetGraph = Graph<RailwayNode, RailwayEdge, Undirected, u32>;

/// An edge of the graph as the graph holds it: the indices of its two end nodes (source,
/// then target) and its weight.
pub type EdgeEntry = (usize, usize, RailwayEdge);

/// A railway graph: an undirected graph of railway nodes and edges, and the map from each
/// node id to the index of its node in the graph.
pub struct RailwayGraph {
    /// The graph of nodes and edges.
    pub graph: PetGraph,
    /// The index in `graph` of the node with each id.
    pub node_indices: HashMap<i64, usize>,
}

// ---------------------------------------------------------------------------------------
// The order in which the graph lists the edges and the neighbours of a node
// ---------------------------------------------------------------------------------------

/// The indices of the edges whose source is `a`, the most recently added first.
pub open spec fn out_edge_indices(es: Seq<EdgeEntry>, a: usize) -> Seq<usize>
    decreases es.len(),
{
    if es.len() == 0 {
        seq![]
    } else {
        let i = es.len() - 1;
        let rest = out_edge_indices(es.drop_last(), a);
        if es[i].0 == a {
            seq![i as usize] + rest
        } else {
            rest
        }
    }
}

/// The indices of the edges whose target is `a` and whose source is another node, the most
/// recently added first.
pub open spec fn in_edge_indices(es: Seq<EdgeEntry>, a: usize) -> Seq<usize>
    decreases es.len(),
{
    if es.len() == 0 {
        seq![]
    } else {
        let i = es.len() - 1;
        let rest = in_edge_indices(es.drop_last(), a);
        if es[i].1 == a && es[i].0 != a {
            seq![i as usize] + rest
        } else {
            rest
        }
    }
}

/// The indices of the edges at node `a` in the order the graph lists them: first those that
/// start at `a`, then those that end at `a`, each group the most recently added first; a
/// loop at `a` is listed once.
pub open spec fn incident_edges(es: Seq<EdgeEntry>, a: usize) -> Seq<usize> {
    out_edge_indices(es, a) + in_edge_indices(es, a)
}

/// The end of edge `e` that is not `a` (or `a` for a loop).
pub open spec fn other_end(e: EdgeEntry, a: usize) -> usize {
    if e.0 == a {
        e.1
    } else {
        e.0
    }
}

/// The neighbours of `a`, one for each edge at `a`, in the order of `incident_edges`.
pub open spec fn neighbors(es: Seq<EdgeEntry>, a: usize) -> Seq<usize> {
    incident_edges(es, a).map_values(|i: usize| other_end(es[i as int], a))
}

/// The most recently added edge from `a` to `b`.
pub open spec fn last_edge_between(es: Seq<EdgeEntry>, a: usize, b: usize) -> Option<usize>
    decreases es.len(),
{
    if es.len() == 0 {
        None
    } else {
        let i = es.len() - 1;
        if es[i].0 == a && es[i].1 == b {
            Some(i as usize)
        } else {
            last_edge_between(es.drop_last(), a, b)
        }
    }
}

/// The edge that the graph finds between `a` and `b`: the most recently added edge from `a`
/// to `b`, or else the most recently added edge from `b` to `a`.
pub open spec fn found_edge(es: Seq<EdgeEntry>, a: usize, b: usize) -> Option<usize> {
    match last_edge_between(es, a, b) {
        Some(i) => Some(i),
        None => last_edge_between(es, b, a),
    }
}

// ---------------------------------------------------------------------------------------
// Walks, reachability and distances
// ---------------------------------------------------------------------------------------

/// Whether edge `e` joins `u` and `v`, in either direction.
pub open spec fn joins(e: EdgeEntry, u: usize, v: usize) -> bool {
    (e.0 == u && e.1 == v) || (e.0 == v && e.1 == u)
}

/// `path` is a sequence of nodes and `steps[k]` is an edge that joins `path[k]` and
/// `path[k + 1]`.
pub open spec fn is_walk(es: Seq<EdgeEntry>, path: Seq<usize>, steps: Seq<usize>) -> bool {
    &&& path.len() >= 1
    &&& steps.len() + 1 == path.len()
    &&& forall|k: int|
        0 <= k < steps.len() ==> #[trigger] steps[k] < es.len() && joins(
            es[steps[k] as int],
            path[k],
            path[k + 1],
        )
}

/// A walk from `s` to `t`.
pub open spec fn connects(
    es: Seq<EdgeEntry>,
    path: Seq<usize>,
    steps: Seq<usize>,
    s: usize,
    t: usize,
) -> bool {
    is_walk(es, path, steps) && path[0] == s && path.last() == t
}

/// Whether some walk leads from `s` to `t`.
pub open spec fn reachable(es: Seq<EdgeEntry>, s: usize, t: usize) -> bool {
    exists|path: Seq<usize>, steps: Seq<usize>| #[trigger] connects(es, path, steps, s, t)
}

/// The sum of the lengths of the edges in `steps`.
pub open spec fn walk_length(es: Seq<EdgeEntry>, steps: Seq<usize>) -> nat
    decreases steps.len(),
{
    if steps.len() == 0 {
        0
    } else {
        walk_length(es, steps.drop_last()) + (es[steps.last() as int].2.length as nat)
    }
}

/// `d` is the length of a shortest walk from `s` to `t`.
pub open spec fn is_shortest_distance(es: Seq<EdgeEntry>, s: usize, t: usize, d: nat) -> bool {
    &&& exists|path: Seq<usize>, steps: Seq<usize>|
        #[trigger] connects(es, path, steps, s, t) && walk_length(es, steps) == d
    &&& forall|path: Seq<usize>, steps: Seq<usize>|
        #[trigger] connects(es, path, steps, s, t) ==> d <= walk_length(es, steps)
}

/// The sum of the lengths of all edges.
pub open spec fn total_edge_length(es: Seq<EdgeEntry>) -> nat
    decreases es.len(),
{
    if es.len() == 0 {
        0
    } else {
        total_edge_length(es.drop_last()) + (es.last().2.length as nat)
    }
}

} // verus!
