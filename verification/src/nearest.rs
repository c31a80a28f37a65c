//! The node of a railway graph nearest to a point at a fraction of the way along an edge.
use crate::algorithms::{in_range, is_first_closest, lemma_first_closest_unique, squared_distance};
use crate::coordinate::Coordinate;
use crate::petgraph_specs::{graph_edge_count, graph_edge_endpoints, graph_edge_weight, graph_node, graph_node_count};
use crate::railway_graph::{first_edge_with_id, lemma_first_edge_with_id, lemma_no_edge_with_id};
use crate::railway_model::{RailwayGraph, RailwayNode};
use crate::types::{EdgeId, NodeId};
use vstd::prelude::*;

verus! {

/// One whole edge, as a fraction in millionths.
pub const PPM: i64 = 1_000_000;

/// The coordinate of a node.
pub open spec fn location(n: RailwayNode) -> Coordinate {
    Coordinate { lat: n.lat, lon: n.lon }
}

/// The coordinates of the nodes, in order.
pub open spec fn locations(ns: Seq<RailwayNode>) -> Seq<Coordinate> {
    Seq::new(ns.len(), |k: int| location(ns[k]))
}

/// `position_ppm` clamped to the range from 0 to one whole edge.
pub open spec fn clamped_fraction(position_ppm: i64) -> int {
    if position_ppm < 0 {
        0
    } else if position_ppm > PPM {
        PPM as int
    } else {
        position_ppm as int
    }
}

/// `x / d` rounded toward zero.
pub open spec fn div_toward_zero(x: int, d: int) -> int {
    if x >= 0 {
        x / d
    } else {
        -((-x) / d)
    }
}

/// The point `t` millionths of the way from `a` to `b`, each axis rounded toward `a`.
pub open spec fn point_along(a: Coordinate, b: Coordinate, t: int) -> Coordinate {
    Coordinate {
        lat: (a.lat + div_toward_zero((b.lat - a.lat) * t, PPM as int)) as i64,
        lon: (a.lon + div_toward_zero((b.lon - a.lon) * t, PPM as int)) as i64,
    }
}

impl RailwayGraph {
    /// Every node of the graph lies in range (see `in_range`).
    pub open spec fn nodes_in_range(&self) -> bool {
        forall|k: int| 0 <= k < self.nodes().len() ==> in_range(location(#[trigger] self.nodes()[k]))
    }

    /// The point `position_ppm` millionths (clamped to a whole edge) of the way along the first
    /// edge with id `edge_id`, from its source, or from its target where `current_node_id` is the
    /// target's id; `None` where no edge has that id.
    pub open spec fn edge_point(&self, edge_id: EdgeId, position_ppm: i64, current_node_id: Option<NodeId>) -> Option<Coordinate> {
        match first_edge_with_id(self.edges(), edge_id) {
            None => None,
            Some(j) => {
                let a = self.edges()[j].0 as int;
                let b = self.edges()[j].1 as int;
                let from_target = current_node_id matches Some(c) && c == self.nodes()[b].id;
                let (s, e) = if from_target { (b, a) } else { (a, b) };
                Some(point_along(location(self.nodes()[s]), location(self.nodes()[e]), clamped_fraction(position_ppm)))
            },
        }
    }

    /// The id of the first node (in index order) at the least distance from `p`.
    pub open spec fn nearest_node_to(&self, p: Coordinate) -> NodeId {
        self.nodes()[choose|k: int| is_first_closest(locations(self.nodes()), p, k)].id
    }

    /// Returns the id of the node nearest to the point `position_ppm` millionths of the way
    /// along the edge with id `edge_id` (the first such edge), the fraction clamped to the range
    /// from 0 to a whole edge, counted from the edge's source or, where `current_node_id` is the
    /// id of its target, from its target; of nodes equally near, the one added first. `None`
    /// where no edge has the id.
    pub fn nearest_node(&self, edge_id: EdgeId, position_ppm: i64, current_node_id: Option<NodeId>) -> (r: Option<NodeId>)
        requires
            self.wf(),
            self.nodes_in_range(),
        ensures
            r == match self.edge_point(edge_id, position_ppm, current_node_id) {
                Some(p) => Some(self.nearest_node_to(p)),
                None => None,
            },
    {
        let count = graph_edge_count(&self.graph);
        let mut j: usize = 0;
        while j < count
            invariant
                count == self.edges().len(),
                j <= count,
                forall|k: int| 0 <= k < j ==> #[trigger] self.edges()[k].2.id != edge_id,
            ensures
                j <= count,
                forall|k: int| 0 <= k < j ==> #[trigger] self.edges()[k].2.id != edge_id,
                j < count ==> self.edges()[j as int].2.id == edge_id,
            decreases count - j,
        {
            if graph_edge_weight(&self.graph, j).id == edge_id {
                break;
            }
            j = j + 1;
        }
        if j == count {
            proof {
                lemma_no_edge_with_id(self.edges(), edge_id);
            }
            return None;
        }
        proof {
            lemma_first_edge_with_id(self.edges(), edge_id, j as int);
        }
        let (mut start_index, mut end_index) = graph_edge_endpoints(&self.graph, j);
        if let Some(current) = current_node_id {
            if current == graph_node(&self.graph, end_index).id {
                let t = start_index;
                start_index = end_index;
                end_index = t;
            }
        }
        let start = *graph_node(&self.graph, start_index);
        let end = *graph_node(&self.graph, end_index);
        let t: i64 = if position_ppm < 0 {
            0
        } else if position_ppm > PPM {
            PPM
        } else {
            position_ppm
        };
        let point = Coordinate {
            lat: along(start.lat, end.lat, t),
            lon: along(start.lon, end.lon, t),
        };
        proof {
            assert(in_range(location(self.nodes()[start_index as int])));
            assert(in_range(location(self.nodes()[end_index as int])));
            assert(self.edge_point(edge_id, position_ppm, current_node_id) == Some(point));
        }
        let nodes = graph_node_count(&self.graph);
        let mut nearest: usize = 0;
        let mut nearest_distance: i128 = 0;
        let mut k: usize = 0;
        while k < nodes
            invariant
                self.wf(),
                self.nodes_in_range(),
                nodes == self.nodes().len(),
                in_range(point),
                k <= nodes,
                0 < nodes,
                k > 0 ==> nearest < k,
                k > 0 ==> nearest_distance == squared_distance(locations(self.nodes())[nearest as int], point),
                forall|m: int| 0 <= m < k ==> nearest_distance <= squared_distance(#[trigger] locations(self.nodes())[m], point),
                forall|m: int| 0 <= m < nearest ==> nearest_distance < squared_distance(#[trigger] locations(self.nodes())[m], point),
            decreases nodes - k,
        {
            let node = graph_node(&self.graph, k);
            proof {
                assert(locations(self.nodes())[k as int] == location(*node));
                assert(in_range(location(*node)));
            }
            let distance = squared_distance_i128(Coordinate { lat: node.lat, lon: node.lon }, point);
            if k == 0 || distance < nearest_distance {
                nearest = k;
                nearest_distance = distance;
            }
            k = k + 1;
        }
        proof {
            let ls = locations(self.nodes());
            assert(is_first_closest(ls, point, nearest as int));
            let c = choose|c: int| is_first_closest(ls, point, c);
            lemma_first_closest_unique(ls, point, nearest as int, c);
        }
        Some(graph_node(&self.graph, nearest).id)
    }
}

/// The coordinate `t` millionths of the way from `a` to `b` on one axis, rounded toward `a`.
fn along(a: i64, b: i64, t: i64) -> (r: i64)
    requires
        -1_800_000_000 <= a <= 1_800_000_000,
        -1_800_000_000 <= b <= 1_800_000_000,
        0 <= t <= PPM,
    ensures
        r == a + div_toward_zero((b - a) * t, PPM as int),
        (a <= r <= b) || (b <= r <= a),
{
    let d: i128 = b as i128 - a as i128;
    proof {
        assert(-3_600_000_000_000_000 <= d * t <= 3_600_000_000_000_000) by (nonlinear_arith)
            requires
                -3_600_000_000 <= d <= 3_600_000_000,
                0 <= t <= 1_000_000,
        ;
    }
    let offset: i128 = d * (t as i128);
    let step: i128 = if offset >= 0 {
        offset / (PPM as i128)
    } else {
        -((-offset) / (PPM as i128))
    };
    proof {
        if d >= 0 {
            assert(0 <= d * t <= d * 1_000_000) by (nonlinear_arith)
                requires
                    0 <= d,
                    0 <= t <= 1_000_000,
            ;
        } else {
            assert(d * 1_000_000 <= d * t <= 0) by (nonlinear_arith)
                requires
                    d < 0,
                    0 <= t <= 1_000_000,
            ;
        }
    }
    (a as i128 + step) as i64
}

/// The square of the distance between two coordinates in range.
fn squared_distance_i128(a: Coordinate, b: Coordinate) -> (r: i128)
    requires
        in_range(a),
        in_range(b),
    ensures
        r == squared_distance(a, b),
{
    let dx: i128 = a.lon as i128 - b.lon as i128;
    let dy: i128 = a.lat as i128 - b.lat as i128;
    proof {
        assert(0 <= dx * dx <= 12_960_000_000_000_000_000) by (nonlinear_arith)
            requires
                -3_600_000_000 <= dx <= 3_600_000_000,
        ;
        assert(0 <= dy * dy <= 12_960_000_000_000_000_000) by (nonlinear_arith)
            requires
                -3_600_000_000 <= dy <= 3_600_000_000,
        ;
    }
    dx * dx + dy * dy
}

} // verus!
