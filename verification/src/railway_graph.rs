//! Queries on a `RailwayGraph`: nodes and edges by id, the edges at a node, the bounding box,
//! the total length, and the node nearest to a point.
use crate::coordinate::Coordinate;
use crate::petgraph_specs::{
    edges_within, graph_edge_count, graph_edge_weight, graph_edges,
    graph_find_edge, graph_incident_edges, graph_node, graph_node_count, graph_nodes,
};
use crate::railway_model::{
    found_edge, incident_edges, total_edge_length, EdgeEntry, RailwayEdge, RailwayGraph,
    RailwayNode,
};
use crate::types::{EdgeId, NodeId};
use vstd::prelude::*;

verus! {

broadcast use vstd::std_specs::hash::group_hash_axioms;

impl RailwayGraph {
    /// The nodes of the graph, in the order of their indices.
    pub open spec fn nodes(&self) -> Seq<RailwayNode> {
        graph_nodes(self.graph)
    }

    /// The edges of the graph, in the order of their indices.
    pub open spec fn edges(&self) -> Seq<EdgeEntry> {
        graph_edges(self.graph)
    }

    /// The graph is well formed: `node_indices` maps each node id to the index of the one
    /// node with that id and holds nothing else, every edge joins two nodes of the graph, and
    /// the graph has room for one more node and edge.
    pub open spec fn wf(&self) -> bool {
        &&& self.nodes().len() < u32::MAX
        &&& self.edges().len() < u32::MAX
        &&& edges_within(self.edges(), self.nodes().len())
        &&& forall|id: i64| #[trigger]
            self.node_indices@.contains_key(id) ==> self.node_indices@[id] < self.nodes().len()
                && self.nodes()[self.node_indices@[id] as int].id == id
        &&& forall|i: int|
            0 <= i < self.nodes().len() ==> self.node_indices@.contains_key(
                #[trigger] self.nodes()[i].id,
            ) && self.node_indices@[self.nodes()[i].id] == i
    }

    /// The index of the node with id `id`, if there is one.
    pub open spec fn index_of(&self, id: NodeId) -> Option<usize> {
        if self.node_indices@.contains_key(id) {
            Some(self.node_indices@[id])
        } else {
            None
        }
    }

    /// Looks up the index of the node with id `id`.
    pub fn node_index(&self, id: NodeId) -> (r: Option<usize>)
        requires
            self.wf(),
        ensures
            r == self.index_of(id),
            r matches Some(i) ==> i < self.nodes().len() && self.nodes()[i as int].id == id,
    {
        match self.node_indices.get(&id) {
            Some(i) => Some(*i),
            None => None,
        }
    }

    /// Returns the node with id `id`, if the graph holds one.
    pub fn get_node_by_id(&self, id: NodeId) -> (r: Option<&RailwayNode>)
        requires
            self.wf(),
        ensures
            r is Some <==> self.node_indices@.contains_key(id),
            r matches Some(n) ==> *n == self.nodes()[self.node_indices@[id] as int] && n.id == id,
    {
        match self.node_index(id) {
            Some(i) => Some(graph_node(&self.graph, i)),
            None => None,
        }
    }

    /// Returns a copy of the first edge (in index order) whose id is `id`, if there is one.
    pub fn get_edge_by_id(&self, id: EdgeId) -> (r: Option<RailwayEdge>)
        requires
            self.wf(),
        ensures
            r is Some <==> first_edge_with_id(self.edges(), id) is Some,
            r matches Some(e) ==> e@ == self.edges()[first_edge_with_id(self.edges(), id)->0].2@,
    {
        let count = graph_edge_count(&self.graph);
        let mut j: usize = 0;
        while j < count
            invariant
                count == self.edges().len(),
                j <= count,
                forall|k: int| 0 <= k < j ==> #[trigger] self.edges()[k].2.id != id,
            decreases count - j,
        {
            let edge = graph_edge_weight(&self.graph, j);
            if edge.id == id {
                proof {
                    lemma_first_edge_with_id(self.edges(), id, j as int);
                }
                return Some(edge.duplicate());
            }
            j = j + 1;
        }
        proof {
            lemma_no_edge_with_id(self.edges(), id);
        }
        None
    }

    /// Returns the edge between the nodes with ids `start_node_id` and `end_node_id`, if
    /// both nodes exist and an edge joins them (in either direction): the one that petgraph's
    /// `find_edge` picks.
    pub fn railway_edge(&self, start_node_id: NodeId, end_node_id: NodeId) -> (r: Option<
        &RailwayEdge,
    >)
        requires
            self.wf(),
        ensures
            r == match (self.index_of(start_node_id), self.index_of(end_node_id)) {
                (Some(a), Some(b)) => match found_edge(self.edges(), a, b) {
                    Some(j) => Some(&self.edges()[j as int].2),
                    None => None,
                },
                _ => None,
            },
    {
        let a = self.node_index(start_node_id);
        let b = self.node_index(end_node_id);
        match (a, b) {
            (Some(a), Some(b)) => match graph_find_edge(&self.graph, a, b) {
                Some(j) => {
                    proof {
                        lemma_found_edge_in_range(self.edges(), a, b);
                    }
                    Some(graph_edge_weight(&self.graph, j))
                },
                None => None,
            },
            _ => None,
        }
    }

    /// Returns the edges at the node with id `node_id`, in the order petgraph lists them, or
    /// no edges where the graph holds no such node.
    pub fn get_edges_of_node(&self, node_id: NodeId) -> (r: Vec<&RailwayEdge>)
        requires
            self.wf(),
        ensures
            match self.index_of(node_id) {
                Some(a) => {
                    &&& r@.len() == incident_edges(self.edges(), a).len()
                    &&& forall|k: int|
                        0 <= k < r@.len() ==> *(#[trigger] r@[k]) == self.edges()[incident_edges(
                            self.edges(),
                            a,
                        )[k] as int].2
                },
                None => r@.len() == 0,
            },
    {
        match self.node_index(node_id) {
            Some(a) => {
                let indices = graph_incident_edges(&self.graph, a);
                proof {
                    lemma_incident_edges_in_range(self.edges(), a);
                }
                let mut r: Vec<&RailwayEdge> = Vec::new();
                let mut k: usize = 0;
                while k < indices.len()
                    invariant
                        indices@ == incident_edges(self.edges(), a),
                        forall|m: int| 0 <= m < indices@.len() ==> #[trigger] indices@[m] < self.edges().len(),
                        k <= indices@.len(),
                        r@.len() == k,
                        forall|m: int| 0 <= m < k ==> *(#[trigger] r@[m]) == self.edges()[indices@[m] as int].2,
                    decreases indices@.len() - k,
                {
                    r.push(graph_edge_weight(&self.graph, indices[k]));
                    k = k + 1;
                }
                r
            },
            None => Vec::new(),
        }
    }

    /// The bounding box of the node positions: the smallest latitude and longitude, then the
    /// largest. For a graph without nodes, the minimum is `i64::MAX` and the maximum `i64::MIN`
    /// in both components.
    pub fn bounding_box(&self) -> (r: (Coordinate, Coordinate))
        requires
            self.wf(),
        ensures
            r.0.lat == min_lat(self.nodes()),
            r.0.lon == min_lon(self.nodes()),
            r.1.lat == max_lat(self.nodes()),
            r.1.lon == max_lon(self.nodes()),
            forall|k: int|
                0 <= k < self.nodes().len() ==> r.0.lat <= #[trigger] self.nodes()[k].lat <= r.1.lat
                    && r.0.lon <= self.nodes()[k].lon <= r.1.lon,
            self.nodes().len() > 0 ==> (exists|k: int| 0 <= k < self.nodes().len() && r.0.lat == #[trigger] self.nodes()[k].lat),
            self.nodes().len() > 0 ==> (exists|k: int| 0 <= k < self.nodes().len() && r.0.lon == #[trigger] self.nodes()[k].lon),
            self.nodes().len() > 0 ==> (exists|k: int| 0 <= k < self.nodes().len() && r.1.lat == #[trigger] self.nodes()[k].lat),
            self.nodes().len() > 0 ==> (exists|k: int| 0 <= k < self.nodes().len() && r.1.lon == #[trigger] self.nodes()[k].lon),
            self.nodes().len() == 0 ==> r.0 == (Coordinate { lat: i64::MAX, lon: i64::MAX }) && r.1 == (Coordinate {
                lat: i64::MIN,
                lon: i64::MIN,
            }),
    {
        proof {
            lemma_bounding_box_tight(self.nodes());
        }
        let count = graph_node_count(&self.graph);
        let mut min_lat_v: i64 = i64::MAX;
        let mut min_lon_v: i64 = i64::MAX;
        let mut max_lat_v: i64 = i64::MIN;
        let mut max_lon_v: i64 = i64::MIN;
        let mut i: usize = 0;
        while i < count
            invariant
                count == self.nodes().len(),
                i <= count,
                min_lat_v == min_lat(self.nodes().subrange(0, i as int)),
                min_lon_v == min_lon(self.nodes().subrange(0, i as int)),
                max_lat_v == max_lat(self.nodes().subrange(0, i as int)),
                max_lon_v == max_lon(self.nodes().subrange(0, i as int)),
            decreases count - i,
        {
            let node = graph_node(&self.graph, i);
            assert(self.nodes().subrange(0, i + 1).drop_last() =~= self.nodes().subrange(0, i as int));
            if node.lat < min_lat_v {
                min_lat_v = node.lat;
            }
            if node.lon < min_lon_v {
                min_lon_v = node.lon;
            }
            if node.lat > max_lat_v {
                max_lat_v = node.lat;
            }
            if node.lon > max_lon_v {
                max_lon_v = node.lon;
            }
            i = i + 1;
        }
        assert(self.nodes().subrange(0, count as int) =~= self.nodes());
        (Coordinate { lat: min_lat_v, lon: min_lon_v }, Coordinate { lat: max_lat_v, lon: max_lon_v })
    }

    /// The total length of the network in millimetres: the sum of the lengths of all edges.
    pub fn total_length(&self) -> (r: u64)
        requires
            self.wf(),
            total_edge_length(self.edges()) <= u64::MAX,
        ensures
            r == total_edge_length(self.edges()),
    {
        let count = graph_edge_count(&self.graph);
        let mut sum: u64 = 0;
        let mut j: usize = 0;
        while j < count
            invariant
                count == self.edges().len(),
                j <= count,
                sum == total_edge_length(self.edges().subrange(0, j as int)),
                total_edge_length(self.edges()) <= u64::MAX,
            decreases count - j,
        {
            assert(self.edges().subrange(0, j + 1).drop_last() =~= self.edges().subrange(0, j as int));
            proof {
                lemma_total_length_prefix(self.edges(), j as int + 1);
            }
            sum = sum + graph_edge_weight(&self.graph, j).length;
            j = j + 1;
        }
        assert(self.edges().subrange(0, count as int) =~= self.edges());
        sum
    }
}

/// The index of the first edge whose id is `id`.
pub open spec fn first_edge_with_id(es: Seq<EdgeEntry>, id: EdgeId) -> Option<int>
    decreases es.len(),
{
    if es.len() == 0 {
        None
    } else {
        match first_edge_with_id(es.drop_last(), id) {
            Some(j) => Some(j),
            None => if es.last().2.id == id {
                Some(es.len() - 1)
            } else {
                None
            },
        }
    }
}

/// The first edge with id `id` is at `j` where no earlier edge has that id.
pub proof fn lemma_first_edge_with_id(es: Seq<EdgeEntry>, id: EdgeId, j: int)
    requires
        0 <= j < es.len(),
        es[j].2.id == id,
        forall|k: int| 0 <= k < j ==> #[trigger] es[k].2.id != id,
    ensures
        first_edge_with_id(es, id) == Some(j),
    decreases es.len(),
{
    if j < es.len() - 1 {
        lemma_first_edge_with_id(es.drop_last(), id, j);
    } else {
        lemma_no_edge_with_id(es.drop_last(), id);
    }
}

/// There is no first edge with id `id` where no edge has it.
pub proof fn lemma_no_edge_with_id(es: Seq<EdgeEntry>, id: EdgeId)
    requires
        forall|k: int| 0 <= k < es.len() ==> #[trigger] es[k].2.id != id,
    ensures
        first_edge_with_id(es, id) is None,
    decreases es.len(),
{
    if es.len() > 0 {
        lemma_no_edge_with_id(es.drop_last(), id);
    }
}

/// Every index that `first_edge_with_id` returns is in range.
pub proof fn lemma_first_edge_with_id_range(es: Seq<EdgeEntry>, id: EdgeId)
    ensures
        first_edge_with_id(es, id) matches Some(j) ==> 0 <= j < es.len() && es[j].2.id == id,
    decreases es.len(),
{
    if es.len() > 0 {
        lemma_first_edge_with_id_range(es.drop_last(), id);
    }
}

proof fn lemma_last_edge_between_in_range(es: Seq<EdgeEntry>, a: usize, b: usize)
    requires
        es.len() <= usize::MAX,
    ensures
        crate::railway_model::last_edge_between(es, a, b) matches Some(j) ==> j < es.len()
            && es[j as int].0 == a && es[j as int].1 == b,
    decreases es.len(),
{
    if es.len() > 0 {
        lemma_last_edge_between_in_range(es.drop_last(), a, b);
    }
}

/// The edge that `found_edge` names exists and joins `a` and `b`.
pub proof fn lemma_found_edge_in_range(es: Seq<EdgeEntry>, a: usize, b: usize)
    requires
        es.len() <= usize::MAX,
    ensures
        found_edge(es, a, b) matches Some(j) ==> j < es.len() && crate::railway_model::joins(
            es[j as int],
            a,
            b,
        ),
{
    lemma_last_edge_between_in_range(es, a, b);
    lemma_last_edge_between_in_range(es, b, a);
}

/// Every index that `incident_edges` lists is an edge at `a`.
pub proof fn lemma_incident_edges_in_range(es: Seq<EdgeEntry>, a: usize)
    requires
        es.len() <= usize::MAX,
    ensures
        forall|m: int|
            0 <= m < incident_edges(es, a).len() ==> #[trigger] incident_edges(es, a)[m] < es.len()
                && (es[incident_edges(es, a)[m] as int].0 == a || es[incident_edges(
                es,
                a,
            )[m] as int].1 == a),
{
    lemma_out_edges_in_range(es, a);
    lemma_in_edges_in_range(es, a);
    let o = crate::railway_model::out_edge_indices(es, a);
    let n = crate::railway_model::in_edge_indices(es, a);
    assert forall|m: int| 0 <= m < incident_edges(es, a).len() implies #[trigger] incident_edges(es, a)[m] < es.len()
        && (es[incident_edges(es, a)[m] as int].0 == a || es[incident_edges(es, a)[m] as int].1 == a) by {
        if m < o.len() {
            assert(incident_edges(es, a)[m] == o[m]);
        } else {
            assert(incident_edges(es, a)[m] == n[m - o.len()]);
        }
    }
}

proof fn lemma_out_edges_in_range(es: Seq<EdgeEntry>, a: usize)
    requires
        es.len() <= usize::MAX,
    ensures
        forall|m: int|
            0 <= m < crate::railway_model::out_edge_indices(es, a).len() ==> #[trigger] crate::railway_model::out_edge_indices(es, a)[m]
                < es.len() && es[crate::railway_model::out_edge_indices(es, a)[m] as int].0 == a,
    decreases es.len(),
{
    if es.len() > 0 {
        let rest = es.drop_last();
        lemma_out_edges_in_range(rest, a);
        let o = crate::railway_model::out_edge_indices(es, a);
        let ro = crate::railway_model::out_edge_indices(rest, a);
        assert forall|m: int| 0 <= m < o.len() implies #[trigger] o[m] < es.len() && es[o[m] as int].0 == a by {
            if es.last().0 == a {
                if m > 0 {
                    assert(o[m] == ro[m - 1]);
                    assert(es[o[m] as int] == rest[o[m] as int]);
                }
            } else {
                assert(o[m] == ro[m]);
                assert(es[o[m] as int] == rest[o[m] as int]);
            }
        }
    }
}

proof fn lemma_in_edges_in_range(es: Seq<EdgeEntry>, a: usize)
    requires
        es.len() <= usize::MAX,
    ensures
        forall|m: int|
            0 <= m < crate::railway_model::in_edge_indices(es, a).len() ==> #[trigger] crate::railway_model::in_edge_indices(es, a)[m]
                < es.len() && es[crate::railway_model::in_edge_indices(es, a)[m] as int].1 == a
                && es[crate::railway_model::in_edge_indices(es, a)[m] as int].0 != a,
    decreases es.len(),
{
    if es.len() > 0 {
        let rest = es.drop_last();
        lemma_in_edges_in_range(rest, a);
        let o = crate::railway_model::in_edge_indices(es, a);
        let ro = crate::railway_model::in_edge_indices(rest, a);
        assert forall|m: int| 0 <= m < o.len() implies #[trigger] o[m] < es.len() && es[o[m] as int].1 == a && es[o[m] as int].0 != a by {
            if es.last().1 == a && es.last().0 != a {
                if m > 0 {
                    assert(o[m] == ro[m - 1]);
                    assert(es[o[m] as int] == rest[o[m] as int]);
                }
            } else {
                assert(o[m] == ro[m]);
                assert(es[o[m] as int] == rest[o[m] as int]);
            }
        }
    }
}

proof fn lemma_total_length_prefix(es: Seq<EdgeEntry>, j: int)
    requires
        0 <= j <= es.len(),
    ensures
        total_edge_length(es.subrange(0, j)) <= total_edge_length(es),
    decreases es.len() - j,
{
    if j < es.len() {
        lemma_total_length_prefix(es, j + 1);
        assert(es.subrange(0, j + 1).drop_last() =~= es.subrange(0, j));
    } else {
        assert(es.subrange(0, j) =~= es);
    }
}

/// The smallest latitude of `ns`, `i64::MAX` for no nodes.
pub open spec fn min_lat(ns: Seq<RailwayNode>) -> i64
    decreases ns.len(),
{
    if ns.len() == 0 {
        i64::MAX
    } else if ns.last().lat < min_lat(ns.drop_last()) {
        ns.last().lat
    } else {
        min_lat(ns.drop_last())
    }
}

/// The smallest longitude of `ns`, `i64::MAX` for no nodes.
pub open spec fn min_lon(ns: Seq<RailwayNode>) -> i64
    decreases ns.len(),
{
    if ns.len() == 0 {
        i64::MAX
    } else if ns.last().lon < min_lon(ns.drop_last()) {
        ns.last().lon
    } else {
        min_lon(ns.drop_last())
    }
}

/// The largest latitude of `ns`, `i64::MIN` for no nodes.
pub open spec fn max_lat(ns: Seq<RailwayNode>) -> i64
    decreases ns.len(),
{
    if ns.len() == 0 {
        i64::MIN
    } else if ns.last().lat > max_lat(ns.drop_last()) {
        ns.last().lat
    } else {
        max_lat(ns.drop_last())
    }
}

/// The largest longitude of `ns`, `i64::MIN` for no nodes.
pub open spec fn max_lon(ns: Seq<RailwayNode>) -> i64
    decreases ns.len(),
{
    if ns.len() == 0 {
        i64::MIN
    } else if ns.last().lon > max_lon(ns.drop_last()) {
        ns.last().lon
    } else {
        max_lon(ns.drop_last())
    }
}

/// The bounding box holds every node: each node's latitude and longitude lie between the
/// minimum and the maximum.
pub proof fn lemma_bounding_box_contains_nodes(ns: Seq<RailwayNode>, i: int)
    requires
        0 <= i < ns.len(),
    ensures
        min_lat(ns) <= ns[i].lat <= max_lat(ns),
        min_lon(ns) <= ns[i].lon <= max_lon(ns),
    decreases ns.len(),
{
    if i < ns.len() - 1 {
        lemma_bounding_box_contains_nodes(ns.drop_last(), i);
    }
}

/// The bounding box is the tightest box around the nodes: every node lies in it, and for a
/// non-empty sequence each of its four sides passes through a node.
pub proof fn lemma_bounding_box_tight(ns: Seq<RailwayNode>)
    ensures
        forall|k: int|
            0 <= k < ns.len() ==> min_lat(ns) <= #[trigger] ns[k].lat <= max_lat(ns) && min_lon(ns) <= ns[k].lon
                <= max_lon(ns),
        ns.len() > 0 ==> (exists|k: int| 0 <= k < ns.len() && min_lat(ns) == #[trigger] ns[k].lat),
        ns.len() > 0 ==> (exists|k: int| 0 <= k < ns.len() && min_lon(ns) == #[trigger] ns[k].lon),
        ns.len() > 0 ==> (exists|k: int| 0 <= k < ns.len() && max_lat(ns) == #[trigger] ns[k].lat),
        ns.len() > 0 ==> (exists|k: int| 0 <= k < ns.len() && max_lon(ns) == #[trigger] ns[k].lon),
        ns.len() == 0 ==> min_lat(ns) == i64::MAX && min_lon(ns) == i64::MAX && max_lat(ns) == i64::MIN
            && max_lon(ns) == i64::MIN,
    decreases ns.len(),
{
    assert forall|k: int| 0 <= k < ns.len() implies min_lat(ns) <= #[trigger] ns[k].lat <= max_lat(ns) && min_lon(ns)
        <= ns[k].lon <= max_lon(ns) by {
        lemma_bounding_box_contains_nodes(ns, k);
    }
    if ns.len() > 0 {
        let init = ns.drop_last();
        let last = ns.len() - 1;
        lemma_bounding_box_tight(init);
        assert(ns[last] == ns.last());
        if init.len() > 0 {
            assert forall|k: int| 0 <= k < init.len() implies init[k] == ns[k] by {}
            if min_lat(ns) != ns.last().lat {
                let k = choose|k: int| 0 <= k < init.len() && min_lat(init) == #[trigger] init[k].lat;
                assert(ns[k] == init[k]);
            }
            if min_lon(ns) != ns.last().lon {
                let k = choose|k: int| 0 <= k < init.len() && min_lon(init) == #[trigger] init[k].lon;
                assert(ns[k] == init[k]);
            }
            if max_lat(ns) != ns.last().lat {
                let k = choose|k: int| 0 <= k < init.len() && max_lat(init) == #[trigger] init[k].lat;
                assert(ns[k] == init[k]);
            }
            if max_lon(ns) != ns.last().lon {
                let k = choose|k: int| 0 <= k < init.len() && max_lon(init) == #[trigger] init[k].lon;
                assert(ns[k] == init[k]);
            }
        }
    }
}

/// The total length of edges adds up: no edges have length 0, and one more edge adds its
/// length; so the total of two lists one after the other is the sum of their totals.
pub proof fn lemma_total_length_additive(es: Seq<EdgeEntry>, more: Seq<EdgeEntry>, e: EdgeEntry)
    ensures
        total_edge_length(Seq::<EdgeEntry>::empty()) == 0,
        total_edge_length(es.push(e)) == total_edge_length(es) + e.2.length,
        total_edge_length(es + more) == total_edge_length(es) + total_edge_length(more),
    decreases more.len(),
{
    assert(es.push(e).drop_last() =~= es);
    if more.len() > 0 {
        lemma_total_length_additive(es, more.drop_last(), e);
        assert((es + more).drop_last() =~= es + more.drop_last());
        assert((es + more).last() == more.last());
    } else {
        assert(es + more =~= es);
    }
}

} // verus!
