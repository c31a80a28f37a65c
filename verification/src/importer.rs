//! Building a railway graph from the elements that the Overpass API delivers.
//!
//! Geodesic distances need floating point, which this crate does not hold: the functions
//! that measure take the distance functions as arguments, in millimetres between two
//! coordinates, and their contracts hold for whatever those functions return.
use crate::coordinate::Coordinate;
use crate::railway_element::{ElementType, RailwayElement};
use crate::petgraph_specs::{
    graph_add_edge, graph_add_node, graph_edges, graph_new, graph_node, graph_nodes,
};
use crate::railway_model::RailwayNode;
use std::collections::{HashMap, HashSet};
use vstd::prelude::*;

verus! {

broadcast use vstd::std_specs::hash::group_hash_axioms;

/// Imports a railway graph from the elements of an Overpass API response.
pub struct OverpassImporter;

// ---------------------------------------------------------------------------------------
// Finding the nodes of a way that the graph holds
// ---------------------------------------------------------------------------------------

/// The first position at or after `k` in `ids` that holds `x`.
pub open spec fn position_from(ids: Seq<i64>, x: i64, k: int) -> Option<int>
    decreases ids.len() - k,
{
    if k < 0 || k >= ids.len() {
        None
    } else if ids[k] == x {
        Some(k)
    } else {
        position_from(ids, x, k + 1)
    }
}

/// Where the search for the next existing node starts: just after the first occurrence of
/// `start` in `ids`, or at the beginning where there is no `start` or it does not occur.
pub open spec fn search_start(start: Option<i64>, ids: Seq<i64>) -> int {
    match start {
        Some(x) => match position_from(ids, x, 0) {
            Some(p) => p + 1,
            None => 0,
        },
        None => 0,
    }
}

/// The first position at or after `k` in `ids` whose id `indices` holds.
pub open spec fn existing_from(ids: Seq<i64>, indices: Map<i64, usize>, k: int) -> Option<int>
    decreases ids.len() - k,
{
    if k < 0 || k >= ids.len() {
        None
    } else if indices.contains_key(ids[k]) {
        Some(k)
    } else {
        existing_from(ids, indices, k + 1)
    }
}

/// The next existing node after `start` in `ids`, with its index, as
/// `find_next_existing_node` returns it.
pub open spec fn next_existing_node(
    start: Option<i64>,
    ids: Seq<i64>,
    indices: Map<i64, usize>,
) -> (Option<i64>, Option<usize>) {
    match existing_from(ids, indices, search_start(start, ids)) {
        Some(k) => (Some(ids[k]), Some(indices[ids[k]])),
        None => (None, None),
    }
}

/// `existing_from(ids, indices, k)` is the first position at or after `k` whose id `indices`
/// holds, and `None` exactly where no position from `k` on holds such an id.
pub proof fn lemma_existing_from_first(ids: Seq<i64>, indices: Map<i64, usize>, k: int)
    requires
        0 <= k,
    ensures
        match existing_from(ids, indices, k) {
            Some(p) => k <= p < ids.len() && indices.contains_key(ids[p]) && forall|q: int|
                k <= q < p ==> !indices.contains_key(#[trigger] ids[q]),
            None => forall|q: int| k <= q < ids.len() ==> !indices.contains_key(#[trigger] ids[q]),
        },
    decreases ids.len() - k,
{
    if k < ids.len() && !indices.contains_key(ids[k]) {
        lemma_existing_from_first(ids, indices, k + 1);
    }
}

/// `position_from(ids, x, k)` is the first position at or after `k` that holds `x`, and `None`
/// exactly where no position from `k` on holds it.
pub proof fn lemma_position_from_first(ids: Seq<i64>, x: i64, k: int)
    requires
        0 <= k,
    ensures
        match position_from(ids, x, k) {
            Some(p) => k <= p < ids.len() && ids[p] == x && forall|q: int| k <= q < p ==> #[trigger] ids[q] != x,
            None => forall|q: int| k <= q < ids.len() ==> #[trigger] ids[q] != x,
        },
    decreases ids.len() - k,
{
    if k < ids.len() && ids[k] != x {
        lemma_position_from_first(ids, x, k + 1);
    }
}

proof fn lemma_existing_from_skip(ids: Seq<i64>, indices: Map<i64, usize>, k: int, j: int)
    requires
        0 <= k <= j <= ids.len(),
        forall|m: int| k <= m < j ==> !indices.contains_key(#[trigger] ids[m]),
    ensures
        existing_from(ids, indices, k) == existing_from(ids, indices, j),
    decreases j - k,
{
    if k < j {
        lemma_existing_from_skip(ids, indices, k + 1, j);
    }
}

proof fn lemma_position_from_skip(ids: Seq<i64>, x: i64, k: int, j: int)
    requires
        0 <= k <= j <= ids.len(),
        forall|m: int| k <= m < j ==> #[trigger] ids[m] != x,
    ensures
        position_from(ids, x, k) == position_from(ids, x, j),
    decreases j - k,
{
    if k < j {
        lemma_position_from_skip(ids, x, k + 1, j);
    }
}

/// The first position of `x` in `ids`.
fn first_position(ids: &[i64], x: i64) -> (r: Option<usize>)
    ensures
        match r {
            Some(p) => p < ids@.len() && position_from(ids@, x, 0) == Some(p as int),
            None => position_from(ids@, x, 0) is None,
        },
{
    let mut p: usize = 0;
    while p < ids.len()
        invariant
            p <= ids@.len(),
            forall|m: int| 0 <= m < p ==> #[trigger] ids@[m] != x,
        decreases ids@.len() - p,
    {
        if ids[p] == x {
            proof {
                lemma_position_from_skip(ids@, x, 0, p as int);
            }
            return Some(p);
        }
        p = p + 1;
    }
    proof {
        lemma_position_from_skip(ids@, x, 0, p as int);
    }
    None
}

/// Finds the next node id in `node_ids` after the first occurrence of `start` (or from the
/// beginning where `start` is `None` or does not occur) that `node_indices` holds, and
/// returns it with its index; `(None, None)` where there is none.
pub fn find_next_existing_node(
    start: Option<i64>,
    node_ids: &[i64],
    node_indices: &HashMap<i64, usize>,
) -> (r: (Option<i64>, Option<usize>))
    ensures
        r == next_existing_node(start, node_ids@, node_indices@),
{
    let count = node_ids.len();
    let from: usize = match start {
        Some(x) => match first_position(node_ids, x) {
            Some(p) => p + 1,
            None => 0,
        },
        None => 0,
    };
    assert(from as int == search_start(start, node_ids@));
    let mut k: usize = from;
    while k < node_ids.len()
        invariant
            from <= k <= node_ids@.len(),
            from as int == search_start(start, node_ids@),
            existing_from(node_ids@, node_indices@, from as int) == existing_from(
                node_ids@,
                node_indices@,
                k as int,
            ),
        decreases node_ids@.len() - k,
    {
        if let Some(index) = node_indices.get(&node_ids[k]) {
            return (Some(node_ids[k]), Some(*index));
        }
        k = k + 1;
    }
    (None, None)
}

// ---------------------------------------------------------------------------------------
// Lengths
// ---------------------------------------------------------------------------------------

/// The sum of `ds`.
pub open spec fn sum_of(ds: Seq<u64>) -> nat
    decreases ds.len(),
{
    if ds.len() == 0 {
        0
    } else {
        sum_of(ds.drop_last()) + (ds.last() as nat)
    }
}

/// `n`, or `u64::MAX` where `n` does not fit.
pub open spec fn capped(n: nat) -> u64 {
    if n > u64::MAX {
        u64::MAX
    } else {
        n as u64
    }
}

/// `ds[k]` is a distance that `distance` can return between `geometry[k]` and
/// `geometry[k + 1]`, for each pair of consecutive coordinates.
pub open spec fn segment_distances<F: Fn(Coordinate, Coordinate) -> u64>(
    distance: F,
    geometry: Seq<Coordinate>,
    ds: Seq<u64>,
) -> bool {
    &&& ds.len() + 1 == geometry.len()
    &&& forall|k: int|
        0 <= k < ds.len() ==> call_ensures(distance, (geometry[k], geometry[k + 1]), #[trigger] ds[k])
}

/// The length of a sequence of coordinates in millimetres: the sum of the distances between
/// consecutive coordinates, as `distance` measures them (`u64::MAX` where the sum does not
/// fit). The geometry must hold at least one coordinate.
pub fn calculate_geometry_length<F: Fn(Coordinate, Coordinate) -> u64>(
    geometry: &[Coordinate],
    distance: &F,
) -> (r: u64)
    requires
        geometry@.len() >= 1,
        forall|a: Coordinate, b: Coordinate| distance.requires((a, b)),
    ensures
        exists|ds: Seq<u64>| #[trigger]
            segment_distances(*distance, geometry@, ds) && r == capped(sum_of(ds)),
{
    let mut length: u64 = 0;
    let mut i: usize = 0;
    let ghost mut ds: Seq<u64> = Seq::empty();
    while i < geometry.len() - 1
        invariant
            geometry@.len() >= 1,
            forall|a: Coordinate, b: Coordinate| distance.requires((a, b)),
            i + 1 <= geometry@.len(),
            ds.len() == i,
            forall|k: int|
                0 <= k < ds.len() ==> call_ensures(*distance, (geometry@[k], geometry@[k + 1]), #[trigger] ds[k]),
            length == capped(sum_of(ds)),
        decreases geometry@.len() - i,
    {
        let d = distance(geometry[i], geometry[i + 1]);
        proof {
            let old_ds = ds;
            ds = ds.push(d);
            assert(ds.drop_last() =~= old_ds);
        }
        length = length.saturating_add(d);
        i = i + 1;
    }
    assert(segment_distances(*distance, geometry@, ds));
    length
}

// ---------------------------------------------------------------------------------------
// Nodes from node elements
// ---------------------------------------------------------------------------------------

/// The node that a `Node` element with a position defines.
pub open spec fn node_of(e: RailwayElement) -> Option<RailwayNode> {
    if e.element_type == ElementType::Node && e.lat is Some && e.lon is Some {
        Some(RailwayNode { id: e.id, lat: e.lat->0, lon: e.lon->0 })
    } else {
        None
    }
}

/// The nodes that the `Node` elements with a position define, in the order of the elements.
pub open spec fn element_nodes(s: Seq<RailwayElement>) -> Seq<RailwayNode>
    decreases s.len(),
{
    if s.len() == 0 {
        seq![]
    } else {
        element_nodes(s.drop_last()) + match node_of(s.last()) {
            Some(n) => seq![n],
            None => seq![],
        }
    }
}

/// Creates a node for each `Node` element that has a latitude and a longitude, in order.
pub fn create_nodes_from_node_elements(elements: &[RailwayElement]) -> (r: Vec<RailwayNode>)
    ensures
        r@ == element_nodes(elements@),
{
    let mut nodes: Vec<RailwayNode> = Vec::new();
    let mut i: usize = 0;
    while i < elements.len()
        invariant
            i <= elements@.len(),
            nodes@ == element_nodes(elements@.subrange(0, i as int)),
        decreases elements@.len() - i,
    {
        let element = &elements[i];
        proof {
            assert(elements@.subrange(0, i + 1).drop_last() =~= elements@.subrange(0, i as int));
        }
        if let ElementType::Node = element.element_type {
            if let (Some(lat), Some(lon)) = (element.lat, element.lon) {
                nodes.push(RailwayNode { id: element.id, lat, lon });
            }
        }
        proof {
            assert(nodes@ =~= element_nodes(elements@.subrange(0, i + 1)));
        }
        i = i + 1;
    }
    proof {
        assert(elements@.subrange(0, elements@.len() as int) =~= elements@);
    }
    nodes
}

/// The ids of `nodes`.
pub fn node_ids_from_nodes(nodes: &[RailwayNode]) -> (r: HashSet<i64>)
    ensures
        forall|id: i64| #[trigger] r@.contains(id) <==> exists|k: int| 0 <= k < nodes@.len() && nodes@[k].id == id,
{
    let mut ids: HashSet<i64> = HashSet::new();
    let mut i: usize = 0;
    while i < nodes.len()
        invariant
            i <= nodes@.len(),
            forall|id: i64| #[trigger] ids@.contains(id) <==> exists|k: int| 0 <= k < i && nodes@[k].id == id,
        decreases nodes@.len() - i,
    {
        ids.insert(nodes[i].id);
        proof {
            assert forall|id: i64| #[trigger] ids@.contains(id) <==> exists|k: int| 0 <= k < i + 1 && nodes@[k].id == id by {
                if id == nodes@[i as int].id {
                    assert(nodes@[i as int].id == id);
                }
            }
        }
        i = i + 1;
    }
    ids
}


// ---------------------------------------------------------------------------------------
// Nodes that two ways share but no node element defines
// ---------------------------------------------------------------------------------------

/// `m` after appending `eid` to the entry of each id of `ids`, in order.
pub open spec fn add_memberships(m: Map<i64, Seq<i64>>, ids: Seq<i64>, eid: i64) -> Map<
    i64,
    Seq<i64>,
>
    decreases ids.len(),
{
    if ids.len() == 0 {
        m
    } else {
        let m2 = add_memberships(m, ids.drop_last(), eid);
        let k = ids.last();
        m2.insert(
            k,
            if m2.contains_key(k) {
                m2[k].push(eid)
            } else {
                seq![eid]
            },
        )
    }
}

/// For each node id that a `Way` element with a node list names, the ids of those elements,
/// once per occurrence, in the order of the elements and of their node lists.
pub open spec fn memberships(s: Seq<RailwayElement>) -> Map<i64, Seq<i64>>
    decreases s.len(),
{
    if s.len() == 0 {
        Map::empty()
    } else {
        let e = s.last();
        let m = memberships(s.drop_last());
        if e.element_type == ElementType::Way && e.nodes is Some {
            add_memberships(m, e.nodes->0@, e.id)
        } else {
            m
        }
    }
}

/// The map `m` holds the same entries as `spec`, each vector viewed as a sequence.
pub open spec fn holds_memberships(m: Map<i64, Vec<i64>>, spec: Map<i64, Seq<i64>>) -> bool {
    &&& forall|k: i64| #[trigger] m.contains_key(k) <==> spec.contains_key(k)
    &&& forall|k: i64| #[trigger] m.contains_key(k) ==> m[k]@ == spec[k]
}

/// Maps each node id that a `Way` element names to the ids of the ways that name it, once
/// per occurrence, in order.
pub fn create_node_id_to_element_ids_map(elements: &[RailwayElement]) -> (r: HashMap<i64, Vec<i64>>)
    ensures
        holds_memberships(r@, memberships(elements@)),
{
    let mut map: HashMap<i64, Vec<i64>> = HashMap::new();
    let mut i: usize = 0;
    while i < elements.len()
        invariant
            i <= elements@.len(),
            holds_memberships(map@, memberships(elements@.subrange(0, i as int))),
        decreases elements@.len() - i,
    {
        let element = &elements[i];
        let ghost before = memberships(elements@.subrange(0, i as int));
        proof {
            assert(elements@.subrange(0, i + 1).drop_last() =~= elements@.subrange(0, i as int));
        }
        if let ElementType::Way = element.element_type {
            if let Some(element_nodes) = &element.nodes {
                let mut k: usize = 0;
                while k < element_nodes.len()
                    invariant
                        k <= element_nodes@.len(),
                        holds_memberships(
                            map@,
                            add_memberships(before, element_nodes@.subrange(0, k as int), element.id),
                        ),
                    decreases element_nodes@.len() - k,
                {
                    let node_id = element_nodes[k];
                    let ghost prev = add_memberships(before, element_nodes@.subrange(0, k as int), element.id);
                    proof {
                        assert(element_nodes@.subrange(0, k + 1).drop_last() =~= element_nodes@.subrange(0, k as int));
                    }
                    let mut ids = match map.remove(&node_id) {
                        Some(v) => v,
                        None => Vec::new(),
                    };
                    ids.push(element.id);
                    map.insert(node_id, ids);
                    proof {
                        let next = add_memberships(before, element_nodes@.subrange(0, k + 1), element.id);
                        assert forall|x: i64| #[trigger] map@.contains_key(x) implies map@[x]@ == next[x] by {
                            if x == node_id {
                                if prev.contains_key(x) {
                                    assert(map@[x]@ =~= prev[x].push(element.id));
                                } else {
                                    assert(map@[x]@ =~= seq![element.id]);
                                }
                            }
                        }
                    }
                    k = k + 1;
                }
                proof {
                    assert(element_nodes@.subrange(0, element_nodes@.len() as int) =~= element_nodes@);
                }
            }
        }
        i = i + 1;
    }
    proof {
        assert(elements@.subrange(0, elements@.len() as int) =~= elements@);
    }
    map
}

/// The position of the last element of `s` whose id is `id`.
pub open spec fn last_with_id(s: Seq<RailwayElement>, id: i64) -> Option<int>
    decreases s.len(),
{
    if s.len() == 0 {
        None
    } else if s.last().id == id {
        Some(s.len() - 1)
    } else {
        last_with_id(s.drop_last(), id)
    }
}

/// The last element with a given id is in range and has that id.
pub proof fn lemma_last_with_id_in_range(s: Seq<RailwayElement>, id: i64)
    ensures
        last_with_id(s, id) matches Some(p) ==> 0 <= p < s.len() && s[p].id == id,
    decreases s.len(),
{
    if s.len() > 0 {
        lemma_last_with_id_in_range(s.drop_last(), id);
    }
}

/// Maps each element id to the last element with that id.
pub fn create_id_to_element_map(elements: &[RailwayElement]) -> (r: HashMap<i64, usize>)
    ensures
        forall|id: i64| #[trigger] r@.contains_key(id) <==> last_with_id(elements@, id) is Some,
        forall|id: i64| #[trigger] r@.contains_key(id) ==> r@[id] == last_with_id(elements@, id)->0,
{
    let mut map: HashMap<i64, usize> = HashMap::new();
    let mut i: usize = 0;
    while i < elements.len()
        invariant
            i <= elements@.len(),
            forall|id: i64| #[trigger] map@.contains_key(id) <==> last_with_id(elements@.subrange(0, i as int), id) is Some,
            forall|id: i64| #[trigger] map@.contains_key(id) ==> map@[id] == last_with_id(elements@.subrange(0, i as int), id)->0,
        decreases elements@.len() - i,
    {
        proof {
            assert(elements@.subrange(0, i + 1).drop_last() =~= elements@.subrange(0, i as int));
        }
        map.insert(elements[i].id, i);
        i = i + 1;
    }
    proof {
        assert(elements@.subrange(0, elements@.len() as int) =~= elements@);
    }
    map
}

/// The geometry of the last element with id `id`, where there is one and it has a geometry.
pub open spec fn geometry_of(s: Seq<RailwayElement>, id: i64) -> Option<Seq<Coordinate>> {
    match last_with_id(s, id) {
        Some(p) => match s[p].geometry {
            Some(g) => Some(g@),
            None => None,
        },
        None => None,
    }
}

/// Node `k` is named by exactly two way memberships, `known` does not hold it, and the two
/// ways have geometries: a node to create between them.
pub open spec fn implicit_candidate(s: Seq<RailwayElement>, known: Set<i64>, k: i64) -> bool {
    let m = memberships(s);
    &&& m.contains_key(k)
    &&& m[k].len() == 2
    &&& !known.contains(k)
    &&& geometry_of(s, m[k][0]) is Some
    &&& geometry_of(s, m[k][1]) is Some
}

/// The two geometries of a candidate node.
pub open spec fn candidate_geometries(s: Seq<RailwayElement>, k: i64) -> (Seq<Coordinate>, Seq<Coordinate>) {
    let m = memberships(s);
    (geometry_of(s, m[k][0])->0, geometry_of(s, m[k][1])->0)
}

/// `ds[i][j]` is a distance that `distance` can return between `g1[i]` and `g2[j]`.
pub open spec fn pair_distances<F: Fn(Coordinate, Coordinate) -> u64>(
    distance: F,
    g1: Seq<Coordinate>,
    g2: Seq<Coordinate>,
    ds: Seq<Seq<u64>>,
) -> bool {
    &&& ds.len() == g1.len()
    &&& forall|i: int| 0 <= i < g1.len() ==> (#[trigger] ds[i]).len() == g2.len()
    &&& forall|i: int, j: int|
        0 <= i < g1.len() && 0 <= j < g2.len() ==> call_ensures(distance, (g1[i], g2[j]), #[trigger] ds[i][j])
}

/// Entry `(i, j)` comes before entry `(bi, bj)` when the rows are read in order, each from
/// its start.
pub open spec fn before(i: int, j: int, bi: int, bj: int) -> bool {
    i < bi || (i == bi && j < bj)
}

/// Row `bi` of `ds` holds the first smallest entry of all of `ds` (reading the rows in order,
/// each from its start) that is below `u64::MAX`: every entry is at least as large, and every
/// entry before it is larger. Where no entry is below `u64::MAX`, `bi` is 0.
pub open spec fn closest_row(ds: Seq<Seq<u64>>, bi: int) -> bool {
    if exists|i: int, j: int| 0 <= i < ds.len() && 0 <= j < ds[i].len() && #[trigger] ds[i][j] < u64::MAX {
        0 <= bi < ds.len() && exists|bj: int| 0 <= bj < ds[bi].len() && #[trigger] ds[bi][bj] < u64::MAX
            && (forall|i: int, j: int| 0 <= i < ds.len() && 0 <= j < ds[i].len() ==> ds[bi][bj] <= #[trigger] ds[i][j])
            && (forall|i: int, j: int| 0 <= i < ds.len() && 0 <= j < ds[i].len() && before(i, j, bi, bj) ==> ds[bi][bj] < #[trigger] ds[i][j])
    } else {
        bi == 0
    }
}

/// `n` is placed on the coordinate of the first geometry of its two ways that lies closest,
/// as `distance` measures, to a coordinate of the second.
pub open spec fn placed_closest<F: Fn(Coordinate, Coordinate) -> u64>(
    distance: F,
    s: Seq<RailwayElement>,
    n: RailwayNode,
) -> bool {
    let (g1, g2) = candidate_geometries(s, n.id);
    exists|ds: Seq<Seq<u64>>, bi: int| #[trigger] pair_distances(distance, g1, g2, ds) && #[trigger] closest_row(ds, bi)
        && 0 <= bi < g1.len() && n.lat == g1[bi].lat && n.lon == g1[bi].lon
}

/// Finds the coordinate of `g1` that lies closest to a coordinate of `g2`; the first
/// coordinate of `g1` where no distance is below `u64::MAX`.
fn closest_coordinate<F: Fn(Coordinate, Coordinate) -> u64>(
    g1: &Vec<Coordinate>,
    g2: &Vec<Coordinate>,
    distance: &F,
) -> (r: Coordinate)
    requires
        g1@.len() >= 1,
        g2@.len() >= 1,
        forall|a: Coordinate, b: Coordinate| distance.requires((a, b)),
    ensures
        exists|ds: Seq<Seq<u64>>, bi: int| #[trigger] pair_distances(*distance, g1@, g2@, ds) && #[trigger] closest_row(ds, bi)
            && 0 <= bi < g1@.len() && r == g1@[bi],
{
    let mut min_distance: u64 = u64::MAX;
    let mut best: usize = 0;
    let ghost mut bj: int = 0;
    let ghost mut ds: Seq<Seq<u64>> = Seq::empty();
    let mut i: usize = 0;
    while i < g1.len()
        invariant
            forall|a: Coordinate, b: Coordinate| distance.requires((a, b)),
            g1@.len() >= 1,
            g2@.len() >= 1,
            i <= g1@.len(),
            ds.len() == i,
            forall|x: int| 0 <= x < i ==> (#[trigger] ds[x]).len() == g2@.len(),
            forall|x: int, y: int|
                0 <= x < i && 0 <= y < g2@.len() ==> call_ensures(*distance, (g1@[x], g2@[y]), #[trigger] ds[x][y]),
            best < g1@.len(),
            0 <= bj < g2@.len(),
            min_distance < u64::MAX ==> best < i && ds[best as int][bj] == min_distance,
            min_distance == u64::MAX ==> best == 0,
            forall|x: int, y: int| 0 <= x < i && 0 <= y < g2@.len() ==> min_distance <= #[trigger] ds[x][y],
            min_distance < u64::MAX ==> forall|x: int, y: int|
                0 <= x < i && 0 <= y < g2@.len() && before(x, y, best as int, bj) ==> min_distance < #[trigger] ds[x][y],
        decreases g1@.len() - i,
    {
        let ghost mut row_g: Seq<u64> = Seq::empty();
        let mut j: usize = 0;
        while j < g2.len()
            invariant
                forall|a: Coordinate, b: Coordinate| distance.requires((a, b)),
                g1@.len() >= 1,
                g2@.len() >= 1,
                i < g1@.len(),
                j <= g2@.len(),
                ds.len() == i,
                row_g.len() == j,
                forall|x: int| 0 <= x < i ==> (#[trigger] ds[x]).len() == g2@.len(),
                forall|x: int, y: int|
                    0 <= x < i && 0 <= y < g2@.len() ==> call_ensures(*distance, (g1@[x], g2@[y]), #[trigger] ds[x][y]),
                forall|y: int| 0 <= y < j ==> call_ensures(*distance, (g1@[i as int], g2@[y]), #[trigger] row_g[y]),
                best < g1@.len(),
                0 <= bj < g2@.len(),
                min_distance < u64::MAX ==> (best < i && ds[best as int][bj] == min_distance) || (best == i && bj < j && row_g[bj] == min_distance),
                min_distance == u64::MAX ==> best == 0,
                forall|x: int, y: int| 0 <= x < i && 0 <= y < g2@.len() ==> min_distance <= #[trigger] ds[x][y],
                forall|y: int| 0 <= y < j ==> min_distance <= #[trigger] row_g[y],
                min_distance < u64::MAX ==> forall|x: int, y: int|
                    0 <= x < i && 0 <= y < g2@.len() && before(x, y, best as int, bj) ==> min_distance < #[trigger] ds[x][y],
                min_distance < u64::MAX && best == i ==> forall|y: int| 0 <= y < bj ==> min_distance < #[trigger] row_g[y],
            decreases g2@.len() - j,
        {
            let d = distance(g1[i], g2[j]);
            if d < min_distance {
                min_distance = d;
                best = i;
                proof {
                    bj = j as int;
                }
            }
            proof {
                row_g = row_g.push(d);
            }
            j = j + 1;
        }
        proof {
            ds = ds.push(row_g);
            assert(ds[i as int] == row_g);
        }
        i = i + 1;
    }
    proof {
        assert(pair_distances(*distance, g1@, g2@, ds));
        if exists|x: int, y: int| 0 <= x < ds.len() && 0 <= y < ds[x].len() && #[trigger] ds[x][y] < u64::MAX {
            let (x, y) = choose|x: int, y: int| 0 <= x < ds.len() && 0 <= y < ds[x].len() && #[trigger] ds[x][y] < u64::MAX;
            assert(min_distance <= ds[x][y]);
            assert(ds[best as int][bj] < u64::MAX);
        }
        assert(closest_row(ds, best as int));
    }
    g1[best]
}

/// `add_memberships` adds entries for exactly the ids it is given.
pub proof fn lemma_add_memberships_keys(m: Map<i64, Seq<i64>>, ids: Seq<i64>, eid: i64)
    ensures
        forall|k: i64| #[trigger] add_memberships(m, ids, eid).contains_key(k) <==> (m.contains_key(k) || ids.contains(k)),
    decreases ids.len(),
{
    if ids.len() > 0 {
        lemma_add_memberships_keys(m, ids.drop_last(), eid);
        assert forall|k: i64| #[trigger] add_memberships(m, ids, eid).contains_key(k) <==> (m.contains_key(k) || ids.contains(k)) by {
            assert(add_memberships(m, ids.drop_last(), eid).contains_key(k) == (m.contains_key(k) || ids.drop_last().contains(k)));
            if k == ids.last() {
                assert(ids[ids.len() - 1] == k);
            }
            if ids.drop_last().contains(k) {
                let w = choose|w: int| 0 <= w < ids.drop_last().len() && ids.drop_last()[w] == k;
                assert(ids[w] == k);
            }
            if ids.contains(k) && k != ids.last() {
                let w = choose|w: int| 0 <= w < ids.len() && ids[w] == k;
                assert(ids.drop_last()[w] == k);
            }
        }
    }
}

/// Creates the nodes that two ways share but that `node_ids` does not hold: for each node id
/// that exactly two way memberships name, where both ways have a geometry, a node placed on
/// the coordinate of the first way's geometry that lies closest to the second way's geometry
/// (as `distance` measures). Adds the ids of the new nodes to `node_ids`. Each such node is
/// created once; the order of the result is not part of the contract.
pub fn create_nodes_from_way_elements_without_existing<F: Fn(Coordinate, Coordinate) -> u64>(
    elements: &[RailwayElement],
    node_ids: &mut HashSet<i64>,
    distance: &F,
) -> (r: Vec<RailwayNode>)
    requires
        forall|a: Coordinate, b: Coordinate| distance.requires((a, b)),
        forall|k: i64|
            #[trigger] implicit_candidate(elements@, old(node_ids)@, k) ==> candidate_geometries(elements@, k).0.len() >= 1
                && candidate_geometries(elements@, k).1.len() >= 1,
    ensures
        forall|k: i64|
            #[trigger] final(node_ids)@.contains(k) <==> (old(node_ids)@.contains(k) || implicit_candidate(
                elements@,
                old(node_ids)@,
                k,
            )),
        forall|m: int|
            0 <= m < r@.len() ==> implicit_candidate(elements@, old(node_ids)@, (#[trigger] r@[m]).id)
                && placed_closest(*distance, elements@, r@[m]),
        forall|k: i64|
            #[trigger] implicit_candidate(elements@, old(node_ids)@, k) ==> exists|m: int|
                0 <= m < r@.len() && #[trigger] r@[m].id == k,
        forall|m1: int, m2: int| 0 <= m1 < r@.len() && 0 <= m2 < r@.len() && m1 != m2 ==> r@[m1].id != r@[m2].id,
{
    let ghost s = elements@;
    let ghost known = old(node_ids)@;
    let node_id_to_element_ids = create_node_id_to_element_ids_map(elements);
    let id_to_element_map = create_id_to_element_map(elements);
    let mut new_nodes: Vec<RailwayNode> = Vec::new();
    let ghost mut seen: Set<i64> = Set::empty();
    let mut i: usize = 0;
    while i < elements.len()
        invariant
            s == elements@,
            forall|a: Coordinate, b: Coordinate| distance.requires((a, b)),
            forall|k: i64|
                #[trigger] implicit_candidate(s, known, k) ==> candidate_geometries(s, k).0.len() >= 1
                    && candidate_geometries(s, k).1.len() >= 1,
            holds_memberships(node_id_to_element_ids@, memberships(s)),
            forall|id: i64| #[trigger] id_to_element_map@.contains_key(id) <==> last_with_id(s, id) is Some,
            forall|id: i64| #[trigger] id_to_element_map@.contains_key(id) ==> id_to_element_map@[id] == last_with_id(s, id)->0,
            i <= s.len(),
            forall|k: i64| #[trigger] memberships(s.subrange(0, i as int)).contains_key(k) ==> seen.contains(k),
            forall|k: i64| #[trigger] node_ids@.contains(k) <==> (known.contains(k) || (seen.contains(k) && implicit_candidate(s, known, k))),
            forall|m: int| 0 <= m < new_nodes@.len() ==> seen.contains((#[trigger] new_nodes@[m]).id)
                && implicit_candidate(s, known, new_nodes@[m].id) && placed_closest(*distance, s, new_nodes@[m]),
            forall|k: i64| seen.contains(k) && #[trigger] implicit_candidate(s, known, k) ==> exists|m: int|
                0 <= m < new_nodes@.len() && #[trigger] new_nodes@[m].id == k,
            forall|m1: int, m2: int| 0 <= m1 < new_nodes@.len() && 0 <= m2 < new_nodes@.len() && m1 != m2 ==> new_nodes@[m1].id != new_nodes@[m2].id,
        decreases s.len() - i,
    {
        let element = &elements[i];
        let ghost before = memberships(s.subrange(0, i as int));
        proof {
            assert(s.subrange(0, i + 1).drop_last() =~= s.subrange(0, i as int));
        }
        if let ElementType::Way = element.element_type {
            if let Some(element_nodes) = &element.nodes {
                let mut p: usize = 0;
                while p < element_nodes.len()
                    invariant
                        s == elements@,
                        forall|a: Coordinate, b: Coordinate| distance.requires((a, b)),
                        forall|k: i64|
                            #[trigger] implicit_candidate(s, known, k) ==> candidate_geometries(s, k).0.len() >= 1
                                && candidate_geometries(s, k).1.len() >= 1,
                        holds_memberships(node_id_to_element_ids@, memberships(s)),
                        forall|id: i64| #[trigger] id_to_element_map@.contains_key(id) <==> last_with_id(s, id) is Some,
                        forall|id: i64| #[trigger] id_to_element_map@.contains_key(id) ==> id_to_element_map@[id] == last_with_id(s, id)->0,
                        p <= element_nodes@.len(),
                        forall|k: i64| #[trigger] before.contains_key(k) ==> seen.contains(k),
                        forall|w: int| 0 <= w < p ==> seen.contains(#[trigger] element_nodes@[w]),
                        forall|k: i64| #[trigger] node_ids@.contains(k) <==> (known.contains(k) || (seen.contains(k) && implicit_candidate(s, known, k))),
                        forall|m: int| 0 <= m < new_nodes@.len() ==> seen.contains((#[trigger] new_nodes@[m]).id)
                            && implicit_candidate(s, known, new_nodes@[m].id) && placed_closest(*distance, s, new_nodes@[m]),
                        forall|k: i64| seen.contains(k) && #[trigger] implicit_candidate(s, known, k) ==> exists|m: int|
                            0 <= m < new_nodes@.len() && #[trigger] new_nodes@[m].id == k,
                        forall|m1: int, m2: int| 0 <= m1 < new_nodes@.len() && 0 <= m2 < new_nodes@.len() && m1 != m2 ==> new_nodes@[m1].id != new_nodes@[m2].id,
                    decreases element_nodes@.len() - p,
                {
                    let node_id = element_nodes[p];
                    let ghost old_nodes = new_nodes@;
                    let mut created = false;
                    if let Some(element_ids) = node_id_to_element_ids.get(&node_id) {
                        if element_ids.len() == 2 && !node_ids.contains(&node_id) {
                            let e1 = id_to_element_map.get(&element_ids[0]);
                            let e2 = id_to_element_map.get(&element_ids[1]);
                            if let (Some(p1), Some(p2)) = (e1, e2) {
                                proof {
                                    lemma_last_with_id_in_range(s, element_ids@[0]);
                                    lemma_last_with_id_in_range(s, element_ids@[1]);
                                }
                                if let (Some(geometry1), Some(geometry2)) = (&elements[*p1].geometry, &elements[*p2].geometry) {
                                    proof {
                                        assert(implicit_candidate(s, known, node_id));
                                    }
                                    let closest = closest_coordinate(geometry1, geometry2, distance);
                                    let node = RailwayNode { id: node_id, lat: closest.lat, lon: closest.lon };
                                    proof {
                                        assert(element_ids@ == memberships(s)[node_id]);
                                        assert(geometry_of(s, element_ids@[0]) == Some(geometry1@));
                                        assert(geometry_of(s, element_ids@[1]) == Some(geometry2@));
                                        assert(candidate_geometries(s, node_id) == (geometry1@, geometry2@));
                                        let (ds, bi) = choose|ds: Seq<Seq<u64>>, bi: int| #[trigger] pair_distances(*distance, geometry1@, geometry2@, ds) && #[trigger] closest_row(ds, bi)
                                            && 0 <= bi < geometry1@.len() && closest == geometry1@[bi];
                                        assert(pair_distances(*distance, geometry1@, geometry2@, ds) && closest_row(ds, bi));
                                        assert(node.lat == geometry1@[bi].lat && node.lon == geometry1@[bi].lon);
                                        let g1 = candidate_geometries(s, node.id).0;
                                        let g2 = candidate_geometries(s, node.id).1;
                                        assert(g1 == geometry1@ && g2 == geometry2@);
                                        assert(pair_distances(*distance, g1, g2, ds) && closest_row(ds, bi) && 0 <= bi < g1.len() && node.lat == g1[bi].lat && node.lon == g1[bi].lon);
                                        assert(placed_closest(*distance, s, node));
                                        assert(!seen.contains(node_id) || !implicit_candidate(s, known, node_id) || node_ids@.contains(node_id));
                                    }
                                    new_nodes.push(node);
                                    node_ids.insert(node_id);
                                    created = true;
                                }
                            }
                        }
                    }
                    proof {
                        let old_seen = seen;
                        seen = seen.insert(node_id);
                        if !created {
                            // not a candidate, or already created
                            if implicit_candidate(s, known, node_id) {
                                assert(node_id_to_element_ids@.contains_key(node_id));
                                assert(old_seen.contains(node_id));
                            }
                        }
                        assert forall|k: i64| seen.contains(k) && #[trigger] implicit_candidate(s, known, k) implies exists|m: int|
                            0 <= m < new_nodes@.len() && #[trigger] new_nodes@[m].id == k by {
                            if k == node_id && created {
                                assert(new_nodes@[new_nodes@.len() - 1].id == k);
                            } else {
                                assert(old_seen.contains(k));
                                let m = choose|m: int| 0 <= m < old_nodes.len() && #[trigger] old_nodes[m].id == k;
                                assert(new_nodes@[m] == old_nodes[m]);
                            }
                        }
                    }
                    p = p + 1;
                }
                proof {
                    lemma_add_memberships_keys(before, element_nodes@, element.id);
                    assert forall|k: i64| #[trigger] memberships(s.subrange(0, i + 1)).contains_key(k) implies seen.contains(k) by {
                        if element_nodes@.contains(k) {
                            let w = choose|w: int| 0 <= w < element_nodes@.len() && element_nodes@[w] == k;
                        }
                    }
                }
            }
        }
        i = i + 1;
    }
    proof {
        assert(s.subrange(0, s.len() as int) =~= s);
    }
    new_nodes
}

// ---------------------------------------------------------------------------------------
// All nodes, and the graph
// ---------------------------------------------------------------------------------------

/// The ids of `ns`.
pub open spec fn ids_of_nodes(ns: Seq<RailwayNode>) -> Set<i64> {
    Set::new(|id: i64| exists|k: int| 0 <= k < ns.len() && ns[k].id == id)
}

/// No two nodes of `ns` share an id.
pub open spec fn distinct_ids(ns: Seq<RailwayNode>) -> bool {
    forall|a: int, b: int| 0 <= a < ns.len() && 0 <= b < ns.len() && a != b ==> ns[a].id != ns[b].id
}

/// The ways that share a node which no node element defines have non-empty geometries.
pub open spec fn implicit_geometries_nonempty(s: Seq<RailwayElement>) -> bool {
    forall|k: i64|
        #[trigger] implicit_candidate(s, ids_of_nodes(element_nodes(s)), k) ==> candidate_geometries(s, k).0.len() >= 1
            && candidate_geometries(s, k).1.len() >= 1
}

/// `ns` are the nodes that the elements `s` define: the nodes of the node elements, in order,
/// then one node for each node id that two ways share and no node element defines, placed as
/// `distance` measures (in no stated order).
pub open spec fn created_nodes<F: Fn(Coordinate, Coordinate) -> u64>(
    distance: F,
    s: Seq<RailwayElement>,
    ns: Seq<RailwayNode>,
) -> bool {
    let en = element_nodes(s);
    let known = ids_of_nodes(en);
    &&& ns.len() >= en.len()
    &&& ns.subrange(0, en.len() as int) == en
    &&& forall|m: int|
        en.len() <= m < ns.len() ==> implicit_candidate(s, known, (#[trigger] ns[m]).id) && placed_closest(
            distance,
            s,
            ns[m],
        )
    &&& forall|k: i64| #[trigger]
        implicit_candidate(s, known, k) ==> exists|m: int| en.len() <= m < ns.len() && #[trigger] ns[m].id == k
    &&& forall|a: int, b: int| en.len() <= a < ns.len() && en.len() <= b < ns.len() && a != b ==> ns[a].id != ns[b].id
}

/// Creates the nodes of a railway network: the nodes of the node elements, followed by the
/// nodes that two ways share but no node element defines.
pub fn create_nodes<F: Fn(Coordinate, Coordinate) -> u64>(
    elements: &[RailwayElement],
    distance: &F,
) -> (r: Vec<RailwayNode>)
    requires
        forall|a: Coordinate, b: Coordinate| distance.requires((a, b)),
        implicit_geometries_nonempty(elements@),
    ensures
        created_nodes(*distance, elements@, r@),
{
    let nodes = create_nodes_from_node_elements(elements);
    let mut node_ids = node_ids_from_nodes(&nodes);
    proof {
        assert(node_ids@ =~= ids_of_nodes(element_nodes(elements@)));
    }
    let implicit_nodes = create_nodes_from_way_elements_without_existing(elements, &mut node_ids, distance);
    let mut all = nodes;
    let mut k: usize = 0;
    let ghost en = all@;
    while k < implicit_nodes.len()
        invariant
            en == element_nodes(elements@),
            k <= implicit_nodes@.len(),
            all@ == en + implicit_nodes@.subrange(0, k as int),
        decreases implicit_nodes@.len() - k,
    {
        all.push(implicit_nodes[k]);
        proof {
            assert(all@ =~= en + implicit_nodes@.subrange(0, k + 1));
        }
        k = k + 1;
    }
    proof {
        assert(implicit_nodes@.subrange(0, k as int) =~= implicit_nodes@);
        let ns = all@;
        assert(ns.subrange(0, en.len() as int) =~= en);
        assert forall|m: int| en.len() <= m < ns.len() implies ns[m] == implicit_nodes@[m - en.len()] by {}
        assert forall|kk: i64| #[trigger] implicit_candidate(elements@, ids_of_nodes(en), kk) implies exists|m: int| en.len() <= m < ns.len() && #[trigger] ns[m].id == kk by {
            let m = choose|m: int| 0 <= m < implicit_nodes@.len() && #[trigger] implicit_nodes@[m].id == kk;
            assert(ns[m + en.len()] == implicit_nodes@[m]);
        }
    }
    all
}

/// The coordinate of a node.
pub open spec fn position(n: RailwayNode) -> Coordinate {
    Coordinate { lat: n.lat, lon: n.lon }
}

/// The ids of the two nodes that the edge for element `e` joins: the first node of its node
/// list that `indices` holds, and the next one after it. `None` where `e` is no way with a
/// node list and a geometry, or where the two nodes are not found.
pub open spec fn way_endpoints(e: RailwayElement, indices: Map<i64, usize>) -> Option<(i64, i64)> {
    if e.element_type == ElementType::Way && e.nodes is Some && e.geometry is Some {
        let ids = e.nodes->0@;
        let first = next_existing_node(None, ids, indices);
        let next = next_existing_node(first.0, ids, indices);
        if first.1 is Some && next.1 is Some {
            Some((first.0->0, next.0->0))
        } else {
            None
        }
    } else {
        None
    }
}

/// The edges the elements `s` define, in order: the position of the way element and the
/// ids of the two nodes it joins.
pub open spec fn planned_edges(s: Seq<RailwayElement>, indices: Map<i64, usize>) -> Seq<(int, i64, i64)>
    decreases s.len(),
{
    if s.len() == 0 {
        seq![]
    } else {
        planned_edges(s.drop_last(), indices) + match way_endpoints(s.last(), indices) {
            Some((a, b)) => seq![(s.len() - 1, a, b)],
            None => seq![],
        }
    }
}

/// The length of `edge` is the sum of the distances (by `length_mm`) along geometry `g`, and
/// its path is `g`, reversed where `n1` lies farther from the start of `g` than `n2` does
/// (by `great_circle_mm`).
pub open spec fn edge_measured<L: Fn(Coordinate, Coordinate) -> u64, H: Fn(Coordinate, Coordinate) -> u64>(
    length_mm: L,
    great_circle_mm: H,
    g: Seq<Coordinate>,
    n1: RailwayNode,
    n2: RailwayNode,
    edge: crate::railway_model::RailwayEdge,
) -> bool {
    &&& exists|ds: Seq<u64>| #[trigger] segment_distances(length_mm, g, ds) && edge.length == capped(sum_of(ds))
    &&& exists|d1: u64, d2: u64|
        #[trigger] call_ensures(great_circle_mm, (position(n1), g[0]), d1) && #[trigger] call_ensures(
            great_circle_mm,
            (position(n2), g[0]),
            d2,
        ) && edge.path@ == if d1 > d2 {
            g.reverse()
        } else {
            g
        }
}

/// The coordinates of `g`, in reverse order.
fn reversed_coordinates(g: &Vec<Coordinate>) -> (r: Vec<Coordinate>)
    ensures
        r@ == g@.reverse(),
{
    let mut r: Vec<Coordinate> = Vec::new();
    let mut k: usize = g.len();
    while k > 0
        invariant
            k <= g@.len(),
            r@ == g@.subrange(k as int, g@.len() as int).reverse(),
        decreases k,
    {
        k = k - 1;
        r.push(g[k]);
        proof {
            assert(r@ =~= g@.subrange(k as int, g@.len() as int).reverse());
        }
    }
    proof {
        assert(g@.subrange(0, g@.len() as int) =~= g@);
    }
    r
}

/// The map from each node id of `ns` to its position, where the ids are distinct.
pub open spec fn index_map(ns: Seq<RailwayNode>) -> Map<i64, usize> {
    Map::new(
        |id: i64| exists|k: int| 0 <= k < ns.len() && ns[k].id == id,
        |id: i64| (choose|k: int| 0 <= k < ns.len() && ns[k].id == id) as usize,
    )
}

/// The map that `memberships` builds has a finite domain.
pub proof fn lemma_memberships_finite(s: Seq<RailwayElement>)
    ensures
        memberships(s).dom().finite(),
    decreases s.len(),
{
    if s.len() > 0 {
        lemma_memberships_finite(s.drop_last());
        let e = s.last();
        if e.element_type == ElementType::Way && e.nodes is Some {
            lemma_add_memberships_finite(memberships(s.drop_last()), e.nodes->0@, e.id);
        }
    }
}

proof fn lemma_add_memberships_finite(m: Map<i64, Seq<i64>>, ids: Seq<i64>, eid: i64)
    requires
        m.dom().finite(),
    ensures
        add_memberships(m, ids, eid).dom().finite(),
    decreases ids.len(),
{
    if ids.len() > 0 {
        lemma_add_memberships_finite(m, ids.drop_last(), eid);
    }
}

/// The created nodes have distinct ids, and there are no more of them than the node elements
/// and the node ids that ways name together.
proof fn lemma_created_nodes_distinct<F: Fn(Coordinate, Coordinate) -> u64>(
    distance: F,
    s: Seq<RailwayElement>,
    ns: Seq<RailwayNode>,
)
    requires
        created_nodes(distance, s, ns),
        distinct_ids(element_nodes(s)),
    ensures
        distinct_ids(ns),
        ns.len() <= element_nodes(s).len() + memberships(s).dom().len(),
{
    let en = element_nodes(s);
    let known = ids_of_nodes(en);
    assert forall|a: int, b: int| 0 <= a < ns.len() && 0 <= b < ns.len() && a != b implies ns[a].id != ns[b].id by {
        if a < en.len() && b < en.len() {
            assert(ns[a] == en[a] && ns[b] == en[b]);
        } else if a >= en.len() && b >= en.len() {
        } else if a < en.len() {
            assert(ns[a] == en[a]);
            assert(known.contains(en[a].id));
            assert(implicit_candidate(s, known, ns[b].id));
        } else {
            assert(ns[b] == en[b]);
            assert(known.contains(en[b].id));
            assert(implicit_candidate(s, known, ns[a].id));
        }
    }
    let tail = ns.subrange(en.len() as int, ns.len() as int);
    let tail_ids = tail.map_values(|n: RailwayNode| n.id);
    assert forall|a: int, b: int| 0 <= a < tail_ids.len() && 0 <= b < tail_ids.len() && a != b implies tail_ids[a] != tail_ids[b] by {
        assert(tail_ids[a] == ns[a + en.len()].id && tail_ids[b] == ns[b + en.len()].id);
    }
    assert(tail_ids.no_duplicates());
    tail_ids.unique_seq_to_set();
    lemma_memberships_finite(s);
    assert forall|id: i64| tail_ids.to_set().contains(id) implies memberships(s).dom().contains(id) by {
        let a = choose|a: int| 0 <= a < tail_ids.len() && tail_ids[a] == id;
        assert(implicit_candidate(s, known, ns[a + en.len()].id));
    }
    vstd::set_lib::lemma_len_subset(tail_ids.to_set(), memberships(s).dom());
}

/// A way element with a node list and a geometry has a non-empty geometry.
pub open spec fn way_geometries_nonempty(s: Seq<RailwayElement>) -> bool {
    forall|p: int|
        0 <= p < s.len() && (#[trigger] s[p]).element_type == ElementType::Way && s[p].nodes is Some
            && s[p].geometry is Some ==> s[p].geometry->0@.len() >= 1
}

/// The domain of the node index map that `from_railway_elements` builds: the ids of the node
/// elements and of the nodes that two ways share.
pub open spec fn node_domain(s: Seq<RailwayElement>) -> Map<i64, usize> {
    let known = ids_of_nodes(element_nodes(s));
    Map::new(|id: i64| known.contains(id) || implicit_candidate(s, known, id), |id: i64| 0usize)
}

/// No way element's edge would join a node to itself.
pub open spec fn ways_join_distinct_nodes(s: Seq<RailwayElement>) -> bool {
    forall|p: int|
        0 <= p < s.len() ==> (way_endpoints(#[trigger] s[p], node_domain(s)) matches Some((a, b)) ==> a != b)
}

/// The edge at position `k` of `g` is the one that `planned_edges` names there, with the
/// node indices, id, ends, length and path it describes.
pub open spec fn edge_as_planned<L: Fn(Coordinate, Coordinate) -> u64, H: Fn(Coordinate, Coordinate) -> u64>(
    length_mm: L,
    great_circle_mm: H,
    s: Seq<RailwayElement>,
    nodes: Seq<RailwayNode>,
    indices: Map<i64, usize>,
    plan: (int, i64, i64),
    e: crate::railway_model::EdgeEntry,
) -> bool {
    let (p, a, b) = plan;
    &&& 0 <= p < s.len()
    &&& indices.contains_key(a)
    &&& indices.contains_key(b)
    &&& e.0 == indices[a]
    &&& e.1 == indices[b]
    &&& e.2.id == s[p].id
    &&& e.2.source == a
    &&& e.2.target == b
    &&& edge_measured(length_mm, great_circle_mm, s[p].geometry->0@, nodes[e.0 as int], nodes[e.1 as int], e.2)
}

proof fn lemma_planned_edges_prefix(s: Seq<RailwayElement>, indices: Map<i64, usize>, i: int)
    requires
        0 <= i < s.len(),
    ensures
        planned_edges(s.subrange(0, i + 1), indices) == planned_edges(s.subrange(0, i), indices) + match way_endpoints(s[i], indices) {
            Some((a, b)) => seq![(i, a, b)],
            None => Seq::<(int, i64, i64)>::empty(),
        },
{
    assert(s.subrange(0, i + 1).drop_last() =~= s.subrange(0, i));
    assert(s.subrange(0, i + 1).last() == s[i]);
}

proof fn lemma_next_existing_in_map(start: Option<i64>, ids: Seq<i64>, indices: Map<i64, usize>)
    ensures
        next_existing_node(start, ids, indices).1 is Some ==> next_existing_node(start, ids, indices).0 is Some
            && indices.contains_key(next_existing_node(start, ids, indices).0->0)
            && next_existing_node(start, ids, indices).1->0 == indices[next_existing_node(start, ids, indices).0->0],
{
    let k0 = search_start(start, ids);
    lemma_existing_from_found(ids, indices, k0);
}

proof fn lemma_existing_from_found(ids: Seq<i64>, indices: Map<i64, usize>, k: int)
    ensures
        existing_from(ids, indices, k) matches Some(j) ==> 0 <= j < ids.len() && indices.contains_key(ids[j]),
    decreases ids.len() - k,
{
    if 0 <= k < ids.len() && !indices.contains_key(ids[k]) {
        lemma_existing_from_found(ids, indices, k + 1);
    }
}

/// Creates a `RailwayGraph` from railway elements: a node for each node element with a
/// position and for each node that two ways share (see `create_nodes`), and for each way with
/// a node list and a geometry whose first two nodes that the graph holds are found, an edge
/// between them whose length is measured along the geometry by `length_mm` and whose path is
/// the geometry, reversed where the first node lies farther from its start than the second
/// (by `great_circle_mm`).
pub fn from_railway_elements<L: Fn(Coordinate, Coordinate) -> u64, H: Fn(Coordinate, Coordinate) -> u64>(
    elements: &[RailwayElement],
    length_mm: &L,
    great_circle_mm: &H,
) -> (r: crate::railway_model::RailwayGraph)
    requires
        forall|a: Coordinate, b: Coordinate| length_mm.requires((a, b)),
        forall|a: Coordinate, b: Coordinate| great_circle_mm.requires((a, b)),
        implicit_geometries_nonempty(elements@),
        distinct_ids(element_nodes(elements@)),
        way_geometries_nonempty(elements@),
        ways_join_distinct_nodes(elements@),
        element_nodes(elements@).len() + memberships(elements@).dom().len() < u32::MAX,
        elements@.len() < u32::MAX,
    ensures
        r.wf(),
        created_nodes(*great_circle_mm, elements@, r.nodes()),
        r.edges().len() == planned_edges(elements@, r.node_indices@).len(),
        forall|k: int|
            0 <= k < r.edges().len() ==> edge_as_planned(
                *length_mm,
                *great_circle_mm,
                elements@,
                r.nodes(),
                r.node_indices@,
                planned_edges(elements@, r.node_indices@)[k],
                #[trigger] r.edges()[k],
            ),
{
    let ghost s = elements@;
    let nodes = create_nodes(elements, great_circle_mm);
    proof {
        lemma_created_nodes_distinct(*great_circle_mm, s, nodes@);
    }
    let mut graph = graph_new();
    let mut node_indices: HashMap<i64, usize> = HashMap::new();
    let mut k: usize = 0;
    while k < nodes.len()
        invariant
            distinct_ids(nodes@),
            nodes@.len() < u32::MAX,
            k <= nodes@.len(),
            graph_nodes(graph) == nodes@.subrange(0, k as int),
            graph_edges(graph) == Seq::<crate::railway_model::EdgeEntry>::empty(),
            forall|id: i64| #[trigger] node_indices@.contains_key(id) ==> node_indices@[id] < k
                && nodes@[node_indices@[id] as int].id == id,
            forall|i: int| 0 <= i < k ==> node_indices@.contains_key(#[trigger] nodes@[i].id)
                && node_indices@[nodes@[i].id] == i,
        decreases nodes@.len() - k,
    {
        let node = nodes[k];
        let index = graph_add_node(&mut graph, node);
        node_indices.insert(node.id, index);
        proof {
            assert(graph_nodes(graph) =~= nodes@.subrange(0, k + 1));
            assert forall|i: int| 0 <= i < k + 1 implies node_indices@.contains_key(#[trigger] nodes@[i].id)
                && node_indices@[nodes@[i].id] == i by {
                if i < k {
                    assert(nodes@[i].id != nodes@[k as int].id);
                }
            }
        }
        k = k + 1;
    }
    proof {
        assert(nodes@.subrange(0, k as int) =~= nodes@);
    }
    let ghost ns = nodes@;
    let mut i: usize = 0;
    while i < elements.len()
        invariant
            s == elements@,
            forall|a: Coordinate, b: Coordinate| length_mm.requires((a, b)),
            forall|a: Coordinate, b: Coordinate| great_circle_mm.requires((a, b)),
            way_geometries_nonempty(s),
            s.len() < u32::MAX,
            i <= s.len(),
            graph_nodes(graph) == ns,
            ns.len() < u32::MAX,
            forall|id: i64| #[trigger] node_indices@.contains_key(id) ==> node_indices@[id] < ns.len()
                && ns[node_indices@[id] as int].id == id,
            forall|j: int| 0 <= j < ns.len() ==> node_indices@.contains_key(#[trigger] ns[j].id)
                && node_indices@[ns[j].id] == j,
            graph_edges(graph).len() == planned_edges(s.subrange(0, i as int), node_indices@).len(),
            graph_edges(graph).len() <= i,
            forall|j: int|
                0 <= j < graph_edges(graph).len() ==> edge_as_planned(
                    *length_mm,
                    *great_circle_mm,
                    s,
                    ns,
                    node_indices@,
                    planned_edges(s.subrange(0, i as int), node_indices@)[j],
                    #[trigger] graph_edges(graph)[j],
                ),
        decreases s.len() - i,
    {
        let element = &elements[i];
        proof {
            lemma_planned_edges_prefix(s, node_indices@, i as int);
        }
        let ghost old_edges = graph_edges(graph);
        if let ElementType::Way = element.element_type {
            if let (Some(nodes_ids), Some(geometry)) = (&element.nodes, &element.geometry) {
                proof {
                    assert(s[i as int] == *element);
                }
                let length = calculate_geometry_length(geometry.as_slice(), length_mm);
                let (node_id, node_index) = find_next_existing_node(None, nodes_ids.as_slice(), &node_indices);
                let (next_node_id, next_node_index) = find_next_existing_node(node_id, nodes_ids.as_slice(), &node_indices);
                proof {
                    lemma_next_existing_in_map(None, nodes_ids@, node_indices@);
                    lemma_next_existing_in_map(node_id, nodes_ids@, node_indices@);
                }
                if let (Some(a_index), Some(b_index)) = (node_index, next_node_index) {
                    let a_id = node_id.unwrap();
                    let b_id = next_node_id.unwrap();
                    let n1 = *graph_node(&graph, a_index);
                    let n2 = *graph_node(&graph, b_index);
                    let start = geometry[0];
                    let d1 = great_circle_mm(Coordinate { lat: n1.lat, lon: n1.lon }, start);
                    let d2 = great_circle_mm(Coordinate { lat: n2.lat, lon: n2.lon }, start);
                    let path = if d1 > d2 {
                        reversed_coordinates(geometry)
                    } else {
                        let copy = geometry.clone();
                        proof {
                            assert(copy@ =~= geometry@);
                        }
                        copy
                    };
                    let edge = crate::railway_model::RailwayEdge { id: element.id, length, path, source: a_id, target: b_id };
                    proof {
                        assert(edge_measured(*length_mm, *great_circle_mm, geometry@, n1, n2, edge));
                    }
                    graph_add_edge(&mut graph, a_index, b_index, edge);
                    proof {
                        let plan = planned_edges(s.subrange(0, i + 1), node_indices@);
                        assert(way_endpoints(s[i as int], node_indices@) == Some((a_id, b_id)));
                        assert forall|j: int| 0 <= j < graph_edges(graph).len() implies edge_as_planned(
                            *length_mm, *great_circle_mm, s, ns, node_indices@, plan[j], #[trigger] graph_edges(graph)[j]) by {
                            if j < old_edges.len() {
                                assert(graph_edges(graph)[j] == old_edges[j]);
                                assert(plan[j] == planned_edges(s.subrange(0, i as int), node_indices@)[j]);
                            } else {
                                assert(plan[j] == (i as int, a_id, b_id));
                            }
                        }
                    }
                } else {
                    proof {
                        assert(way_endpoints(s[i as int], node_indices@) is None);
                        assert(planned_edges(s.subrange(0, i + 1), node_indices@) =~= planned_edges(s.subrange(0, i as int), node_indices@));
                    }
                }
            } else {
                proof {
                    assert(planned_edges(s.subrange(0, i + 1), node_indices@) =~= planned_edges(s.subrange(0, i as int), node_indices@));
                }
            }
        } else {
            proof {
                assert(planned_edges(s.subrange(0, i + 1), node_indices@) =~= planned_edges(s.subrange(0, i as int), node_indices@));
            }
        }
        i = i + 1;
    }
    proof {
        assert(s.subrange(0, s.len() as int) =~= s);
    }
    let r = crate::railway_model::RailwayGraph { graph, node_indices };
    proof {
        assert forall|j: int| 0 <= j < r.edges().len() implies (#[trigger] r.edges()[j]).0 < r.nodes().len() && r.edges()[j].1 < r.nodes().len() by {
            let plan = planned_edges(s, node_indices@);
            assert(edge_as_planned(*length_mm, *great_circle_mm, s, ns, node_indices@, plan[j], graph_edges(r.graph)[j]));
        }
        assert(crate::petgraph_specs::edges_within(r.edges(), r.nodes().len()));
    }
    r
}
} // verus!
