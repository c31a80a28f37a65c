//! Whether elements can be imported: the conditions under which `from_railway_elements`
//! builds a graph rather than panicking, tested before the import.
use crate::coordinate::Coordinate;
use crate::importer::{
    create_node_id_to_element_ids_map, create_id_to_element_map, create_nodes,
    create_nodes_from_node_elements, created_nodes, distinct_ids, element_nodes, existing_from,
    find_next_existing_node, from_railway_elements, geometry_of, ids_of_nodes, implicit_candidate,
    implicit_geometries_nonempty, lemma_add_memberships_keys, lemma_last_with_id_in_range,
    memberships, next_existing_node, node_domain, node_ids_from_nodes, search_start, way_endpoints,
    way_geometries_nonempty, ways_join_distinct_nodes, candidate_geometries, edge_as_planned,
    planned_edges,
};
use crate::railway_element::{ElementType, RailwayElement};
use crate::railway_model::{RailwayGraph, RailwayNode};
use std::collections::{HashMap, HashSet};
use vstd::prelude::*;

verus! {

broadcast use vstd::std_specs::hash::group_hash_axioms;

/// The elements can be imported: `from_railway_elements` builds a graph from them (on other
/// elements it panics).
pub open spec fn importable(s: Seq<RailwayElement>) -> bool {
    &&& s.len() < u32::MAX
    &&& way_geometries_nonempty(s)
    &&& distinct_ids(element_nodes(s))
    &&& element_nodes(s).len() + memberships(s).dom().len() < u32::MAX
    &&& implicit_geometries_nonempty(s)
    &&& ways_join_distinct_nodes(s)
}

/// `existing_from` looks only at which ids a map holds.
proof fn lemma_existing_from_domain(ids: Seq<i64>, m1: Map<i64, usize>, m2: Map<i64, usize>, k: int)
    requires
        m1.dom() == m2.dom(),
    ensures
        existing_from(ids, m1, k) == existing_from(ids, m2, k),
    decreases ids.len() - k,
{
    if 0 <= k < ids.len() {
        assert(m1.contains_key(ids[k]) == m2.contains_key(ids[k]));
        lemma_existing_from_domain(ids, m1, m2, k + 1);
    }
}

/// `way_endpoints` looks only at which ids a map holds.
proof fn lemma_way_endpoints_domain(e: RailwayElement, m1: Map<i64, usize>, m2: Map<i64, usize>)
    requires
        m1.dom() == m2.dom(),
    ensures
        way_endpoints(e, m1) == way_endpoints(e, m2),
{
    if e.element_type == ElementType::Way && e.nodes is Some && e.geometry is Some {
        let ids = e.nodes->0@;
        lemma_existing_from_domain(ids, m1, m2, search_start(None, ids));
        let first = next_existing_node(None, ids, m1);
        lemma_existing_from_domain(ids, m1, m2, search_start(first.0, ids));
    }
}

/// The zero distance, for working out which nodes an import creates without placing them.
fn zero_distance(_a: Coordinate, _b: Coordinate) -> (r: u64)
    ensures
        r == 0,
{
    0
}

/// Whether no two of `nodes` share an id.
fn ids_distinct(nodes: &Vec<RailwayNode>) -> (r: bool)
    ensures
        r == distinct_ids(nodes@),
{
    let mut seen: HashSet<i64> = HashSet::new();
    let mut i: usize = 0;
    while i < nodes.len()
        invariant
            i <= nodes@.len(),
            distinct_ids(nodes@.subrange(0, i as int)),
            forall|id: i64| #[trigger] seen@.contains(id) <==> exists|k: int| 0 <= k < i && nodes@[k].id == id,
        decreases nodes@.len() - i,
    {
        let id = nodes[i].id;
        if seen.contains(&id) {
            proof {
                let k = choose|k: int| 0 <= k < i && nodes@[k].id == id;
                assert(nodes@[k].id == nodes@[i as int].id);
            }
            return false;
        }
        seen.insert(id);
        proof {
            let pre = nodes@.subrange(0, i as int);
            let next = nodes@.subrange(0, i + 1);
            assert forall|a: int, b: int|
                0 <= a < i + 1 && 0 <= b < i + 1 && a != b implies #[trigger] next[a].id != #[trigger] next[b].id by {
                assert(next[a] == nodes@[a]);
                assert(next[b] == nodes@[b]);
                if a < i && b < i {
                    assert(pre[a] == nodes@[a]);
                    assert(pre[b] == nodes@[b]);
                } else if a == i {
                    assert(nodes@[b].id != id) by {
                        if nodes@[b].id == id {
                            assert(exists|k: int| 0 <= k < i && nodes@[k].id == id);
                        }
                    }
                } else {
                    assert(nodes@[a].id != id) by {
                        if nodes@[a].id == id {
                            assert(exists|k: int| 0 <= k < i && nodes@[k].id == id);
                        }
                    }
                }
            }
            assert forall|x: i64| #[trigger] seen@.contains(x) <==> exists|k: int| 0 <= k < i + 1 && nodes@[k].id == x by {
                if x == id {
                    assert(nodes@[i as int].id == x);
                }
            }
        }
        i = i + 1;
    }
    proof {
        assert(nodes@.subrange(0, i as int) =~= nodes@);
    }
    true
}

/// Whether every way element with a node list and a geometry has a non-empty geometry.
fn way_geometries_checked(elements: &[RailwayElement]) -> (r: bool)
    ensures
        r == way_geometries_nonempty(elements@),
{
    let mut i: usize = 0;
    while i < elements.len()
        invariant
            i <= elements@.len(),
            forall|p: int|
                0 <= p < i && (#[trigger] elements@[p]).element_type == ElementType::Way && elements@[p].nodes is Some
                    && elements@[p].geometry is Some ==> elements@[p].geometry->0@.len() >= 1,
        decreases elements@.len() - i,
    {
        let e = &elements[i];
        if let ElementType::Way = e.element_type {
            if let (Some(_n), Some(g)) = (&e.nodes, &e.geometry) {
                if g.len() == 0 {
                    return false;
                }
            }
        }
        i = i + 1;
    }
    true
}

/// Whether the two ways of every node that two ways share and no node element defines have
/// non-empty geometries.
fn implicit_geometries_checked(elements: &[RailwayElement], nodes: &Vec<RailwayNode>) -> (r: bool)
    requires
        nodes@ == element_nodes(elements@),
    ensures
        r == implicit_geometries_nonempty(elements@),
{
    let ghost s = elements@;
    let known = node_ids_from_nodes(nodes.as_slice());
    proof {
        assert(known@ =~= ids_of_nodes(element_nodes(s)));
    }
    let memberships_map = create_node_id_to_element_ids_map(elements);
    let id_map = create_id_to_element_map(elements);
    let ghost kn = known@;
    let ghost mut seen: Set<i64> = Set::empty();
    let mut i: usize = 0;
    while i < elements.len()
        invariant
            s == elements@,
            kn == known@,
            kn == ids_of_nodes(element_nodes(s)),
            forall|k: i64| #[trigger] memberships_map@.contains_key(k) <==> memberships(s).contains_key(k),
            forall|k: i64| #[trigger] memberships_map@.contains_key(k) ==> memberships_map@[k]@ == memberships(s)[k],
            forall|id: i64| #[trigger] id_map@.contains_key(id) <==> crate::importer::last_with_id(s, id) is Some,
            forall|id: i64| #[trigger] id_map@.contains_key(id) ==> id_map@[id] == crate::importer::last_with_id(s, id)->0,
            i <= s.len(),
            forall|k: i64| #[trigger] memberships(s.subrange(0, i as int)).contains_key(k) ==> seen.contains(k),
            forall|k: i64| seen.contains(k) && #[trigger] implicit_candidate(s, kn, k) ==> candidate_geometries(s, k).0.len() >= 1
                && candidate_geometries(s, k).1.len() >= 1,
        decreases s.len() - i,
    {
        let element = &elements[i];
        let ghost before = memberships(s.subrange(0, i as int));
        proof {
            assert(s.subrange(0, i + 1).drop_last() =~= s.subrange(0, i as int));
        }
        if let ElementType::Way = element.element_type {
            if let Some(way_nodes) = &element.nodes {
                let mut p: usize = 0;
                while p < way_nodes.len()
                    invariant
                        s == elements@,
                        kn == known@,
                        kn == ids_of_nodes(element_nodes(s)),
                        forall|k: i64| #[trigger] memberships_map@.contains_key(k) <==> memberships(s).contains_key(k),
                        forall|k: i64| #[trigger] memberships_map@.contains_key(k) ==> memberships_map@[k]@ == memberships(s)[k],
                        forall|id: i64| #[trigger] id_map@.contains_key(id) <==> crate::importer::last_with_id(s, id) is Some,
                        forall|id: i64| #[trigger] id_map@.contains_key(id) ==> id_map@[id] == crate::importer::last_with_id(s, id)->0,
                        p <= way_nodes@.len(),
                        forall|k: i64| #[trigger] before.contains_key(k) ==> seen.contains(k),
                        forall|w: int| 0 <= w < p ==> seen.contains(#[trigger] way_nodes@[w]),
                        forall|k: i64| seen.contains(k) && #[trigger] implicit_candidate(s, kn, k) ==> candidate_geometries(s, k).0.len() >= 1
                            && candidate_geometries(s, k).1.len() >= 1,
                    decreases way_nodes@.len() - p,
                {
                    let node_id = way_nodes[p];
                    if let Some(element_ids) = memberships_map.get(&node_id) {
                        if element_ids.len() == 2 && !known.contains(&node_id) {
                            let e1 = id_map.get(&element_ids[0]);
                            let e2 = id_map.get(&element_ids[1]);
                            if let (Some(p1), Some(p2)) = (e1, e2) {
                                proof {
                                    lemma_last_with_id_in_range(s, element_ids@[0]);
                                    lemma_last_with_id_in_range(s, element_ids@[1]);
                                }
                                if let (Some(geometry1), Some(geometry2)) = (&elements[*p1].geometry, &elements[*p2].geometry) {
                                    proof {
                                        assert(element_ids@ == memberships(s)[node_id]);
                                        assert(geometry_of(s, element_ids@[0]) == Some(geometry1@));
                                        assert(geometry_of(s, element_ids@[1]) == Some(geometry2@));
                                        assert(implicit_candidate(s, kn, node_id));
                                        assert(candidate_geometries(s, node_id) == (geometry1@, geometry2@));
                                    }
                                    if geometry1.len() == 0 || geometry2.len() == 0 {
                                        return false;
                                    }
                                }
                            }
                        }
                    }
                    proof {
                        seen = seen.insert(node_id);
                        if implicit_candidate(s, kn, node_id) {
                            assert(memberships_map@.contains_key(node_id));
                        }
                    }
                    p = p + 1;
                }
                proof {
                    lemma_add_memberships_keys(before, way_nodes@, element.id);
                    assert forall|k: i64| #[trigger] memberships(s.subrange(0, i + 1)).contains_key(k) implies seen.contains(k) by {
                        if way_nodes@.contains(k) {
                            let w = choose|w: int| 0 <= w < way_nodes@.len() && way_nodes@[w] == k;
                        }
                    }
                }
            }
        }
        i = i + 1;
    }
    proof {
        assert(s.subrange(0, s.len() as int) =~= s);
        assert forall|k: i64| #[trigger] implicit_candidate(s, ids_of_nodes(element_nodes(s)), k) implies candidate_geometries(s, k).0.len() >= 1
            && candidate_geometries(s, k).1.len() >= 1 by {
            assert(memberships(s).contains_key(k));
        }
    }
    true
}

/// Whether every way's edge would join two different nodes, given the nodes an import creates.
fn ways_checked(elements: &[RailwayElement], all: &Vec<RailwayNode>) -> (r: bool)
    requires
        forall|id: i64| (exists|k: int| 0 <= k < all@.len() && all@[k].id == id) <==> #[trigger] node_domain(elements@).contains_key(id),
    ensures
        r == ways_join_distinct_nodes(elements@),
{
    let ghost s = elements@;
    let mut indices: HashMap<i64, usize> = HashMap::new();
    let mut k: usize = 0;
    while k < all.len()
        invariant
            k <= all@.len(),
            forall|id: i64| #[trigger] indices@.contains_key(id) <==> exists|j: int| 0 <= j < k && all@[j].id == id,
        decreases all@.len() - k,
    {
        indices.insert(all[k].id, k);
        proof {
            assert forall|id: i64| #[trigger] indices@.contains_key(id) <==> exists|j: int| 0 <= j < k + 1 && all@[j].id == id by {
                if id == all@[k as int].id {
                    assert(all@[k as int].id == id);
                }
            }
        }
        k = k + 1;
    }
    proof {
        assert(indices@.dom() =~= node_domain(s).dom());
    }
    let mut i: usize = 0;
    while i < elements.len()
        invariant
            s == elements@,
            indices@.dom() == node_domain(s).dom(),
            i <= s.len(),
            forall|p: int| 0 <= p < i ==> (way_endpoints(#[trigger] s[p], node_domain(s)) matches Some((a, b)) ==> a != b),
        decreases s.len() - i,
    {
        let element = &elements[i];
        proof {
            lemma_way_endpoints_domain(*element, indices@, node_domain(s));
        }
        if let ElementType::Way = element.element_type {
            if let (Some(ids), Some(_g)) = (&element.nodes, &element.geometry) {
                let (a, ai) = find_next_existing_node(None, ids.as_slice(), &indices);
                let (b, bi) = find_next_existing_node(a, ids.as_slice(), &indices);
                if ai.is_some() && bi.is_some() {
                    if a == b {
                        proof {
                            assert(way_endpoints(s[i as int], indices@) == Some((a->0, b->0)));
                        }
                        return false;
                    }
                }
            }
        }
        i = i + 1;
    }
    true
}

/// Whether `from_railway_elements` builds a graph from `elements` (see `importable`).
pub fn is_importable(elements: &[RailwayElement]) -> (r: bool)
    ensures
        r == importable(elements@),
{
    let ghost s = elements@;
    if elements.len() >= 4294967295 {
        return false;
    }
    if !way_geometries_checked(elements) {
        return false;
    }
    let nodes = create_nodes_from_node_elements(elements);
    if !ids_distinct(&nodes) {
        return false;
    }
    let memberships_map = create_node_id_to_element_ids_map(elements);
    proof {
        crate::importer::lemma_memberships_finite(s);
        assert(memberships_map@.dom() =~= memberships(s).dom());
    }
    let node_count = nodes.len();
    let shared_count = memberships_map.len();
    if node_count >= 4294967295 || shared_count >= 4294967295 - node_count {
        return false;
    }
    if !implicit_geometries_checked(elements, &nodes) {
        return false;
    }
    let all = create_nodes(elements, &zero_distance);
    proof {
        let en = element_nodes(s);
        let known = ids_of_nodes(en);
        assert forall|id: i64| (exists|k: int| 0 <= k < all@.len() && all@[k].id == id) <==> #[trigger] node_domain(s).contains_key(id) by {
            if exists|k: int| 0 <= k < all@.len() && all@[k].id == id {
                let k = choose|k: int| 0 <= k < all@.len() && all@[k].id == id;
                if k < en.len() {
                    assert(all@.subrange(0, en.len() as int)[k] == en[k]);
                    assert(known.contains(id));
                } else {
                    assert(implicit_candidate(s, known, all@[k].id));
                }
            }
            if known.contains(id) {
                let k = choose|k: int| 0 <= k < en.len() && en[k].id == id;
                assert(all@.subrange(0, en.len() as int)[k] == en[k]);
                assert(all@[k].id == id);
            }
            if implicit_candidate(s, known, id) {
                let m = choose|m: int| en.len() <= m < all@.len() && #[trigger] all@[m].id == id;
                assert(all@[m].id == id);
            }
        }
    }
    ways_checked(elements, &all)
}

/// Builds the graph of `elements` as `from_railway_elements` does, where they can be imported
/// (see `importable`); `None` where the import would panic.
pub fn try_from_railway_elements<L: Fn(Coordinate, Coordinate) -> u64, H: Fn(Coordinate, Coordinate) -> u64>(
    elements: &[RailwayElement],
    length_mm: &L,
    great_circle_mm: &H,
) -> (r: Option<RailwayGraph>)
    requires
        forall|a: Coordinate, b: Coordinate| length_mm.requires((a, b)),
        forall|a: Coordinate, b: Coordinate| great_circle_mm.requires((a, b)),
    ensures
        r is Some <==> importable(elements@),
        r matches Some(g) ==> {
            &&& g.wf()
            &&& created_nodes(*great_circle_mm, elements@, g.nodes())
            &&& g.edges().len() == planned_edges(elements@, g.node_indices@).len()
            &&& forall|k: int|
                0 <= k < g.edges().len() ==> edge_as_planned(
                    *length_mm,
                    *great_circle_mm,
                    elements@,
                    g.nodes(),
                    g.node_indices@,
                    planned_edges(elements@, g.node_indices@)[k],
                    #[trigger] g.edges()[k],
                )
        },
{
    if is_importable(elements) {
        Some(from_railway_elements(elements, length_mm, great_circle_mm))
    } else {
        None
    }
}

} // verus!
