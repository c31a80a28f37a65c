//! Creating railway nodes directly from elements: each node once, the node elements first in
//! their order, and the nodes that ways name looked up among the node elements.
use crate::railway_element::{ElementType, RailwayElement};
use crate::railway_model::RailwayNode;
use std::collections::HashSet;
use vstd::prelude::*;

verus! {

broadcast use vstd::std_specs::hash::group_hash_axioms;

/// The position of the first `Node` element of `s` whose id is `id`.
pub open spec fn first_node_element(s: Seq<RailwayElement>, id: i64) -> Option<int>
    decreases s.len(),
{
    if s.len() == 0 {
        None
    } else {
        match first_node_element(s.drop_last(), id) {
            Some(p) => Some(p),
            None => if s.last().element_type == ElementType::Node && s.last().id == id {
                Some(s.len() - 1)
            } else {
                None
            },
        }
    }
}

proof fn lemma_first_node_element_found(s: Seq<RailwayElement>, id: i64, p: int)
    requires
        0 <= p < s.len(),
        s[p].element_type == ElementType::Node && s[p].id == id,
        forall|k: int| 0 <= k < p ==> !((#[trigger] s[k]).element_type == ElementType::Node && s[k].id == id),
    ensures
        first_node_element(s, id) == Some(p),
    decreases s.len(),
{
    if p < s.len() - 1 {
        lemma_first_node_element_found(s.drop_last(), id, p);
    } else {
        lemma_first_node_element_none(s.drop_last(), id);
    }
}

proof fn lemma_first_node_element_none(s: Seq<RailwayElement>, id: i64)
    requires
        forall|k: int| 0 <= k < s.len() ==> !((#[trigger] s[k]).element_type == ElementType::Node && s[k].id == id),
    ensures
        first_node_element(s, id) is None,
    decreases s.len(),
{
    if s.len() > 0 {
        lemma_first_node_element_none(s.drop_last(), id);
    }
}

/// The first `Node` element with id `id` has a position (or there is none).
pub open spec fn node_element_positioned(s: Seq<RailwayElement>, id: i64) -> bool {
    first_node_element(s, id) matches Some(p) ==> s[p].lat is Some && s[p].lon is Some
}

/// The node that the first `Node` element with id `id` defines.
pub open spec fn found_node(s: Seq<RailwayElement>, id: i64) -> Option<RailwayNode> {
    match first_node_element(s, id) {
        Some(p) => Some(RailwayNode { id, lat: s[p].lat->0, lon: s[p].lon->0 }),
        None => None,
    }
}

/// Returns the node that the first `Node` element with id `id` defines, if there is such an
/// element; that element must have a latitude and a longitude.
pub fn find_node_by_id(elements: &[RailwayElement], id: i64) -> (r: Option<RailwayNode>)
    requires
        node_element_positioned(elements@, id),
    ensures
        r == found_node(elements@, id),
{
    let mut k: usize = 0;
    while k < elements.len()
        invariant
            k <= elements@.len(),
            node_element_positioned(elements@, id),
            forall|j: int| 0 <= j < k ==> !((#[trigger] elements@[j]).element_type == ElementType::Node && elements@[j].id == id),
        decreases elements@.len() - k,
    {
        let element = &elements[k];
        if element.element_type == ElementType::Node && element.id == id {
            proof {
                lemma_first_node_element_found(elements@, id, k as int);
            }
            return Some(RailwayNode { id: element.id, lat: element.lat.unwrap(), lon: element.lon.unwrap() });
        }
        k = k + 1;
    }
    proof {
        lemma_first_node_element_none(elements@, id);
    }
    None
}

/// The nodes `create_nodes` returns for the first `i` elements of `s`, and the ids it has
/// collected.
pub open spec fn collected(s: Seq<RailwayElement>, i: int) -> (Seq<RailwayNode>, Set<i64>)
    decreases i,
{
    if i <= 0 {
        (seq![], Set::empty())
    } else {
        let (ns, ids) = collected(s, i - 1);
        let e = s[i - 1];
        if e.element_type == ElementType::Node {
            if e.lat is Some && e.lon is Some && !ids.contains(e.id) {
                (ns.push(RailwayNode { id: e.id, lat: e.lat->0, lon: e.lon->0 }), ids.insert(e.id))
            } else {
                (ns, ids)
            }
        } else {
            match e.nodes {
                Some(v) => collect_way_nodes(s, v@, v@.len() as int, ns, ids),
                None => (ns, ids),
            }
        }
    }
}

/// The nodes and ids after looking up the first `j` node ids of a way.
pub open spec fn collect_way_nodes(
    s: Seq<RailwayElement>,
    way: Seq<i64>,
    j: int,
    ns: Seq<RailwayNode>,
    ids: Set<i64>,
) -> (Seq<RailwayNode>, Set<i64>)
    decreases j,
{
    if j <= 0 {
        (ns, ids)
    } else {
        let (ns2, ids2) = collect_way_nodes(s, way, j - 1, ns, ids);
        let k = way[j - 1];
        if !ids2.contains(k) && found_node(s, k) is Some {
            (ns2.push(found_node(s, k)->0), ids2.insert(k))
        } else {
            (ns2, ids2)
        }
    }
}

/// `create_nodes` looks up node id `j` of the way at position `p`: no node with that id has
/// been collected before it reaches that id.
pub open spec fn looked_up(s: Seq<RailwayElement>, p: int, j: int) -> bool {
    let before = collected(s, p);
    let v = s[p].nodes->0@;
    !collect_way_nodes(s, v, j, before.0, before.1).1.contains(v[j])
}

/// Every node id that `create_nodes` looks up is one whose first `Node` element, if any, has a
/// position.
pub open spec fn way_nodes_positioned(s: Seq<RailwayElement>) -> bool {
    forall|p: int, j: int|
        0 <= p < s.len() && s[p].element_type == ElementType::Way && s[p].nodes is Some && 0 <= j
            < s[p].nodes->0@.len() && #[trigger] looked_up(s, p, j) ==> node_element_positioned(s, s[p].nodes->0@[j])
}

/// Creates each node once: for a `Node` element with a position, its node; for a `Way`
/// element, the node of each node id it names, looked up among the node elements. An id
/// already seen is skipped. The first `Node` element of each id looked up must have a
/// position.
pub fn create_nodes(elements: &[RailwayElement]) -> (r: Vec<RailwayNode>)
    requires
        way_nodes_positioned(elements@),
    ensures
        r@ == collected(elements@, elements@.len() as int).0,
{
    let mut nodes: Vec<RailwayNode> = Vec::new();
    let mut node_ids: HashSet<i64> = HashSet::new();
    let mut i: usize = 0;
    while i < elements.len()
        invariant
            way_nodes_positioned(elements@),
            i <= elements@.len(),
            nodes@ == collected(elements@, i as int).0,
            node_ids@ == collected(elements@, i as int).1,
        decreases elements@.len() - i,
    {
        let element = &elements[i];
        match element.element_type {
            ElementType::Node => {
                if let (Some(lat), Some(lon)) = (element.lat, element.lon) {
                    if !node_ids.contains(&element.id) {
                        nodes.push(RailwayNode { id: element.id, lat, lon });
                        node_ids.insert(element.id);
                    }
                }
            },
            ElementType::Way => {
                if let Some(element_nodes) = &element.nodes {
                    let ghost ns0 = nodes@;
                    let ghost ids0 = node_ids@;
                    proof {
                        assert(ns0 == collected(elements@, i as int).0 && ids0 == collected(elements@, i as int).1);
                    }
                    let mut j: usize = 0;
                    while j < element_nodes.len()
                        invariant
                            way_nodes_positioned(elements@),
                            i < elements@.len(),
                            elements@[i as int].element_type == ElementType::Way,
                            elements@[i as int].nodes == Some(*element_nodes),
                            ns0 == collected(elements@, i as int).0,
                            ids0 == collected(elements@, i as int).1,
                            j <= element_nodes@.len(),
                            (nodes@, node_ids@) == collect_way_nodes(elements@, element_nodes@, j as int, ns0, ids0),
                        decreases element_nodes@.len() - j,
                    {
                        let node_id = element_nodes[j];
                        if !node_ids.contains(&node_id) {
                            proof {
                                assert(looked_up(elements@, i as int, j as int));
                                assert(node_element_positioned(elements@, elements@[i as int].nodes->0@[j as int]));
                            }
                            if let Some(node) = find_node_by_id(elements, node_id) {
                                nodes.push(node);
                                node_ids.insert(node_id);
                            }
                        }
                        j = j + 1;
                    }
                }
            },
        }
        i = i + 1;
    }
    nodes
}

/// No node is created twice: the ids of the created nodes are distinct.
pub proof fn lemma_create_nodes_distinct(s: Seq<RailwayElement>, i: int)
    requires
        0 <= i <= s.len(),
    ensures
        forall|a: int, b: int|
            0 <= a < collected(s, i).0.len() && 0 <= b < collected(s, i).0.len() && a != b
                ==> collected(s, i).0[a].id != collected(s, i).0[b].id,
        forall|id: i64| #[trigger] collected(s, i).1.contains(id) <==> exists|a: int|
            0 <= a < collected(s, i).0.len() && collected(s, i).0[a].id == id,
    decreases i,
{
    if i > 0 {
        lemma_create_nodes_distinct(s, i - 1);
        let e = s[i - 1];
        if e.element_type != ElementType::Node {
            if let Some(v) = e.nodes {
                lemma_collect_way_distinct(s, v@, v@.len() as int, collected(s, i - 1).0, collected(s, i - 1).1);
                assert(collected(s, i) == collect_way_nodes(s, v@, v@.len() as int, collected(s, i - 1).0, collected(s, i - 1).1));
            } else {
                assert(collected(s, i) == collected(s, i - 1));
            }
        } else if !(e.lat is Some && e.lon is Some && !collected(s, i - 1).1.contains(e.id)) {
            assert(collected(s, i) == collected(s, i - 1));
        } else {
            let ns = collected(s, i - 1).0;
            let ids = collected(s, i - 1).1;
            let ns2 = collected(s, i).0;
            let ids2 = collected(s, i).1;
            assert forall|id: i64| #[trigger] ids2.contains(id) <==> exists|a: int| 0 <= a < ns2.len() && ns2[a].id == id by {
                if ids.contains(id) {
                    let a = choose|a: int| 0 <= a < ns.len() && ns[a].id == id;
                    assert(ns2[a] == ns[a]);
                }
                if exists|a: int| 0 <= a < ns2.len() && ns2[a].id == id {
                    let a = choose|a: int| 0 <= a < ns2.len() && ns2[a].id == id;
                    if a < ns.len() {
                        assert(ns2[a] == ns[a]);
                    }
                }
                if ids2.contains(id) && !ids.contains(id) {
                    assert(ns2[ns2.len() - 1].id == id);
                }
            }
            assert forall|a: int, b: int| 0 <= a < ns2.len() && 0 <= b < ns2.len() && a != b implies ns2[a].id != ns2[b].id by {
                if a < ns.len() && b < ns.len() {
                    assert(ns2[a] == ns[a] && ns2[b] == ns[b]);
                } else if a < ns.len() {
                    assert(ns2[a] == ns[a]);
                    assert(ids.contains(ns[a].id));
                } else if b < ns.len() {
                    assert(ns2[b] == ns[b]);
                    assert(ids.contains(ns[b].id));
                }
            }
        }
    }
}

proof fn lemma_collect_way_distinct(s: Seq<RailwayElement>, way: Seq<i64>, j: int, ns: Seq<RailwayNode>, ids: Set<i64>)
    requires
        forall|a: int, b: int| 0 <= a < ns.len() && 0 <= b < ns.len() && a != b ==> ns[a].id != ns[b].id,
        forall|id: i64| #[trigger] ids.contains(id) <==> exists|a: int| 0 <= a < ns.len() && ns[a].id == id,
    ensures
        forall|a: int, b: int|
            0 <= a < collect_way_nodes(s, way, j, ns, ids).0.len() && 0 <= b < collect_way_nodes(s, way, j, ns, ids).0.len() && a != b
                ==> collect_way_nodes(s, way, j, ns, ids).0[a].id != collect_way_nodes(s, way, j, ns, ids).0[b].id,
        forall|id: i64| #[trigger] collect_way_nodes(s, way, j, ns, ids).1.contains(id) <==> exists|a: int|
            0 <= a < collect_way_nodes(s, way, j, ns, ids).0.len() && collect_way_nodes(s, way, j, ns, ids).0[a].id == id,
    decreases j,
{
    if j > 0 {
        lemma_collect_way_distinct(s, way, j - 1, ns, ids);
        let n1 = collect_way_nodes(s, way, j - 1, ns, ids).0;
        let i1 = collect_way_nodes(s, way, j - 1, ns, ids).1;
        let n2 = collect_way_nodes(s, way, j, ns, ids).0;
        let i2 = collect_way_nodes(s, way, j, ns, ids).1;
        let k = way[j - 1];
        if !(!i1.contains(k) && found_node(s, k) is Some) {
            assert(n2 == n1 && i2 == i1);
            assert forall|id: i64| #[trigger] i2.contains(id) <==> exists|a: int| 0 <= a < n2.len() && n2[a].id == id by {
                assert(i1.contains(id) <==> exists|a: int| 0 <= a < n1.len() && n1[a].id == id);
            }
        } else {
            assert(found_node(s, k)->0.id == k);
            assert forall|id: i64| #[trigger] i2.contains(id) <==> exists|a: int| 0 <= a < n2.len() && n2[a].id == id by {
                if i1.contains(id) {
                    let a = choose|a: int| 0 <= a < n1.len() && n1[a].id == id;
                    assert(n2[a] == n1[a]);
                }
                if exists|a: int| 0 <= a < n2.len() && n2[a].id == id {
                    let a = choose|a: int| 0 <= a < n2.len() && n2[a].id == id;
                    if a < n1.len() {
                        assert(n2[a] == n1[a]);
                    }
                }
                if id == k {
                    assert(n2[n2.len() - 1].id == id);
                }
            }
            assert forall|a: int, b: int| 0 <= a < n2.len() && 0 <= b < n2.len() && a != b implies n2[a].id != n2[b].id by {
                if a < n1.len() && b < n1.len() {
                    assert(n2[a] == n1[a] && n2[b] == n1[b]);
                } else if a < n1.len() {
                    assert(n2[a] == n1[a]);
                    assert(i1.contains(n1[a].id));
                } else if b < n1.len() {
                    assert(n2[b] == n1[b]);
                    assert(i1.contains(n1[b].id));
                }
            }
        }
    } else {
        assert(collect_way_nodes(s, way, j, ns, ids) == (ns, ids));
        assert forall|id: i64| #[trigger] collect_way_nodes(s, way, j, ns, ids).1.contains(id) implies exists|a: int|
            0 <= a < collect_way_nodes(s, way, j, ns, ids).0.len() && collect_way_nodes(s, way, j, ns, ids).0[a].id == id by {
            assert(ids.contains(id));
            let a = choose|a: int| 0 <= a < ns.len() && ns[a].id == id;
            assert(collect_way_nodes(s, way, j, ns, ids).0[a].id == id);
        }
    }
}

} // verus!
