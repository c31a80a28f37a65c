//! Undirected node pairs: the consecutive node ids of the elements' node lists.
use crate::railway_element::RailwayElement;
use vstd::prelude::*;

verus! {

/// A pair of node ids that follow each other in an element's node list.
#[derive(Clone, Copy, Debug, PartialEq, Eq, Hash, Structural)]
pub struct Edge {
    /// The first node id of the pair.
    pub node_a: i64,
    /// The node id that follows it.
    pub node_b: i64,
}

/// The pairs of consecutive ids in `ids`, in order.
pub open spec fn consecutive_pairs(ids: Seq<i64>) -> Seq<Edge> {
    Seq::new((ids.len() - 1) as nat, |k: int| Edge { node_a: ids[k], node_b: ids[k + 1] })
}

/// The pairs of consecutive node ids of every element of `s` that has a node list, element
/// by element.
pub open spec fn element_edges(s: Seq<RailwayElement>) -> Seq<Edge>
    decreases s.len(),
{
    if s.len() == 0 {
        seq![]
    } else {
        element_edges(s.drop_last()) + match s.last().nodes {
            Some(v) => consecutive_pairs(v@),
            None => Seq::<Edge>::empty(),
        }
    }
}

/// Every node list of the elements holds at least one id.
pub open spec fn node_lists_nonempty(s: Seq<RailwayElement>) -> bool {
    forall|p: int| 0 <= p < s.len() ==> ((#[trigger] s[p]).nodes matches Some(v) ==> v@.len() >= 1)
}

/// Returns, for each element with a node list in turn, an edge for each two consecutive ids
/// of the list.
pub fn create_edges(elements: &[RailwayElement]) -> (r: Vec<Edge>)
    requires
        node_lists_nonempty(elements@),
    ensures
        r@ == element_edges(elements@),
{
    let mut edges: Vec<Edge> = Vec::new();
    let mut i: usize = 0;
    while i < elements.len()
        invariant
            node_lists_nonempty(elements@),
            i <= elements@.len(),
            edges@ == element_edges(elements@.subrange(0, i as int)),
        decreases elements@.len() - i,
    {
        let element = &elements[i];
        proof {
            assert(elements@.subrange(0, i + 1).drop_last() =~= elements@.subrange(0, i as int));
            assert(elements@.subrange(0, i + 1).last() == elements@[i as int]);
        }
        if let Some(nodes) = &element.nodes {
            let ghost before = edges@;
            proof {
                assert(elements@[i as int].nodes == Some(*nodes));
            }
            let mut k: usize = 0;
            while k < nodes.len() - 1
                invariant
                    nodes@.len() >= 1,
                    k <= nodes@.len() - 1,
                    edges@ == before + consecutive_pairs(nodes@).subrange(0, k as int),
                decreases nodes@.len() - 1 - k,
            {
                edges.push(Edge { node_a: nodes[k], node_b: nodes[k + 1] });
                proof {
                    assert(consecutive_pairs(nodes@).subrange(0, k + 1) =~= consecutive_pairs(nodes@).subrange(0, k as int).push(
                        Edge { node_a: nodes@[k as int], node_b: nodes@[k + 1] },
                    ));
                }
                k = k + 1;
            }
            proof {
                assert(consecutive_pairs(nodes@).subrange(0, k as int) =~= consecutive_pairs(nodes@));
            }
        } else {
            proof {
                assert(edges@ =~= edges@ + Seq::<Edge>::empty());
            }
        }
        i = i + 1;
    }
    proof {
        assert(elements@.subrange(0, elements@.len() as int) =~= elements@);
    }
    edges
}

} // verus!
