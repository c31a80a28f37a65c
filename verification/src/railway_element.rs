//! Elements of the railway network as the Overpass API delivers them.
use crate::coordinate::Coordinate;
use std::collections::HashMap;
use vstd::prelude::*;

verus! {

/// The type of a `RailwayElement`: a `Way` (a linear feature such as a track) or a `Node`
/// (a point feature such as a switch).
#[derive(Clone, Copy, Debug, PartialEq, Eq, Structural)]
pub enum ElementType {
    /// A linear feature, defined by an ordered list of nodes.
    Way,
    /// A point feature, defined by its latitude and longitude.
    Node,
}

/// An element of a railway network.
#[derive(Debug, PartialEq)]
pub struct RailwayElement {
    /// The unique identifier of the element.
    pub id: i64,
    /// Optional key-value pairs associated with the element.
    pub tags: Option<HashMap<String, String>>,
    /// The type of the element, either `Way` or `Node`.
    pub element_type: ElementType,
    /// The ordered node ids of a `Way` element.
    pub nodes: Option<Vec<i64>>,
    /// The coordinates along a `Way` element.
    pub geometry: Option<Vec<Coordinate>>,
    /// The latitude of a `Node` element, in 10^-7 degrees.
    pub lat: Option<i64>,
    /// The longitude of a `Node` element, in 10^-7 degrees.
    pub lon: Option<i64>,
}

/// Whether an element is a `Way`.
pub open spec fn is_way(e: RailwayElement) -> bool {
    e.element_type == ElementType::Way
}

/// The number of `Way` elements in `s`.
pub open spec fn way_count(s: Seq<RailwayElement>) -> nat
    decreases s.len(),
{
    if s.len() == 0 {
        0
    } else {
        way_count(s.drop_last()) + if is_way(s.last()) { 1nat } else { 0nat }
    }
}

/// The number of `Node` elements in `s`.
pub open spec fn node_count(s: Seq<RailwayElement>) -> nat
    decreases s.len(),
{
    if s.len() == 0 {
        0
    } else {
        node_count(s.drop_last()) + if is_way(s.last()) { 0nat } else { 1nat }
    }
}

/// An element with the given id whose other fields hold their defaults: a `Node` without
/// tags, node list, geometry or position.
pub open spec fn element_with_id(id: i64) -> RailwayElement {
    RailwayElement {
        id,
        tags: None,
        element_type: ElementType::Node,
        nodes: None,
        geometry: None,
        lat: None,
        lon: None,
    }
}

impl Default for RailwayElement {
    fn default() -> (r: Self)
        ensures
            r == element_with_id(0),
    {
        RailwayElement {
            id: 0,
            tags: None,
            element_type: ElementType::Node,
            nodes: None,
            geometry: None,
            lat: None,
            lon: None,
        }
    }
}

impl RailwayElement {
    /// Creates an element with the specified id and default values elsewhere.
    pub fn new_with_id(id: i64) -> (r: Self)
        ensures
            r == element_with_id(id),
    {
        RailwayElement { id, ..Default::default() }
    }
}

/// Counts the `Way` elements in `elements`.
pub fn count_way_elements(elements: &[RailwayElement]) -> (r: usize)
    ensures
        r == way_count(elements@),
{
    let mut count: usize = 0;
    let mut i: usize = 0;
    while i < elements.len()
        invariant
            i <= elements@.len(),
            count == way_count(elements@.subrange(0, i as int)),
            count <= i,
        decreases elements@.len() - i,
    {
        assert(elements@.subrange(0, i + 1).drop_last() =~= elements@.subrange(0, i as int));
        if elements[i].element_type == ElementType::Way {
            count = count + 1;
        }
        i = i + 1;
    }
    assert(elements@.subrange(0, elements@.len() as int) =~= elements@);
    count
}

/// Counts the `Node` elements in `elements`.
pub fn count_node_elements(elements: &[RailwayElement]) -> (r: usize)
    ensures
        r == node_count(elements@),
{
    let mut count: usize = 0;
    let mut i: usize = 0;
    while i < elements.len()
        invariant
            i <= elements@.len(),
            count == node_count(elements@.subrange(0, i as int)),
            count <= i,
        decreases elements@.len() - i,
    {
        assert(elements@.subrange(0, i + 1).drop_last() =~= elements@.subrange(0, i as int));
        if elements[i].element_type == ElementType::Node {
            count = count + 1;
        }
        i = i + 1;
    }
    assert(elements@.subrange(0, elements@.len() as int) =~= elements@);
    count
}

/// Every element is either a `Way` or a `Node`: the two counts add up to the number of
/// elements.
pub proof fn lemma_counts_partition(s: Seq<RailwayElement>)
    ensures
        way_count(s) + node_count(s) == s.len(),
    decreases s.len(),
{
    if s.len() > 0 {
        lemma_counts_partition(s.drop_last());
    }
}

} // verus!
