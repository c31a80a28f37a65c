//! Plane geometry on coordinates, with the longitude as the x axis and the latitude as the y
//! axis: the point of a line string closest to a position, the points of a line string that lie
//! ahead in a direction, and whether a coordinate lies between two others.
//!
//! Distances are compared by their squares, which order points as the distances do and are
//! exact in integers.
use crate::coordinate::Coordinate;
use vstd::prelude::*;

verus! {

/// The coordinate is within the range of longitudes, so that differences and their squares
/// stay within 128-bit arithmetic.
pub open spec fn in_range(c: Coordinate) -> bool {
    &&& -1_800_000_000 <= c.lat <= 1_800_000_000
    &&& -1_800_000_000 <= c.lon <= 1_800_000_000
}

/// Every coordinate of `s` is in range.
pub open spec fn all_in_range(s: Seq<Coordinate>) -> bool {
    forall|k: int| 0 <= k < s.len() ==> in_range(#[trigger] s[k])
}

/// The square of the Euclidean distance between `a` and `b`.
pub open spec fn squared_distance(a: Coordinate, b: Coordinate) -> int {
    (a.lon - b.lon) * (a.lon - b.lon) + (a.lat - b.lat) * (a.lat - b.lat)
}

/// Position `k` of `ls` holds a point at the least distance from `pos`, and no earlier
/// position holds one as close.
pub open spec fn is_first_closest(ls: Seq<Coordinate>, pos: Coordinate, k: int) -> bool {
    &&& 0 <= k < ls.len()
    &&& forall|j: int| 0 <= j < ls.len() ==> squared_distance(ls[k], pos) <= squared_distance(#[trigger] ls[j], pos)
    &&& forall|j: int| 0 <= j < k ==> squared_distance(ls[k], pos) < squared_distance(#[trigger] ls[j], pos)
}

/// The first point of `ls` at the least distance from `pos`; `pos` itself where `ls` is empty.
pub open spec fn closest_point(ls: Seq<Coordinate>, pos: Coordinate) -> Coordinate {
    if ls.len() == 0 {
        pos
    } else {
        ls[choose|k: int| is_first_closest(ls, pos, k)]
    }
}

/// At most one position is the first closest one.
pub proof fn lemma_first_closest_unique(ls: Seq<Coordinate>, pos: Coordinate, k1: int, k2: int)
    requires
        is_first_closest(ls, pos, k1),
        is_first_closest(ls, pos, k2),
    ensures
        k1 == k2,
{
    if k1 < k2 {
        assert(squared_distance(ls[k2], pos) < squared_distance(ls[k1], pos));
    } else if k2 < k1 {
        assert(squared_distance(ls[k1], pos) < squared_distance(ls[k2], pos));
    }
}

proof fn lemma_square_bound(d: int)
    requires
        -3_600_000_000 <= d <= 3_600_000_000,
    ensures
        0 <= d * d <= 12_960_000_000_000_000_000,
{
    assert(0 <= d * d <= 12_960_000_000_000_000_000) by (nonlinear_arith)
        requires
            -3_600_000_000 <= d <= 3_600_000_000,
    ;
}

proof fn lemma_product_bound(d: int, e: int)
    requires
        -3_600_000_000 <= d <= 3_600_000_000,
        -3_600_000_000 <= e <= 3_600_000_000,
    ensures
        -12_960_000_000_000_000_000 <= d * e <= 12_960_000_000_000_000_000,
{
    assert(-12_960_000_000_000_000_000 <= d * e <= 12_960_000_000_000_000_000) by (nonlinear_arith)
        requires
            -3_600_000_000 <= d <= 3_600_000_000,
            -3_600_000_000 <= e <= 3_600_000_000,
    ;
}

/// The square of the distance between two coordinates in range.
fn squared_distance_between(a: Coordinate, b: Coordinate) -> (r: i128)
    requires
        in_range(a),
        in_range(b),
    ensures
        r == squared_distance(a, b),
{
    let dx: i128 = a.lon as i128 - b.lon as i128;
    let dy: i128 = a.lat as i128 - b.lat as i128;
    proof {
        lemma_square_bound(dx as int);
        lemma_square_bound(dy as int);
    }
    dx * dx + dy * dy
}

/// Returns the point of `linestring` closest to `position`: the first of those at the least
/// Euclidean distance, or `position` itself where the line string has no point.
pub fn closest_point_in_linestring(position: Coordinate, linestring: &[Coordinate]) -> (r: Coordinate)
    requires
        in_range(position),
        all_in_range(linestring@),
    ensures
        r == closest_point(linestring@, position),
        linestring@.len() == 0 ==> r == position,
        linestring@.len() > 0 ==> exists|k: int|
            0 <= k < linestring@.len() && r == #[trigger] linestring@[k] && (forall|j: int|
                0 <= j < k ==> (r.lon - position.lon) * (r.lon - position.lon) + (r.lat - position.lat) * (r.lat
                    - position.lat) < (#[trigger] linestring@[j].lon - position.lon) * (linestring@[j].lon
                    - position.lon) + (linestring@[j].lat - position.lat) * (linestring@[j].lat - position.lat)),
        forall|j: int|
            0 <= j < linestring@.len() ==> (r.lon - position.lon) * (r.lon - position.lon) + (r.lat - position.lat) * (
            r.lat - position.lat) <= (#[trigger] linestring@[j].lon - position.lon) * (linestring@[j].lon
                - position.lon) + (linestring@[j].lat - position.lat) * (linestring@[j].lat - position.lat),
{
    let mut closest: Option<usize> = None;
    let mut min_distance: i128 = 0;
    let mut i: usize = 0;
    while i < linestring.len()
        invariant
            in_range(position),
            all_in_range(linestring@),
            i <= linestring@.len(),
            i == 0 <==> closest is None,
            closest matches Some(k) ==> {
                &&& k < i
                &&& min_distance == squared_distance(linestring@[k as int], position)
                &&& forall|j: int| 0 <= j < i ==> min_distance <= squared_distance(#[trigger] linestring@[j], position)
                &&& forall|j: int| 0 <= j < k ==> min_distance < squared_distance(#[trigger] linestring@[j], position)
            },
        decreases linestring@.len() - i,
    {
        let distance = squared_distance_between(linestring[i], position);
        if closest.is_none() || distance < min_distance {
            closest = Some(i);
            min_distance = distance;
        }
        i = i + 1;
    }
    match closest {
        Some(k) => {
            proof {
                assert(is_first_closest(linestring@, position, k as int));
                let c = choose|c: int| is_first_closest(linestring@, position, c);
                lemma_first_closest_unique(linestring@, position, k as int, c);
            }
            linestring[k]
        },
        None => position,
    }
}

/// The dot product of the vector from `current` to `target` and the vector from `closest` to
/// `p`: positive where `p` lies ahead of `closest` in the direction of `target`.
pub open spec fn ahead(current: Coordinate, target: Coordinate, closest: Coordinate, p: Coordinate) -> int {
    (target.lon - current.lon) * (p.lon - closest.lon) + (target.lat - current.lat) * (p.lat - closest.lat)
}

/// The points of `ls` that lie ahead of the point of `ls` closest to `current`, in the
/// direction from `current` to `target`, in their order.
pub open spec fn front_points(ls: Seq<Coordinate>, current: Coordinate, target: Coordinate) -> Seq<Coordinate> {
    let closest = closest_point(ls, current);
    ls.filter(|p: Coordinate| ahead(current, target, closest, p) > 0)
}

/// The first closest position among the first `n` positions of `ls`.
proof fn lemma_first_closest_prefix(ls: Seq<Coordinate>, pos: Coordinate, n: int) -> (k: int)
    requires
        0 < n <= ls.len(),
    ensures
        0 <= k < n,
        forall|j: int| 0 <= j < n ==> squared_distance(ls[k], pos) <= squared_distance(#[trigger] ls[j], pos),
        forall|j: int| 0 <= j < k ==> squared_distance(ls[k], pos) < squared_distance(#[trigger] ls[j], pos),
    decreases n,
{
    if n == 1 {
        0
    } else {
        let k = lemma_first_closest_prefix(ls, pos, n - 1);
        if squared_distance(ls[n - 1], pos) < squared_distance(ls[k], pos) {
            n - 1
        } else {
            k
        }
    }
}

/// The closest point of a line string in range is in range.
proof fn lemma_closest_in_range(ls: Seq<Coordinate>, pos: Coordinate)
    requires
        in_range(pos),
        all_in_range(ls),
    ensures
        in_range(closest_point(ls, pos)),
{
    if ls.len() > 0 {
        let k = lemma_first_closest_prefix(ls, pos, ls.len() as int);
        assert(is_first_closest(ls, pos, k));
    }
}

/// Returns the points of `linestring` that lie ahead of its point closest to
/// `current_location`, in the direction from `current_location` to `target_direction`: those
/// whose vector from that closest point has a positive dot product with the direction.
pub fn points_in_front(
    linestring: &[Coordinate],
    current_location: Coordinate,
    target_direction: Coordinate,
) -> (r: Vec<Coordinate>)
    requires
        in_range(current_location),
        in_range(target_direction),
        all_in_range(linestring@),
    ensures
        r@ == front_points(linestring@, current_location, target_direction),
        r@ == linestring@.filter(
            |p: Coordinate|
                (target_direction.lon - current_location.lon) * (p.lon - closest_point(linestring@, current_location).lon)
                    + (target_direction.lat - current_location.lat) * (p.lat - closest_point(
                    linestring@,
                    current_location,
                ).lat) > 0,
        ),
{
    let closest = closest_point_in_linestring(current_location, linestring);
    proof {
        lemma_closest_in_range(linestring@, current_location);
    }
    let tx: i128 = target_direction.lon as i128 - current_location.lon as i128;
    let ty: i128 = target_direction.lat as i128 - current_location.lat as i128;
    let ghost pred = |p: Coordinate| ahead(current_location, target_direction, closest, p) > 0;
    let mut points: Vec<Coordinate> = Vec::new();
    let mut i: usize = 0;
    while i < linestring.len()
        invariant
            in_range(closest),
            in_range(current_location),
            in_range(target_direction),
            all_in_range(linestring@),
            tx == target_direction.lon - current_location.lon,
            ty == target_direction.lat - current_location.lat,
            pred == (|p: Coordinate| ahead(current_location, target_direction, closest, p) > 0),
            i <= linestring@.len(),
            points@ == linestring@.subrange(0, i as int).filter(pred),
        decreases linestring@.len() - i,
    {
        let p = linestring[i];
        let px: i128 = p.lon as i128 - closest.lon as i128;
        let py: i128 = p.lat as i128 - closest.lat as i128;
        proof {
            lemma_product_bound(tx as int, px as int);
            lemma_product_bound(ty as int, py as int);
            reveal(Seq::filter);
            assert(linestring@.subrange(0, i + 1).drop_last() =~= linestring@.subrange(0, i as int));
            assert(linestring@.subrange(0, i + 1).last() == p);
        }
        if tx * px + ty * py > 0 {
            points.push(p);
        }
        i = i + 1;
    }
    proof {
        assert(linestring@.subrange(0, linestring@.len() as int) =~= linestring@);
        let inline = |p: Coordinate|
            (target_direction.lon - current_location.lon) * (p.lon - closest_point(linestring@, current_location).lon)
                + (target_direction.lat - current_location.lat) * (p.lat - closest_point(
                linestring@,
                current_location,
            ).lat) > 0;
        assert(inline =~= pred);
    }
    points
}

/// `middle` lies between `start` and `end` (inclusive) along both axes.
pub open spec fn between(start: Coordinate, middle: Coordinate, end: Coordinate) -> bool {
    &&& ((start.lon <= middle.lon <= end.lon) || (end.lon <= middle.lon <= start.lon))
    &&& ((start.lat <= middle.lat <= end.lat) || (end.lat <= middle.lat <= start.lat))
}

/// Whether `middle_coord` lies between `start_coord` and `end_coord` along both axes, the
/// ends included (for three collinear coordinates: whether the middle one lies on the segment).
pub fn is_middle_coord_between(start_coord: Coordinate, middle_coord: Coordinate, end_coord: Coordinate) -> (r: bool)
    ensures
        r == between(start_coord, middle_coord, end_coord),
        r <==> ((start_coord.lon <= middle_coord.lon <= end_coord.lon || end_coord.lon <= middle_coord.lon
            <= start_coord.lon) && (start_coord.lat <= middle_coord.lat <= end_coord.lat || end_coord.lat
            <= middle_coord.lat <= start_coord.lat)),
{
    let between_x = (middle_coord.lon >= start_coord.lon && middle_coord.lon <= end_coord.lon)
        || (middle_coord.lon >= end_coord.lon && middle_coord.lon <= start_coord.lon);
    let between_y = (middle_coord.lat >= start_coord.lat && middle_coord.lat <= end_coord.lat)
        || (middle_coord.lat >= end_coord.lat && middle_coord.lat <= start_coord.lat);
    between_x && between_y
}

/// The points ahead are the points of the line string, in their order, whose vector from the
/// closest point has a positive dot product, over both axes, with the direction of travel: a
/// point is kept exactly when it lies ahead, and only points of the line string are kept.
pub proof fn lemma_front_points_members(ls: Seq<Coordinate>, current: Coordinate, target: Coordinate)
    ensures
        forall|p: Coordinate|
            #[trigger] front_points(ls, current, target).contains(p) <==> (ls.contains(p) && (target.lon - current.lon) * (
            p.lon - closest_point(ls, current).lon) + (target.lat - current.lat) * (p.lat - closest_point(
                ls,
                current,
            ).lat) > 0),
        front_points(ls, current, target).len() <= ls.len(),
{
    let c = closest_point(ls, current);
    let pred = |p: Coordinate| ahead(current, target, c, p) > 0;
    assert(front_points(ls, current, target) == ls.filter(pred));
    lemma_filter_members(ls, pred);
    ls.lemma_filter_len(pred);
}

/// A filtered sequence holds exactly the elements of the sequence that meet the predicate.
proof fn lemma_filter_members(s: Seq<Coordinate>, pred: spec_fn(Coordinate) -> bool)
    ensures
        forall|p: Coordinate| #[trigger] s.filter(pred).contains(p) <==> (s.contains(p) && pred(p)),
    decreases s.len(),
{
    reveal(Seq::filter);
    if s.len() > 0 {
        let init = s.drop_last();
        lemma_filter_members(init, pred);
        assert forall|p: Coordinate| #[trigger] s.filter(pred).contains(p) <==> (s.contains(p) && pred(p)) by {
            let fi = init.filter(pred);
            if s.contains(p) && p != s.last() {
                let k = choose|k: int| 0 <= k < s.len() && s[k] == p;
                assert(init[k] == p);
                assert(init.contains(p));
            }
            if init.contains(p) {
                let k = choose|k: int| 0 <= k < init.len() && init[k] == p;
                assert(s[k] == p);
            }
            if pred(s.last()) {
                let f = fi.push(s.last());
                assert(f[f.len() - 1] == s.last());
                if fi.contains(p) {
                    let k = choose|k: int| 0 <= k < fi.len() && fi[k] == p;
                    assert(f[k] == p);
                }
                if f.contains(p) && p != s.last() {
                    let k = choose|k: int| 0 <= k < f.len() && f[k] == p;
                    assert(fi[k] == p);
                }
            }
            assert(s[s.len() - 1] == s.last());
        }
    }
}

/// The between test looks at both axes: the middle lies between the ends exactly when its
/// longitude lies between theirs and its latitude lies between theirs.
pub proof fn lemma_between_both_axes(start: Coordinate, middle: Coordinate, end: Coordinate)
    ensures
        between(start, middle, end) <==> ((start.lon <= middle.lon <= end.lon || end.lon <= middle.lon <= start.lon) && (
        start.lat <= middle.lat <= end.lat || end.lat <= middle.lat <= start.lat)),
        between(start, middle, end) ==> (start.lon <= end.lon ==> start.lon <= middle.lon <= end.lon),
{
}

} // verus!
