//! Measurements along a railway edge from a position on it.
use crate::algorithms::{all_in_range, front_points, in_range, points_in_front};
use crate::coordinate::Coordinate;
use crate::importer::{calculate_geometry_length, capped, segment_distances, sum_of};
use crate::railway_model::RailwayEdge;
use vstd::prelude::*;

verus! {

impl RailwayEdge {
    /// Returns the distance in millimetres from `current_location` to the end of the edge in
    /// the direction of `direction_coord`: the length, as `great_circle_mm` measures it, of the
    /// line from `current_location` through the points of the path that lie ahead (see
    /// `points_in_front`); 0 where no point lies ahead.
    ///
    /// The distance runs along the path. For a path from the Brandenburg Gate past the
    /// Reichstag to Berlin's central station, starting at the Brandenburg Gate towards the Reichstag, it is
    /// about 932 m (449 m to the Reichstag and 482 m on to the station). A figure of 1796 m
    /// cannot come out of it: that figure adds to those two legs the 864 m of the straight line
    /// from the Brandenburg Gate to the station, which is not part of the way to the end of the edge.
    pub fn distance_to_end<H: Fn(Coordinate, Coordinate) -> u64>(
        &self,
        current_location: Coordinate,
        direction_coord: Coordinate,
        great_circle_mm: &H,
    ) -> (r: u64)
        requires
            in_range(current_location),
            in_range(direction_coord),
            all_in_range(self.path@),
            forall|a: Coordinate, b: Coordinate| great_circle_mm.requires((a, b)),
        ensures
            exists|ds: Seq<u64>| #[trigger]
                segment_distances(
                    *great_circle_mm,
                    seq![current_location] + front_points(self.path@, current_location, direction_coord),
                    ds,
                ) && r == capped(sum_of(ds)),
    {
        let points = points_in_front(self.path.as_slice(), current_location, direction_coord);
        if points.len() == 0 {
            proof {
                let line = seq![current_location] + front_points(self.path@, current_location, direction_coord);
                assert(segment_distances(*great_circle_mm, line, Seq::<u64>::empty()));
            }
            return 0;
        }
        let mut line: Vec<Coordinate> = Vec::new();
        line.push(current_location);
        let mut i: usize = 0;
        while i < points.len()
            invariant
                i <= points@.len(),
                line@ == seq![current_location] + points@.subrange(0, i as int),
            decreases points@.len() - i,
        {
            line.push(points[i]);
            proof {
                assert(seq![current_location] + points@.subrange(0, i + 1) =~= (seq![current_location]
                    + points@.subrange(0, i as int)).push(points@[i as int]));
            }
            i = i + 1;
        }
        proof {
            assert(points@.subrange(0, points@.len() as int) =~= points@);
        }
        calculate_geometry_length(line.as_slice(), great_circle_mm)
    }
}

/// The sum of the first `k` entries of `ds`.
pub open spec fn prefix_sum(ds: Seq<u64>, k: int) -> int
    decreases k,
{
    if k <= 0 {
        0
    } else {
        prefix_sum(ds, k - 1) + ds[k - 1]
    }
}

/// A travel of `distance` from `line[0]` along `line` ends in the step from `line[k]` to
/// `line[k + 1]`: `ds[j]` is a length that `measure` can give for step `j`, the travel does
/// not run out in any step before `k`, and it runs out in step `k` or `k` is the last step.
pub open spec fn travel_ends_in<H: Fn(Coordinate, Coordinate) -> u64>(
    measure: H,
    line: Seq<Coordinate>,
    distance: u64,
    ds: Seq<u64>,
    k: int,
) -> bool {
    &&& 0 <= k < line.len() - 1
    &&& ds.len() == k + 1
    &&& forall|j: int| 0 <= j <= k ==> call_ensures(measure, (line[j], line[j + 1]), #[trigger] ds[j])
    &&& forall|j: int| 0 <= j < k ==> #[trigger] ds[j] <= distance - prefix_sum(ds, j)
    &&& (k == line.len() - 2 || distance - prefix_sum(ds, k) < ds[k])
}

impl RailwayEdge {
    /// The step of a travel of `distance_mm` millimetres along the edge from `current_location`
    /// towards `direction_coord`, through the points of the path that lie ahead (see
    /// `points_in_front`), in which the distance runs out, or the last step where it does not:
    /// the step's start and end, the distance still to travel at its start, and its length as
    /// `great_circle_mm` measures it. `None` where no point lies ahead. The position reached lies
    /// that share of the step's length along the step.
    pub fn travel_step<H: Fn(Coordinate, Coordinate) -> u64>(
        &self,
        current_location: Coordinate,
        distance_mm: u64,
        direction_coord: Coordinate,
        great_circle_mm: &H,
    ) -> (r: Option<(Coordinate, Coordinate, u64, u64)>)
        requires
            in_range(current_location),
            in_range(direction_coord),
            all_in_range(self.path@),
            forall|a: Coordinate, b: Coordinate| great_circle_mm.requires((a, b)),
        ensures
            ({
                let line = seq![current_location] + front_points(self.path@, current_location, direction_coord);
                match r {
                    None => line.len() == 1,
                    Some((from, to, remaining, length)) => exists|ds: Seq<u64>, k: int|
                        #[trigger] travel_ends_in(*great_circle_mm, line, distance_mm, ds, k) && from == line[k]
                            && to == line[k + 1] && remaining == distance_mm - prefix_sum(ds, k) && length == ds[k],
                }
            }),
    {
        let points = points_in_front(self.path.as_slice(), current_location, direction_coord);
        let ghost line = seq![current_location] + points@;
        if points.len() == 0 {
            return None;
        }
        let mut remaining: u64 = distance_mm;
        let mut from = current_location;
        let mut i: usize = 0;
        let ghost mut ds: Seq<u64> = Seq::empty();
        loop
            invariant
                line == seq![current_location] + points@,
                points@ == front_points(self.path@, current_location, direction_coord),
                forall|a: Coordinate, b: Coordinate| great_circle_mm.requires((a, b)),
                points@.len() >= 1,
                i < points@.len(),
                from == line[i as int],
                ds.len() == i,
                forall|j: int| 0 <= j < i ==> call_ensures(*great_circle_mm, (line[j], line[j + 1]), #[trigger] ds[j]),
                forall|j: int| 0 <= j < i ==> #[trigger] ds[j] <= distance_mm - prefix_sum(ds, j),
                remaining == distance_mm - prefix_sum(ds, i as int),
            decreases points@.len() - i,
        {
            let to = points[i];
            let length = great_circle_mm(from, to);
            proof {
                let old_ds = ds;
                ds = ds.push(length);
                assert forall|j: int| 0 <= j <= i implies prefix_sum(ds, j) == prefix_sum(old_ds, j) by {
                    lemma_prefix_sum_push(old_ds, length, j);
                }
                assert(line[i + 1] == to);
            }
            if remaining < length || i + 1 == points.len() {
                proof {
                    assert(travel_ends_in(*great_circle_mm, line, distance_mm, ds, i as int));
                }
                return Some((from, to, remaining, length));
            }
            remaining = remaining - length;
            from = to;
            i = i + 1;
        }
    }
}

proof fn lemma_prefix_sum_push(ds: Seq<u64>, d: u64, j: int)
    requires
        0 <= j <= ds.len(),
    ensures
        prefix_sum(ds.push(d), j) == prefix_sum(ds, j),
    decreases j,
{
    if j > 0 {
        lemma_prefix_sum_push(ds, d, j - 1);
    }
}

} // verus!
