use geo::{HaversineDistance, Point};
use openrailwaymap_exporter::algorithms::{closest_point_in_linestring, is_middle_coord_between, points_in_front};
use openrailwaymap_exporter::coordinate::Coordinate;
use openrailwaymap_exporter::railway_model::RailwayEdge;

fn xy(x: i64, y: i64) -> Coordinate {
    Coordinate { lon: x, lat: y }
}

fn deg(x: f64) -> i64 {
    (x * 1e7).round() as i64
}

fn haversine_mm(a: Coordinate, b: Coordinate) -> u64 {
    let pa = Point::new(a.lon as f64 / 1e7, a.lat as f64 / 1e7);
    let pb = Point::new(b.lon as f64 / 1e7, b.lat as f64 / 1e7);
    (pa.haversine_distance(&pb) * 1000.0).round() as u64
}

#[test]
fn test_closest_point_in_linestring() {
    let linestring = vec![xy(0, 0), xy(0, 10), xy(50, 50), xy(100, 100)];
    let position = xy(10, 20);
    let closest_position = closest_point_in_linestring(position, &linestring);

    assert_eq!(closest_position, xy(0, 10));
}

#[test]
fn closest_point_prefers_the_first_of_equals_and_falls_back_to_the_position() {
    let linestring = vec![xy(0, 10), xy(10, 0), xy(0, 10)];
    assert_eq!(closest_point_in_linestring(xy(0, 0), &linestring), xy(0, 10));
    assert_eq!(closest_point_in_linestring(xy(3, 4), &[]), xy(3, 4));
}

#[test]
fn test_points_in_front() {
    let linestring = vec![xy(0, 0), xy(10, 10), xy(20, 20), xy(30, 30)];
    let current_location = xy(5, 5);
    let target_direction = xy(25, 25);

    let points_in_front = points_in_front(&linestring, current_location, target_direction);

    assert_eq!(points_in_front, vec![xy(10, 10), xy(20, 20), xy(30, 30)]);
}

#[test]
fn points_in_front_of_the_documented_example() {
    let linestring = vec![xy(0, 0), xy(0, 10), xy(50, 50), xy(100, 100)];
    let points = points_in_front(&linestring, xy(10, 20), xy(100, 100));
    assert_eq!(points, vec![xy(50, 50), xy(100, 100)]);
}

#[test]
fn test_is_middle_coord_between() {
    let start_coord = xy(10, 10);
    let middle_coord = xy(20, 20);
    let end_coord = xy(30, 30);

    assert!(is_middle_coord_between(start_coord, middle_coord, end_coord));

    let not_middle_coord = xy(40, 40);

    assert!(!is_middle_coord_between(start_coord, not_middle_coord, end_coord));
}

#[test]
fn middle_coord_between_ends_in_either_order() {
    assert!(is_middle_coord_between(xy(30, 30), xy(20, 20), xy(10, 10)));
    assert!(is_middle_coord_between(xy(10, 10), xy(10, 10), xy(30, 30)));
    assert!(!is_middle_coord_between(xy(10, 10), xy(20, 40), xy(30, 30)));
}

#[test]
fn test_distance_to_end() {
    let edge = RailwayEdge {
        id: 1,
        length: 1166000,
        path: vec![
            Coordinate { lon: deg(13.377054), lat: deg(52.516250) },
            Coordinate { lon: deg(13.378685), lat: deg(52.520165) },
            Coordinate { lon: deg(13.384733), lat: deg(52.522464) },
        ],
        source: 1,
        target: 2,
    };

    // From the first point towards the second: through the second point to the third, about
    // 449 m + 482 m along the path (the 1796 m of three legs, which adds the straight line from
    // the first point to the third, is not a distance along the path; see `distance_to_end`).
    let current_position1 = Coordinate { lon: deg(13.377054), lat: deg(52.516250) };
    let direction1 = Coordinate { lon: deg(13.378685), lat: deg(52.520165) };
    let distance_to_end1 = edge.distance_to_end(current_position1, direction1, &haversine_mm) as f64 / 1000.0;
    assert!((distance_to_end1 - 931.586).abs() <= 1.0);

    // From the second point towards the third.
    let current_position2 = Coordinate { lon: deg(13.378685), lat: deg(52.520165) };
    let direction2 = Coordinate { lon: deg(13.384733), lat: deg(52.522464) };
    let distance_to_end2 = edge.distance_to_end(current_position2, direction2, &haversine_mm) as f64 / 1000.0;
    assert!((distance_to_end2 - 480.0).abs() <= 10.0);
}

#[test]
fn distance_to_end_is_zero_with_nothing_ahead() {
    let edge = RailwayEdge { id: 1, length: 0, path: vec![xy(0, 0), xy(10, 0)], source: 1, target: 2 };
    assert_eq!(edge.distance_to_end(xy(10, 0), xy(20, 0), &haversine_mm), 0);
}

#[test]
fn travel_step_finds_the_step_where_the_distance_runs_out() {
    let edge = RailwayEdge {
        id: 1,
        length: 0,
        path: vec![xy(0, 0), xy(10, 0), xy(30, 0), xy(60, 0)],
        source: 1,
        target: 2,
    };
    let planar = |a: Coordinate, b: Coordinate| -> u64 { (a.lon - b.lon).unsigned_abs() };
    // From the start towards the end: 10, then 20, then 30 long steps.
    assert_eq!(edge.travel_step(xy(0, 0), 5, xy(60, 0), &planar), Some((xy(0, 0), xy(10, 0), 5, 10)));
    assert_eq!(edge.travel_step(xy(0, 0), 15, xy(60, 0), &planar), Some((xy(10, 0), xy(30, 0), 5, 20)));
    assert_eq!(edge.travel_step(xy(0, 0), 100, xy(60, 0), &planar), Some((xy(30, 0), xy(60, 0), 70, 30)));
    // Nothing lies ahead of the end.
    assert_eq!(edge.travel_step(xy(60, 0), 5, xy(70, 0), &planar), None);
}
