use openrailwaymap_exporter::coordinate::Coordinate;
use openrailwaymap_exporter::railway_objects::{GeoLocation, Movable, MultipleTargets, NextTarget, RailwayObject, Train};
use std::collections::VecDeque;

fn xy(x: i64, y: i64) -> Coordinate {
    Coordinate { lon: x, lat: y }
}

#[test]
fn test_train() {
    let mut train = Train {
        id: 1,
        position: Some(1),
        geo_location: Some(xy(1, 2)),
        next_target: Some(2),
        targets: VecDeque::from(vec![2, 3, 4]),
        ..Default::default()
    };

    assert_eq!(train.id(), 1);
    assert_eq!(RailwayObject::position(&train), Some(1));
    assert_eq!(GeoLocation::geo_location(&train), Some(xy(1, 2)));
    assert_eq!(NextTarget::next_target(&train), Some(2));
    assert_eq!(MultipleTargets::targets(&train), &VecDeque::from(vec![2, 3, 4]));

    train.set_next_target(None);
    assert_eq!(NextTarget::next_target(&train), None);

    train.add_target(5);
    assert_eq!(MultipleTargets::targets(&train), &VecDeque::from(vec![2, 3, 4, 5]));

    let removed_target = train.remove_target();
    assert_eq!(removed_target, Some(2));
    assert_eq!(MultipleTargets::targets(&train), &VecDeque::from(vec![3, 4, 5]));
}

#[test]
fn test_train_speed() {
    let mut train = Train {
        id: 1,
        position: Some(0),
        geo_location: Some(xy(1, 2)),
        next_target: Some(2),
        targets: VecDeque::from(vec![2, 3, 4]),
        max_speed: 80 * 1_000_000 / 3600,
        speed: 0,
        acceleration: 0,
    };

    assert_eq!(Movable::speed(&train), 0);

    train.set_speed(100 * 1_000_000 / 3600);
    assert_eq!(Movable::speed(&train), 100 * 1_000_000 / 3600);
}

#[test]
fn test_train_acceleration() {
    let mut train = Train {
        id: 1,
        position: Some(0),
        geo_location: Some(xy(1, 2)),
        next_target: Some(2),
        targets: VecDeque::from(vec![2, 3, 4]),
        max_speed: 80 * 1_000_000 / 3600,
        speed: 0,
        acceleration: 0,
    };

    assert_eq!(Movable::acceleration(&train), 0);

    train.set_acceleration(1500);
    assert_eq!(Movable::acceleration(&train), 1500);
}

#[test]
fn remove_target_from_an_empty_queue() {
    let mut train = Train::default();
    assert_eq!(train.remove_target(), None);
    assert!(MultipleTargets::targets(&train).is_empty());
    train.set_position(Some(9));
    assert_eq!(RailwayObject::position(&train), Some(9));
    train.set_geo_location(None);
    assert_eq!(GeoLocation::geo_location(&train), None);
    train.set_max_speed(30);
    assert_eq!(Movable::max_speed(&train), 30);
}
