//! Objects that move on the railway network: their identity, their position in the graph,
//! the targets they head for, their location and their motion; and the train, which has all of
//! these.
use crate::coordinate::Coordinate;
use crate::types::{NodeId, RailwayObjectId};
use std::collections::VecDeque;
use vstd::prelude::*;

verus! {

/// An object on the railway network, with an id and, where it has one, a position: the node
/// of the graph it is at.
pub trait RailwayObject {
    /// The id of the object.
    spec fn object_id(&self) -> RailwayObjectId;

    /// The position of the object.
    spec fn object_position(&self) -> Option<NodeId>;

    /// Returns the id of the object.
    fn id(&self) -> (r: RailwayObjectId)
        ensures
            r == self.object_id(),
    ;

    /// Returns the position of the object.
    fn position(&self) -> (r: Option<NodeId>)
        ensures
            r == self.object_position(),
    ;

    /// Sets the position of the object (`None` takes it off the graph); its id stays.
    fn set_position(&mut self, position: Option<NodeId>)
        ensures
            final(self).object_position() == position,
            final(self).object_id() == old(self).object_id(),
    ;
}

/// An object that heads for one target node at a time.
pub trait NextTarget: RailwayObject {
    /// The target the object heads for.
    spec fn target(&self) -> Option<NodeId>;

    /// Returns the target the object heads for, if it has one.
    fn next_target(&self) -> (r: Option<NodeId>)
        ensures
            r == self.target(),
    ;

    /// Sets the target the object heads for; its id and position stay.
    fn set_next_target(&mut self, target: Option<NodeId>)
        ensures
            final(self).target() == target,
            final(self).object_id() == old(self).object_id(),
            final(self).object_position() == old(self).object_position(),
    ;
}

/// An object with a queue of targets, the first to be reached first.
pub trait MultipleTargets: RailwayObject {
    /// The queue of targets.
    spec fn target_queue(&self) -> Seq<NodeId>;

    /// Returns the queue of targets.
    fn targets(&self) -> (r: &VecDeque<NodeId>)
        ensures
            r@ == self.target_queue(),
    ;

    /// Adds `target` at the end of the queue.
    fn add_target(&mut self, target: NodeId)
        ensures
            final(self).target_queue() == old(self).target_queue().push(target),
            final(self).object_id() == old(self).object_id(),
            final(self).object_position() == old(self).object_position(),
    ;

    /// Removes the first target of the queue and returns it; `None`, and the queue unchanged,
    /// where the queue is empty.
    fn remove_target(&mut self) -> (r: Option<NodeId>)
        ensures
            old(self).target_queue().len() == 0 ==> r is None && final(self).target_queue() == old(self).target_queue(),
            old(self).target_queue().len() > 0 ==> r == Some(old(self).target_queue()[0])
                && final(self).target_queue() == old(self).target_queue().drop_first(),
            final(self).object_id() == old(self).object_id(),
            final(self).object_position() == old(self).object_position(),
    ;
}

/// An object with a geographic location.
pub trait GeoLocation {
    /// The location of the object.
    spec fn location(&self) -> Option<Coordinate>;

    /// Returns the location of the object, if it has one.
    fn geo_location(&self) -> (r: Option<Coordinate>)
        ensures
            r == self.location(),
    ;

    /// Sets the location of the object.
    fn set_geo_location(&mut self, location: Option<Coordinate>)
        ensures
            final(self).location() == location,
    ;
}

/// An object that moves: its greatest speed, its speed and its acceleration.
pub trait Movable {
    /// The greatest speed, in mm/s.
    spec fn top_speed(&self) -> i64;

    /// The current speed, in mm/s.
    spec fn current_speed(&self) -> i64;

    /// The current acceleration, in mm/s².
    spec fn current_acceleration(&self) -> i64;

    /// Returns the greatest speed, in mm/s.
    fn max_speed(&self) -> (r: i64)
        ensures
            r == self.top_speed(),
    ;

    /// Sets the greatest speed, in mm/s.
    fn set_max_speed(&mut self, max_speed: i64)
        ensures
            final(self).top_speed() == max_speed,
            final(self).current_speed() == old(self).current_speed(),
            final(self).current_acceleration() == old(self).current_acceleration(),
    ;

    /// Returns the current speed, in mm/s.
    fn speed(&self) -> (r: i64)
        ensures
            r == self.current_speed(),
    ;

    /// Sets the current speed, in mm/s.
    fn set_speed(&mut self, speed: i64)
        ensures
            final(self).current_speed() == speed,
            final(self).top_speed() == old(self).top_speed(),
            final(self).current_acceleration() == old(self).current_acceleration(),
    ;

    /// Returns the current acceleration, in mm/s².
    fn acceleration(&self) -> (r: i64)
        ensures
            r == self.current_acceleration(),
    ;

    /// Sets the current acceleration, in mm/s².
    fn set_acceleration(&mut self, acceleration: i64)
        ensures
            final(self).current_acceleration() == acceleration,
            final(self).top_speed() == old(self).top_speed(),
            final(self).current_speed() == old(self).current_speed(),
    ;
}

/// A train on the railway network.
#[derive(Debug, Clone)]
pub struct Train {
    /// The id of the train.
    pub id: i64,
    /// The node the train is at, if any.
    pub position: Option<NodeId>,
    /// The geographic location of the train, if known.
    pub geo_location: Option<Coordinate>,
    /// The node the train heads for next, if any.
    pub next_target: Option<i64>,
    /// The nodes the train is to reach, in order.
    pub targets: VecDeque<i64>,
    /// The current speed, in mm/s.
    pub speed: i64,
    /// The greatest speed, in mm/s.
    pub max_speed: i64,
    /// The current acceleration, in mm/s².
    pub acceleration: i64,
}

impl Default for Train {
    fn default() -> (r: Self)
        ensures
            r.id == 0,
            r.position is None,
            r.geo_location is None,
            r.next_target is None,
            r.targets@ == Seq::<i64>::empty(),
            r.speed == 0,
            r.max_speed == 0,
            r.acceleration == 0,
    {
        Train {
            id: 0,
            position: None,
            geo_location: None,
            next_target: None,
            targets: VecDeque::new(),
            speed: 0,
            max_speed: 0,
            acceleration: 0,
        }
    }
}

impl RailwayObject for Train {
    open spec fn object_id(&self) -> RailwayObjectId {
        self.id
    }

    open spec fn object_position(&self) -> Option<NodeId> {
        self.position
    }

    fn id(&self) -> (r: RailwayObjectId) {
        self.id
    }

    fn position(&self) -> (r: Option<NodeId>) {
        self.position
    }

    fn set_position(&mut self, position: Option<NodeId>)
        ensures
            *final(self) == (Train { position, ..*old(self) }),
    {
        self.position = position;
    }
}

impl NextTarget for Train {
    open spec fn target(&self) -> Option<NodeId> {
        self.next_target
    }

    fn next_target(&self) -> (r: Option<NodeId>) {
        self.next_target
    }

    fn set_next_target(&mut self, target: Option<NodeId>)
        ensures
            *final(self) == (Train { next_target: target, ..*old(self) }),
    {
        self.next_target = target;
    }
}

impl MultipleTargets for Train {
    open spec fn target_queue(&self) -> Seq<NodeId> {
        self.targets@
    }

    fn targets(&self) -> (r: &VecDeque<NodeId>) {
        &self.targets
    }

    fn add_target(&mut self, target: NodeId)
        ensures
            final(self).targets@ == old(self).targets@.push(target),
            final(self).id == old(self).id,
            final(self).position == old(self).position,
            final(self).geo_location == old(self).geo_location,
            final(self).next_target == old(self).next_target,
            final(self).speed == old(self).speed,
            final(self).max_speed == old(self).max_speed,
            final(self).acceleration == old(self).acceleration,
    {
        self.targets.push_back(target);
    }

    fn remove_target(&mut self) -> (r: Option<NodeId>)
        ensures
            final(self).id == old(self).id,
            final(self).position == old(self).position,
            final(self).geo_location == old(self).geo_location,
            final(self).next_target == old(self).next_target,
            final(self).speed == old(self).speed,
            final(self).max_speed == old(self).max_speed,
            final(self).acceleration == old(self).acceleration,
    {
        self.targets.pop_front()
    }
}

impl GeoLocation for Train {
    open spec fn location(&self) -> Option<Coordinate> {
        self.geo_location
    }

    fn geo_location(&self) -> (r: Option<Coordinate>) {
        self.geo_location
    }

    fn set_geo_location(&mut self, location: Option<Coordinate>)
        ensures
            *final(self) == (Train { geo_location: location, ..*old(self) }),
    {
        self.geo_location = location;
    }
}

impl Movable for Train {
    open spec fn top_speed(&self) -> i64 {
        self.max_speed
    }

    open spec fn current_speed(&self) -> i64 {
        self.speed
    }

    open spec fn current_acceleration(&self) -> i64 {
        self.acceleration
    }

    fn max_speed(&self) -> (r: i64) {
        self.max_speed
    }

    fn set_max_speed(&mut self, max_speed: i64)
        ensures
            *final(self) == (Train { max_speed, ..*old(self) }),
    {
        self.max_speed = max_speed;
    }

    fn speed(&self) -> (r: i64) {
        self.speed
    }

    fn set_speed(&mut self, speed: i64)
        ensures
            *final(self) == (Train { speed, ..*old(self) }),
    {
        self.speed = speed;
    }

    fn acceleration(&self) -> (r: i64) {
        self.acceleration
    }

    fn set_acceleration(&mut self, acceleration: i64)
        ensures
            *final(self) == (Train { acceleration, ..*old(self) }),
    {
        self.acceleration = acceleration;
    }
}

} // verus!
