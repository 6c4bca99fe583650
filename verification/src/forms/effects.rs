//! Smoke, bolts and clusters: what is cast, what it leaves in the space, and
//! the events that take it out again.
//!
//! Every effect runs the same course. Casting it puts an entity into the
//! space and schedules the event that ends it; when that event runs it takes
//! the entity out and, for a bolt, casts what the bolt carried. An event
//! whose entity has left already does nothing.

use vstd::prelude::*;
use std::rc::Rc;
use crate::charms::{share, Cast};
use crate::entity_heap::{fresh_uid, has_room, new_entity, Entity, EntityHeap, UID};
use crate::event_queue::{Event, EventQueue, World};
use crate::physics::Body;
use crate::units::{Displacement, Duration, Position, Scalar, Vec2};

verus! {

broadcast use vstd::std_specs::hash::group_hash_axioms;

/// What gives a shape its colour, as red, green, blue and opacity.
pub trait Effect {
    fn color(&self) -> [u8; 4];
}

#[derive(Clone, Copy, Debug)]
pub struct Circle {
    pub color: [u8; 4],
    pub radius: Scalar,
}

pub struct Smoke {
    pub body: Body,
    pub shape: Circle,
}

/// Takes a cloud of smoke out of the space.
pub struct SmokeClearEvent {
    pub target: UID,
}

impl SmokeClearEvent {
    /// Whether the event can run: what is kept under its id, if anything,
    /// is smoke.
    pub open spec fn ready(self, world: World) -> bool {
        world.space.contains_key(self.target) ==> world.space[self.target] is Smoke
    }

    /// The world after the event has run: the smoke is gone.
    pub open spec fn outcome(self, world: World) -> World {
        World { space: world.space.remove(self.target), time: world.time }
    }

    pub fn invoke(self, space: &mut EntityHeap, time: &mut EventQueue)
        requires
            self.ready(World::of(old(space)@, old(time)@)),
        ensures
            World::of(final(space)@, final(time)@) == self.outcome(
                World::of(old(space)@, old(time)@),
            ),
    {
        match space.remove(&self.target) {
            Some(ent) => {
                let _smoke: Smoke = ent.expect("Smoke for SmokeClearEvent");
            },
            None => {
                assert(space@ == old(space)@);
            },
        }
    }
}

/// A cloud of smoke that stays where it is cast and clears after a while.
pub struct SmokeCast {
    pub shape: Circle,
    pub duration: Duration,
}

impl SmokeCast {
    /// Whether the cast can be made: the frame's position now can be
    /// computed, the space has room, and the clearing can be scheduled.
    pub open spec fn ready(self, world: World, ref_frame: Body) -> bool {
        &&& ref_frame.reaches(world.time.now)
        &&& has_room(world.space)
        &&& world.time.admits(self.duration)
    }

    /// The world after the cast: smoke rests where the frame is now, and its
    /// clearing is due when the duration is over.
    pub open spec fn outcome(self, world: World, ref_frame: Body) -> World {
        let uid = fresh_uid(world.space);
        let smoke = Smoke {
            body: Body::spec_new_frozen(ref_frame.spec_position(world.time.now)),
            shape: self.shape,
        };
        World {
            space: world.space.insert(uid, Entity::Smoke(smoke)),
            time: world.time.enqueued(
                Event::SmokeClear(SmokeClearEvent { target: uid }),
                self.duration,
            ),
        }
    }

    pub fn cast(
        &self,
        space: &mut EntityHeap,
        time: &mut EventQueue,
        ref_frame: Body,
        _target: Position,
    )
        requires
            self.ready(World::of(old(space)@, old(time)@), ref_frame),
        ensures
            World::of(final(space)@, final(time)@) == self.outcome(
                World::of(old(space)@, old(time)@),
                ref_frame,
            ),
    {
        let body = Body::new_frozen(ref_frame.position(time.now()));
        let shape = self.shape;
        let smoke = Smoke { body, shape };

        let uid = new_entity(space, smoke);

        let target = uid;
        let event = SmokeClearEvent { target };

        time.enqueue(Event::SmokeClear(event), self.duration);
    }
}

pub struct Bolt {
    pub body: Body,
    pub shape: Circle,
    pub action: Rc<Cast>,
}

/// Takes a bolt out of the space and casts what it carried.
pub struct BoltLandEvent {
    pub target: UID,
}

impl BoltLandEvent {
    /// Whether the event can run: what is kept under its id, if anything, is
    /// a bolt, and what that bolt carries can be cast where the bolt is.
    pub open spec fn ready(self, world: World) -> bool {
        world.space.contains_key(self.target) ==> {
            &&& world.space[self.target] is Bolt
            &&& (*world.space[self.target]->Bolt_0.action).ready(
                World { space: world.space.remove(self.target), time: world.time },
                world.space[self.target]->Bolt_0.body,
                Vec2 { x: 0, y: 0 },
            )
        }
    }

    /// The world after the event has run: the bolt is gone, and what it
    /// carried has been cast with the bolt as its frame. Nothing changes
    /// where the bolt had left before.
    pub open spec fn outcome(self, world: World) -> World {
        if world.space.contains_key(self.target) {
            (*world.space[self.target]->Bolt_0.action).outcome(
                World { space: world.space.remove(self.target), time: world.time },
                world.space[self.target]->Bolt_0.body,
                Vec2 { x: 0, y: 0 },
            )
        } else {
            world
        }
    }

    pub fn invoke(self, space: &mut EntityHeap, time: &mut EventQueue)
        requires
            self.ready(World::of(old(space)@, old(time)@)),
        ensures
            World::of(final(space)@, final(time)@) == self.outcome(
                World::of(old(space)@, old(time)@),
            ),
    {
        match space.remove(&self.target) {
            Some(ent) => {
                let bolt: Bolt = ent.expect("Bolt for BoltLandEvent");
                bolt.action.cast(space, time, bolt.body, Vec2::zero());
            },
            None => {
                assert(space@ == old(space)@);
            },
        }
    }
}

/// A bolt that flies to the target and, when it lands, casts what it carries.
pub struct BoltCast {
    pub shape: Circle,
    pub duration: Duration,
    pub action: Rc<Cast>,
}

impl BoltCast {
    /// Whether the cast can be made: the frame's position now and the
    /// velocity toward the target can be computed, the space has room, and
    /// the landing can be scheduled.
    pub open spec fn ready(self, world: World, ref_frame: Body, target: Position) -> bool {
        &&& ref_frame.reaches(world.time.now)
        &&& Body::can_aim(ref_frame.spec_position(world.time.now), target, self.duration)
        &&& has_room(world.space)
        &&& world.time.admits(self.duration)
    }

    /// The world after the cast: a bolt has left the frame's position for the
    /// target, and its landing is due when the duration is over.
    pub open spec fn outcome(self, world: World, ref_frame: Body, target: Position) -> World {
        let uid = fresh_uid(world.space);
        let bolt = Bolt {
            body: Body::spec_with_end_point(
                ref_frame.spec_position(world.time.now),
                target,
                world.time.now,
                self.duration,
            ),
            shape: self.shape,
            action: self.action,
        };
        World {
            space: world.space.insert(uid, Entity::Bolt(bolt)),
            time: world.time.enqueued(
                Event::BoltLand(BoltLandEvent { target: uid }),
                self.duration,
            ),
        }
    }

    pub fn cast(
        &self,
        space: &mut EntityHeap,
        time: &mut EventQueue,
        ref_frame: Body,
        target: Position,
    )
        requires
            self.ready(World::of(old(space)@, old(time)@), ref_frame, target),
        ensures
            World::of(final(space)@, final(time)@) == self.outcome(
                World::of(old(space)@, old(time)@),
                ref_frame,
                target,
            ),
    {
        let body = Body::with_end_point(
            ref_frame.position(time.now()),
            target,
            time.now(),
            self.duration,
        );
        let shape = self.shape;
        let action = share(&self.action);
        let bolt = Bolt { body, shape, action };

        let uid = new_entity(space, bolt);

        let target = uid;
        let event = BoltLandEvent { target };

        time.enqueue(Event::BoltLand(event), self.duration);
    }
}

/// Several casts made at once, each at its own offset from the target.
pub struct ClusterCast {
    pub actions: Vec<(Displacement, Rc<Cast>)>,
}

impl ClusterCast {
    /// Whether every cast of the cluster can be made, one after the other.
    pub open spec fn ready(self, world: World, ref_frame: Body, target: Position) -> bool {
        Cast::fan_ready(self.actions@, self.actions@.len(), world, ref_frame, target)
    }

    /// The world after every cast of the cluster has been made, in their
    /// order, from the same frame and each at the target moved by its offset.
    pub open spec fn outcome(self, world: World, ref_frame: Body, target: Position) -> World {
        Cast::fan_outcome(self.actions@, self.actions@.len(), world, ref_frame, target)
    }

    pub fn cast(
        &self,
        space: &mut EntityHeap,
        time: &mut EventQueue,
        ref_frame: Body,
        target: Position,
    )
        requires
            self.ready(World::of(old(space)@, old(time)@), ref_frame, target),
        ensures
            World::of(final(space)@, final(time)@) == self.outcome(
                World::of(old(space)@, old(time)@),
                ref_frame,
                target,
            ),
        decreases self,
    {
        let ghost before = World::of(space@, time@);
        let mut i: usize = 0;
        while i < self.actions.len()
            invariant
                i <= self.actions.len(),
                Cast::fan_ready(self.actions@, self.actions@.len(), before, ref_frame, target),
                World::of(space@, time@) == Cast::fan_outcome(
                    self.actions@,
                    i as nat,
                    before,
                    ref_frame,
                    target,
                ),
            decreases self.actions.len() - i,
        {
            proof {
                Cast::lemma_fan_ready_prefix(
                    self.actions@,
                    (i + 1) as nat,
                    self.actions@.len(),
                    before,
                    ref_frame,
                    target,
                );
                assert(decreases_to!(*self => self.actions));
                assert(decreases_to!(self.actions => self.actions[i as int]));
                assert(decreases_to!(self.actions[i as int] => self.actions[i as int].1));
            }
            let loc = self.actions[i].0;
            self.actions[i].1.cast(space, time, ref_frame, target + loc);
            i = i + 1;
        }
    }
}

} // verus!
