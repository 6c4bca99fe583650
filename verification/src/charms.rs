//! What can be cast.
//!
//! The casts form a closed set: smoke, a bolt that carries another cast, and
//! a cluster of casts. One function makes whichever it is given.

use vstd::prelude::*;
use std::rc::Rc;
use crate::entity_heap::{fresh_uid, lemma_fresh_exists, EntityHeap};
use crate::event_queue::{id_count, lemma_load_insert, Event, EventQueue, World};
use crate::events::{lemma_enqueued, lemma_enqueued_keeps, QueueElement};
use crate::forms::effects::{BoltCast, BoltLandEvent, ClusterCast, SmokeCast, SmokeClearEvent};
use crate::physics::Body;
use crate::units::{Displacement, Position};

verus! {

pub enum Cast {
    Smoke(SmokeCast),
    Bolt(BoltCast),
    Cluster(ClusterCast),
}

/// Another handle on a shared cast. `Rc::clone` makes a pointer to the same
/// allocation, so what the new handle points to is what the old one does.
#[verifier::external_body]
pub(crate) fn share(cast: &Rc<Cast>) -> (shared: Rc<Cast>)
    ensures
        shared == *cast,
{
    Rc::clone(cast)
}

impl Cast {
    /// How many entities the cast brings into being before everything it set
    /// off is over, which is also how many events it causes.
    pub open spec fn weight(self) -> nat
        decreases self, 0nat,
    {
        match self {
            Cast::Smoke(_) => 1,
            Cast::Bolt(bolt) => 1 + (*bolt.action).weight(),
            Cast::Cluster(cluster) => Cast::fan_weight(cluster.actions@, cluster.actions@.len()),
        }
    }

    /// The weight of the first `n` casts of a cluster, taken together.
    pub open spec fn fan_weight(actions: Seq<(Displacement, Rc<Cast>)>, n: nat) -> nat
        decreases actions, n,
    {
        if n == 0 || n > actions.len() {
            0
        } else {
            Cast::fan_weight(actions, (n - 1) as nat) + (*actions[n - 1].1).weight()
        }
    }

    /// Whether the cast can be made in `world`, from `ref_frame` at `target`.
    pub open spec fn ready(self, world: World, ref_frame: Body, target: Position) -> bool
        decreases self, 0nat,
    {
        match self {
            Cast::Smoke(smoke) => smoke.ready(world, ref_frame),
            Cast::Bolt(bolt) => bolt.ready(world, ref_frame, target),
            Cast::Cluster(cluster) => Cast::fan_ready(
                cluster.actions@,
                cluster.actions@.len(),
                world,
                ref_frame,
                target,
            ),
        }
    }

    /// The world after the cast was made in `world`, from `ref_frame` at
    /// `target`.
    pub open spec fn outcome(self, world: World, ref_frame: Body, target: Position) -> World
        decreases self, 0nat,
    {
        match self {
            Cast::Smoke(smoke) => smoke.outcome(world, ref_frame),
            Cast::Bolt(bolt) => bolt.outcome(world, ref_frame, target),
            Cast::Cluster(cluster) => Cast::fan_outcome(
                cluster.actions@,
                cluster.actions@.len(),
                world,
                ref_frame,
                target,
            ),
        }
    }

    /// Whether the first `n` casts of a cluster can be made one after the
    /// other, each in the world that the ones before it left.
    pub open spec fn fan_ready(
        actions: Seq<(Displacement, Rc<Cast>)>,
        n: nat,
        world: World,
        ref_frame: Body,
        target: Position,
    ) -> bool
        decreases actions, n,
    {
        if n == 0 || n > actions.len() {
            true
        } else {
            &&& Cast::fan_ready(actions, (n - 1) as nat, world, ref_frame, target)
            &&& target.can_add(actions[n - 1].0)
            &&& (*actions[n - 1].1).ready(
                Cast::fan_outcome(actions, (n - 1) as nat, world, ref_frame, target),
                ref_frame,
                target.plus(actions[n - 1].0),
            )
        }
    }

    /// The world after the first `n` casts of a cluster were made, each from
    /// the same frame and at the target moved by its offset.
    pub open spec fn fan_outcome(
        actions: Seq<(Displacement, Rc<Cast>)>,
        n: nat,
        world: World,
        ref_frame: Body,
        target: Position,
    ) -> World
        decreases actions, n,
    {
        if n == 0 || n > actions.len() {
            world
        } else {
            (*actions[n - 1].1).outcome(
                Cast::fan_outcome(actions, (n - 1) as nat, world, ref_frame, target),
                ref_frame,
                target.plus(actions[n - 1].0),
            )
        }
    }

    /// Where the first `n` casts of a cluster can be made, so can the first
    /// `m` of them, for any `m` up to `n`.
    pub proof fn lemma_fan_ready_prefix(
        actions: Seq<(Displacement, Rc<Cast>)>,
        m: nat,
        n: nat,
        world: World,
        ref_frame: Body,
        target: Position,
    )
        requires
            m <= n <= actions.len(),
            Cast::fan_ready(actions, n, world, ref_frame, target),
        ensures
            Cast::fan_ready(actions, m, world, ref_frame, target),
        decreases n,
    {
        if m < n {
            Cast::lemma_fan_ready_prefix(actions, m, (n - 1) as nat, world, ref_frame, target);
        }
    }

    /// A cast keeps the agenda in order and the time where it is, adds its
    /// weight to the bound on the events still to run, and takes nothing out
    /// of the agenda.
    pub proof fn lemma_cast(cast: &Cast, world: World, ref_frame: Body, target: Position)
        requires
            world.time.wf(),
            cast.ready(world, ref_frame, target),
        ensures
            cast.outcome(world, ref_frame, target).time.wf(),
            cast.outcome(world, ref_frame, target).time.now == world.time.now,
            cast.outcome(world, ref_frame, target).budget() == world.budget() + cast.weight(),
            forall|x: QueueElement<Event>| #[trigger]
                world.time.pending.contains(x) ==> cast.outcome(
                    world,
                    ref_frame,
                    target,
                ).time.pending.contains(x),
        decreases cast, 0nat,
    {
        match cast {
            Cast::Smoke(smoke) => {
                let uid = fresh_uid(world.space);
                let event = Event::SmokeClear(SmokeClearEvent { target: uid });
                lemma_fresh_exists(world.space);
                lemma_enqueued(world.time, event, smoke.duration);
                lemma_enqueued_keeps(world.time, event, smoke.duration);
                lemma_load_insert(
                    world.space,
                    uid,
                    smoke.outcome(world, ref_frame).space[uid],
                    id_count(),
                );
            },
            Cast::Bolt(bolt) => {
                let uid = fresh_uid(world.space);
                let event = Event::BoltLand(BoltLandEvent { target: uid });
                lemma_fresh_exists(world.space);
                lemma_enqueued(world.time, event, bolt.duration);
                lemma_enqueued_keeps(world.time, event, bolt.duration);
                lemma_load_insert(
                    world.space,
                    uid,
                    bolt.outcome(world, ref_frame, target).space[uid],
                    id_count(),
                );
            },
            Cast::Cluster(cluster) => {
                Cast::lemma_fan(
                    cluster.actions@,
                    cluster.actions@.len(),
                    world,
                    ref_frame,
                    target,
                );
            },
        }
    }

    /// The first `n` casts of a cluster keep the agenda in order and the time
    /// where it is, add their weight to the bound on the events still to
    /// run, and take nothing out of the agenda.
    pub proof fn lemma_fan(
        actions: Seq<(Displacement, Rc<Cast>)>,
        n: nat,
        world: World,
        ref_frame: Body,
        target: Position,
    )
        requires
            world.time.wf(),
            n <= actions.len(),
            Cast::fan_ready(actions, n, world, ref_frame, target),
        ensures
            Cast::fan_outcome(actions, n, world, ref_frame, target).time.wf(),
            Cast::fan_outcome(actions, n, world, ref_frame, target).time.now == world.time.now,
            Cast::fan_outcome(actions, n, world, ref_frame, target).budget() == world.budget()
                + Cast::fan_weight(actions, n),
            forall|x: QueueElement<Event>| #[trigger]
                world.time.pending.contains(x) ==> Cast::fan_outcome(
                    actions,
                    n,
                    world,
                    ref_frame,
                    target,
                ).time.pending.contains(x),
        decreases actions, n,
    {
        if n > 0 {
            Cast::lemma_fan(actions, (n - 1) as nat, world, ref_frame, target);
            Cast::lemma_cast(
                &*actions[n - 1].1,
                Cast::fan_outcome(actions, (n - 1) as nat, world, ref_frame, target),
                ref_frame,
                target.plus(actions[n - 1].0),
            );
        }
    }

    /// Makes the cast: puts into the space what it brings into being and
    /// schedules what is to become of it.
    pub fn cast(
        &self,
        space: &mut EntityHeap,
        time: &mut EventQueue,
        ref_frame: Body,
        target: Position,
    )
        requires
            self.ready(World::of(old(space)@, old(time)@), ref_frame, target),
        ensures
            World::of(final(space)@, final(time)@) == self.outcome(
                World::of(old(space)@, old(time)@),
                ref_frame,
                target,
            ),
        decreases self,
    {
        match self {
            Cast::Smoke(smoke) => smoke.cast(space, time, ref_frame, target),
            Cast::Bolt(bolt) => bolt.cast(space, time, ref_frame, target),
            Cast::Cluster(cluster) => {
                assert(decreases_to!(*self => self->Cluster_0));
                cluster.cast(space, time, ref_frame, target)
            },
        }
    }
}

} // verus!
