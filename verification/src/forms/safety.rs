//! Worlds that stay within bounds.
//!
//! Whether a cast can be made, or an event can run, depends on numbers that
//! must not grow too large and on the space holding what the events expect.
//! This module gives conditions that can be looked at before a cast is made
//! and that are enough for everything the cast sets off: positions stay
//! within reach, times stay within the range of the clock, and every event
//! finds the entity it is meant for, of the kind it is meant for.

use vstd::prelude::*;
use std::rc::Rc;
use crate::charms::Cast;
use crate::entity_heap::{fresh_uid, lemma_fresh_exists, lemma_has_room, Entity, UID};
use crate::event_queue::{
    id_count, lemma_load_empty, lemma_load_insert, lemma_load_remove, lemma_step, Event, World,
};
use crate::events::{lemma_advanced, lemma_enqueued, lemma_settled, Agenda};
use crate::forms::effects::{BoltLandEvent, SmokeClearEvent};
use crate::physics::Body;
use crate::units::{fits, trunc_div, Displacement, Duration, Position, Scalar, Time, Vec2, Vector};

verus! {

/// The farthest that a coordinate of a position may lie from the origin.
pub const REACH: Scalar = 0x1000_0000_0000_0000;

/// The farthest that a coordinate of a target may lie from the origin.
pub const FAR: Scalar = 0x4000_0000_0000_0000;

/// The most events that may be pending or still to come.
pub const CROWD: u64 = 0x4000_0000_0000_0000;

/// Whether both coordinates of `v` lie within `bound` of the origin.
pub open spec fn within(v: Vector, bound: int) -> bool {
    -bound <= v.x <= bound && -bound <= v.y <= bound
}

/// The larger of the sizes of the two coordinates.
pub open spec fn extent(v: Vector) -> int {
    let x = if v.x < 0 {
        -v.x
    } else {
        v.x
    };
    let y = if v.y < 0 {
        -v.y
    } else {
        v.y
    };
    if x < y {
        y
    } else {
        x
    }
}

/// Whether `body` can serve as a frame at `now`: where it is then can be
/// computed and lies within reach.
pub open spec fn steady(body: Body, now: Time) -> bool {
    body.reaches(now) && within(body.position_at(now as int), REACH as int)
}

impl Cast {
    /// Whether the cast, made at `start` at a target within `bound` of the
    /// origin, keeps within bounds with everything it sets off: no duration
    /// is negative, every time that comes up can be represented, every
    /// offset lies within reach, and no bolt is aimed beyond reach.
    pub open spec fn tame(self, bound: int, start: int) -> bool
        decreases self, 0nat,
    {
        match self {
            Cast::Smoke(smoke) => 0 <= smoke.duration && fits(start + smoke.duration),
            Cast::Bolt(bolt) => {
                &&& 0 <= bolt.duration
                &&& fits(start + bolt.duration)
                &&& 0 <= bound <= REACH
                &&& (*bolt.action).tame(0, start + bolt.duration)
            },
            Cast::Cluster(cluster) => 0 <= bound && Cast::fan_tame(
                cluster.actions@,
                cluster.actions@.len(),
                bound,
                start,
            ),
        }
    }

    /// Whether the first `n` casts of a cluster are tame, each at the target
    /// moved by its offset.
    pub open spec fn fan_tame(
        actions: Seq<(Displacement, Rc<Cast>)>,
        n: nat,
        bound: int,
        start: int,
    ) -> bool
        decreases actions, n,
    {
        if n == 0 || n > actions.len() {
            true
        } else {
            &&& Cast::fan_tame(actions, (n - 1) as nat, bound, start)
            &&& bound + extent(actions[n - 1].0@) <= FAR
            &&& (*actions[n - 1].1).tame(bound + extent(actions[n - 1].0@), start)
        }
    }
}

impl Event {
    /// The id of the entity that the event is meant for.
    pub open spec fn target(self) -> UID {
        match self {
            Event::SmokeClear(event) => event.target,
            Event::BoltLand(event) => event.target,
        }
    }
}

impl World {
    /// Whether the space holds what the pending event at `i` is meant for:
    /// smoke for a clearing; for a landing a bolt that is within reach when
    /// it lands and carries a cast that is tame then.
    pub open spec fn holds_for(self, i: int) -> bool {
        let element = self.time.pending[i];
        let uid = element.call_back.target();
        &&& self.space.contains_key(uid)
        &&& match element.call_back {
            Event::SmokeClear(_) => self.space[uid] is Smoke,
            Event::BoltLand(_) => {
                &&& self.space[uid] is Bolt
                &&& steady(self.space[uid]->Bolt_0.body, element.execute_time)
                &&& (*self.space[uid]->Bolt_0.action).tame(0, element.execute_time as int)
            },
        }
    }

    /// Whether every pending event finds what it is meant for.
    pub open spec fn linked(self) -> bool {
        forall|i: int| 0 <= i < self.time.pending.len() ==> #[trigger] self.holds_for(i)
    }

    /// Whether no two pending events are meant for the same entity.
    pub open spec fn apart(self) -> bool {
        forall|i: int, j: int|
            0 <= i < j < self.time.pending.len() ==> (
            #[trigger] self.time.pending[i]).call_back.target() != (
            #[trigger] self.time.pending[j]).call_back.target()
    }

    /// Whether the world is one in which all goes well from here on: the
    /// agenda is in order, every entity has its one event pending and every
    /// event its entity, and no more events are pending or still to come
    /// than there may be.
    pub open spec fn sound(self) -> bool {
        &&& self.time.wf()
        &&& self.space.dom().finite()
        &&& self.space.len() == self.time.pending.len()
        &&& self.budget() <= CROWD
        &&& self.linked()
        &&& self.apart()
    }
}

/// The product of a quotient, rounded toward zero, with any part of the
/// divisor lies between zero and what was divided.
pub proof fn lemma_part_way(a: int, d: int, s: int)
    requires
        0 <= s <= d,
        0 < d,
    ensures
        a >= 0 ==> 0 <= trunc_div(a, d) * s <= a,
        a <= 0 ==> a <= trunc_div(a, d) * s <= 0,
        a >= 0 ==> 0 <= trunc_div(a, d) <= a,
        a <= 0 ==> a <= trunc_div(a, d) <= 0,
{
    if a >= 0 {
        let q = a / d;
        vstd::arithmetic::div_mod::lemma_fundamental_div_mod(a, d);
        assert(0 <= q && q * d <= a && q <= a) by (nonlinear_arith)
            requires
                a == d * q + a % d,
                0 <= a % d < d,
                0 < d,
                0 <= a,
        ;
        assert(0 <= q * s <= q * d) by (nonlinear_arith)
            requires
                0 <= q,
                0 <= s <= d,
        ;
    } else {
        let q = (-a) / d;
        vstd::arithmetic::div_mod::lemma_fundamental_div_mod(-a, d);
        assert(0 <= q && q * d <= -a && q <= -a) by (nonlinear_arith)
            requires
                -a == d * q + (-a) % d,
                0 <= (-a) % d < d,
                0 < d,
                0 <= -a,
        ;
        assert(0 <= q * s <= q * d) by (nonlinear_arith)
            requires
                0 <= q,
                0 <= s <= d,
        ;
        assert((-q) * s == -(q * s)) by (nonlinear_arith);
    }
}

/// A body aimed from within reach at a target within reach stays within
/// reach all the way: from when it leaves until its time is up, where it is
/// can be computed and lies between where it left and where it was aimed.
pub proof fn lemma_aim_stays(start: Position, end: Position, t0: Time, d: Duration, t: Time)
    requires
        0 <= d,
        t0 <= t <= t0 + d,
        within(start@, REACH as int),
        within(end@, REACH as int),
    ensures
        Body::can_aim(start, end, d),
        steady(Body::spec_with_end_point(start, end, t0, d), t),
{
    let body = Body::spec_with_end_point(start, end, t0, d);
    if d == 0 {
        assert(0 * (t - 0) == 0) by (nonlinear_arith);
    } else {
        let s = t - t0;
        lemma_part_way(end.x - start.x, d as int, s);
        lemma_part_way(end.y - start.y, d as int, s);
    }
}

/// What a world is after an entity entered under a free id together with
/// the event that is meant for it.
pub open spec fn entered(world: World, uid: UID, ent: Entity, event: Event, delay: Duration) -> World {
    World { space: world.space.insert(uid, ent), time: world.time.enqueued(event, delay) }
}

/// Whether `ent` is what `event`, due at `due`, is meant to find.
pub open spec fn meant_for(ent: Entity, event: Event, due: Time) -> bool {
    match event {
        Event::SmokeClear(_) => ent is Smoke,
        Event::BoltLand(_) => {
            &&& ent is Bolt
            &&& steady(ent->Bolt_0.body, due)
            &&& (*ent->Bolt_0.action).tame(0, due as int)
        },
    }
}

/// A sound world stays sound when an entity enters under a free id together
/// with the event that is meant for it.
pub proof fn lemma_entered(world: World, uid: UID, ent: Entity, event: Event, delay: Duration)
    requires
        world.sound(),
        !world.space.contains_key(uid),
        event.target() == uid,
        world.time.admits(delay),
        meant_for(ent, event, (world.time.now + delay) as Time),
        world.budget() + 1 + ent.weight() <= CROWD,
    ensures
        entered(world, uid, ent, event, delay).sound(),
        entered(world, uid, ent, event, delay).budget() == world.budget() + 1 + ent.weight(),
        entered(world, uid, ent, event, delay).time.now == world.time.now,
{
    let after = entered(world, uid, ent, event, delay);
    let due = (world.time.now + delay) as Time;
    let k = world.time.slot(due);
    lemma_enqueued(world.time, event, delay);
    lemma_load_insert(world.space, uid, ent, id_count());
    assert(after.space.dom() =~= world.space.dom().insert(uid));
    assert forall|i: int| 0 <= i < after.time.pending.len() implies #[trigger] after.holds_for(
        i,
    ) by {
        if i < k {
            assert(after.time.pending[i] == world.time.pending[i]);
            assert(world.holds_for(i));
        } else if i > k {
            assert(after.time.pending[i] == world.time.pending[i - 1]);
            assert(world.holds_for(i - 1));
        }
    }
    assert forall|i: int, j: int| 0 <= i < j < after.time.pending.len() implies (
    #[trigger] after.time.pending[i]).call_back.target() != (
    #[trigger] after.time.pending[j]).call_back.target() by {
        let before_i = if i < k {
            i
        } else {
            i - 1
        };
        let before_j = if j < k {
            j
        } else {
            j - 1
        };
        if i != k {
            assert(after.time.pending[i] == world.time.pending[before_i]);
            assert(world.holds_for(before_i));
        }
        if j != k {
            assert(after.time.pending[j] == world.time.pending[before_j]);
            assert(world.holds_for(before_j));
        }
    }
}

/// What a world is after its first pending event was taken out to run and
/// the entity it is meant for has left.
pub open spec fn left(world: World) -> World {
    World {
        space: world.space.remove(world.first().target()),
        time: world.time.advanced(),
    }
}

/// A sound world stays sound when its first pending event is taken out and
/// the entity it is meant for leaves. The time is then that event's.
pub proof fn lemma_left(world: World)
    requires
        world.sound(),
        world.time.pending.len() > 0,
    ensures
        left(world).sound(),
        left(world).time.now == world.time.pending[0].execute_time,
        left(world).budget() + 1 + world.space[world.first().target()].weight()
            == world.budget(),
        world.holds_for(0),
{
    let after = left(world);
    let uid = world.first().target();
    lemma_advanced(world.time);
    lemma_load_remove(world.space, uid, id_count());
    assert(world.holds_for(0));
    assert(after.space.dom() =~= world.space.dom().remove(uid));
    assert forall|i: int| 0 <= i < after.time.pending.len() implies #[trigger] after.holds_for(
        i,
    ) by {
        assert(after.time.pending[i] == world.time.pending[i + 1]);
        assert(world.holds_for(i + 1));
        assert(world.time.pending[0].call_back.target() != world.time.pending[i
            + 1].call_back.target());
    }
    assert forall|i: int, j: int| 0 <= i < j < after.time.pending.len() implies (
    #[trigger] after.time.pending[i]).call_back.target() != (
    #[trigger] after.time.pending[j]).call_back.target() by {
        assert(after.time.pending[i] == world.time.pending[i + 1]);
        assert(after.time.pending[j] == world.time.pending[j + 1]);
    }
}

impl Cast {
    /// A tame cast can be made in a sound world, from a steady frame and at
    /// a target within its bound, and leaves the world sound.
    pub proof fn lemma_cast_sound(
        cast: &Cast,
        world: World,
        ref_frame: Body,
        target: Position,
        bound: int,
    )
        requires
            world.sound(),
            cast.tame(bound, world.time.now as int),
            within(target@, bound),
            steady(ref_frame, world.time.now),
            world.budget() + cast.weight() <= CROWD,
        ensures
            cast.ready(world, ref_frame, target),
            cast.outcome(world, ref_frame, target).sound(),
            cast.outcome(world, ref_frame, target).budget() == world.budget() + cast.weight(),
            cast.outcome(world, ref_frame, target).time.now == world.time.now,
        decreases cast, 0nat,
    {
        let now = world.time.now;
        match cast {
            Cast::Smoke(smoke) => {
                lemma_has_room(world.space);
                lemma_fresh_exists(world.space);
                let uid = fresh_uid(world.space);
                let after = smoke.outcome(world, ref_frame);
                lemma_entered(
                    world,
                    uid,
                    after.space[uid],
                    Event::SmokeClear(SmokeClearEvent { target: uid }),
                    smoke.duration,
                );
                assert(after.space == world.space.insert(uid, after.space[uid]));
            },
            Cast::Bolt(bolt) => {
                lemma_has_room(world.space);
                lemma_fresh_exists(world.space);
                let uid = fresh_uid(world.space);
                let after = bolt.outcome(world, ref_frame, target);
                lemma_aim_stays(
                    ref_frame.spec_position(now),
                    target,
                    now,
                    bolt.duration,
                    (now + bolt.duration) as Time,
                );
                lemma_entered(
                    world,
                    uid,
                    after.space[uid],
                    Event::BoltLand(BoltLandEvent { target: uid }),
                    bolt.duration,
                );
                assert(after.space == world.space.insert(uid, after.space[uid]));
            },
            Cast::Cluster(cluster) => {
                Cast::lemma_fan_sound(
                    cluster.actions@,
                    cluster.actions@.len(),
                    world,
                    ref_frame,
                    target,
                    bound,
                );
            },
        }
    }

    /// The first `n` casts of a tame cluster can be made one after the other
    /// in a sound world and leave the world sound.
    pub proof fn lemma_fan_sound(
        actions: Seq<(Displacement, Rc<Cast>)>,
        n: nat,
        world: World,
        ref_frame: Body,
        target: Position,
        bound: int,
    )
        requires
            n <= actions.len(),
            world.sound(),
            0 <= bound,
            Cast::fan_tame(actions, n, bound, world.time.now as int),
            within(target@, bound),
            steady(ref_frame, world.time.now),
            world.budget() + Cast::fan_weight(actions, n) <= CROWD,
        ensures
            Cast::fan_ready(actions, n, world, ref_frame, target),
            Cast::fan_outcome(actions, n, world, ref_frame, target).sound(),
            Cast::fan_outcome(actions, n, world, ref_frame, target).budget() == world.budget()
                + Cast::fan_weight(actions, n),
            Cast::fan_outcome(actions, n, world, ref_frame, target).time.now == world.time.now,
        decreases actions, n,
    {
        if n > 0 {
            Cast::lemma_fan_sound(actions, (n - 1) as nat, world, ref_frame, target, bound);
            let offset = actions[n - 1].0;
            Cast::lemma_cast_sound(
                &*actions[n - 1].1,
                Cast::fan_outcome(actions, (n - 1) as nat, world, ref_frame, target),
                ref_frame,
                target.plus(offset),
                bound + extent(offset@),
            );
        }
    }
}

/// In a sound world the event that is due next can run, and it leaves the
/// world sound.
pub proof fn lemma_step_sound(world: World)
    requires
        world.sound(),
        world.time.pending.len() > 0,
    ensures
        world.step_ready(),
        world.step().sound(),
{
    lemma_left(world);
    let event = world.first();
    let uid = event.target();
    match event {
        Event::SmokeClear(clear) => {
            assert(world.step() == left(world));
        },
        Event::BoltLand(land) => {
            let bolt = world.space[uid]->Bolt_0;
            Cast::lemma_cast_sound(&*bolt.action, left(world), bolt.body, Vec2 { x: 0, y: 0 }, 0);
        },
    }
}

/// In a sound world every event that falls due can run when its turn comes,
/// however long the world is left to run, and the world is sound afterwards.
pub proof fn lemma_run_sound(world: World, until: Time)
    requires
        world.sound(),
    ensures
        world.run_ready(until),
        world.run(until).sound(),
        world.run(until).budget() <= world.budget(),
    decreases world.budget(),
{
    if world.time.due(until) {
        lemma_step_sound(world);
        lemma_step(world);
        lemma_run_sound(world.step(), until);
    } else {
        lemma_settled(world.time, until);
        let after = world.run(until);
        assert forall|i: int| 0 <= i < after.time.pending.len() implies #[trigger] after.holds_for(
            i,
        ) by {
            assert(world.holds_for(i));
        }
    }
}

/// An empty world at any time is sound.
pub proof fn lemma_empty_sound(now: Time)
    ensures
        World::of(Map::<UID, Entity>::empty(), Agenda { now, pending: Seq::empty() }).sound(),
        World::of(Map::<UID, Entity>::empty(), Agenda { now, pending: Seq::empty() }).budget()
            == 0,
{
    lemma_load_empty(id_count());
}

/// The size of the larger coordinate of `v`, where it is no more than `FAR`.
pub fn reach_of(v: Vec2) -> (reach: Option<Scalar>)
    ensures
        extent(v@) <= FAR ==> reach == Some(extent(v@) as Scalar),
        extent(v@) > FAR ==> reach.is_none(),
{
    if v.x < -FAR || v.x > FAR || v.y < -FAR || v.y > FAR {
        return None;
    }
    let x = if v.x < 0 {
        -v.x
    } else {
        v.x
    };
    let y = if v.y < 0 {
        -v.y
    } else {
        v.y
    };
    if x < y {
        Some(y)
    } else {
        Some(x)
    }
}

/// Whether `body` can serve as a frame at `now`.
pub fn is_steady(body: &Body, now: Time) -> (ok: bool)
    ensures
        ok == steady(*body, now),
{
    match body.try_position(now) {
        Some(place) => -REACH <= place.x && place.x <= REACH && -REACH <= place.y && place.y
            <= REACH,
        None => false,
    }
}

impl Cast {
    /// Where the first `n` casts of a cluster are tame, so are the first `m`
    /// of them, for any `m` up to `n`.
    pub proof fn lemma_fan_tame_prefix(
        actions: Seq<(Displacement, Rc<Cast>)>,
        m: nat,
        n: nat,
        bound: int,
        start: int,
    )
        requires
            m <= n <= actions.len(),
            Cast::fan_tame(actions, n, bound, start),
        ensures
            Cast::fan_tame(actions, m, bound, start),
        decreases n,
    {
        if m < n {
            Cast::lemma_fan_tame_prefix(actions, m, (n - 1) as nat, bound, start);
        }
    }

    /// The first `m` casts of a cluster weigh no more than the first `n`,
    /// for any `m` up to `n`.
    pub proof fn lemma_fan_weight_prefix(actions: Seq<(Displacement, Rc<Cast>)>, m: nat, n: nat)
        requires
            m <= n <= actions.len(),
        ensures
            Cast::fan_weight(actions, m) <= Cast::fan_weight(actions, n),
        decreases n,
    {
        if m < n {
            Cast::lemma_fan_weight_prefix(actions, m, (n - 1) as nat);
        }
    }

    /// Whether the cast, made at `start` at a target within `bound` of the
    /// origin, keeps within bounds with everything it sets off.
    pub fn is_tame(&self, bound: Scalar, start: Time) -> (ok: bool)
        ensures
            ok == self.tame(bound as int, start as int),
        decreases self,
    {
        match self {
            Cast::Smoke(smoke) => 0 <= smoke.duration && start.checked_add(
                smoke.duration,
            ).is_some(),
            Cast::Bolt(bolt) => {
                if bolt.duration < 0 || bound < 0 || bound > REACH {
                    return false;
                }
                match start.checked_add(bolt.duration) {
                    Some(landing) => bolt.action.is_tame(0, landing),
                    None => false,
                }
            },
            Cast::Cluster(cluster) => {
                if bound < 0 {
                    return false;
                }
                let mut i: usize = 0;
                while i < cluster.actions.len()
                    invariant
                        i <= cluster.actions.len(),
                        0 <= bound,
                        *self == Cast::Cluster(*cluster),
                        Cast::fan_tame(cluster.actions@, i as nat, bound as int, start as int),
                    decreases cluster.actions.len() - i,
                {
                    proof {
                        if Cast::fan_tame(
                            cluster.actions@,
                            cluster.actions@.len(),
                            bound as int,
                            start as int,
                        ) {
                            Cast::lemma_fan_tame_prefix(
                                cluster.actions@,
                                (i + 1) as nat,
                                cluster.actions@.len(),
                                bound as int,
                                start as int,
                            );
                        }
                        assert(self->Cluster_0 == *cluster);
                        assert(decreases_to!(*self => self->Cluster_0));
                        assert(decreases_to!(*cluster => cluster.actions));
                        assert(decreases_to!(cluster.actions => cluster.actions[i as int]));
                        assert(decreases_to!(cluster.actions[i as int] => cluster.actions[i as int].1));
                    }
                    let reach = match reach_of(cluster.actions[i].0) {
                        Some(reach) => reach,
                        None => {
                            return false;
                        },
                    };
                    if bound > FAR - reach {
                        return false;
                    }
                    if !cluster.actions[i].1.is_tame(bound + reach, start) {
                        return false;
                    }
                    i = i + 1;
                }
                true
            },
        }
    }

    /// How many events the cast causes, where they are no more than `limit`.
    pub fn weigh(&self, limit: u64) -> (weight: Option<u64>)
        ensures
            self.weight() <= limit ==> weight == Some(self.weight() as u64),
            self.weight() > limit ==> weight.is_none(),
        decreases self,
    {
        match self {
            Cast::Smoke(_) => if limit >= 1 {
                Some(1)
            } else {
                None
            },
            Cast::Bolt(bolt) => {
                if limit == 0 {
                    return None;
                }
                match bolt.action.weigh(limit - 1) {
                    Some(weight) => Some(weight + 1),
                    None => None,
                }
            },
            Cast::Cluster(cluster) => {
                let mut total: u64 = 0;
                let mut i: usize = 0;
                while i < cluster.actions.len()
                    invariant
                        i <= cluster.actions.len(),
                        *self == Cast::Cluster(*cluster),
                        total == Cast::fan_weight(cluster.actions@, i as nat),
                        total <= limit,
                    decreases cluster.actions.len() - i,
                {
                    proof {
                        Cast::lemma_fan_weight_prefix(
                            cluster.actions@,
                            (i + 1) as nat,
                            cluster.actions@.len(),
                        );
                        assert(self->Cluster_0 == *cluster);
                        assert(decreases_to!(*self => self->Cluster_0));
                        assert(decreases_to!(*cluster => cluster.actions));
                        assert(decreases_to!(cluster.actions => cluster.actions[i as int]));
                        assert(decreases_to!(cluster.actions[i as int] => cluster.actions[i as int].1));
                    }
                    match cluster.actions[i].1.weigh(limit - total) {
                        Some(weight) => {
                            total = total + weight;
                        },
                        None => {
                            return None;
                        },
                    }
                    i = i + 1;
                }
                Some(total)
            },
        }
    }
}

} // verus!
