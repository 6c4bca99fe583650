//! The scheduler of a space of entities.
//!
//! Events take entities out of the space and may cast new ones into it. The
//! scheduler runs them in the order of their times, and does so until a given
//! time is reached.

use vstd::prelude::*;
use crate::charms::Cast;
use crate::entity_heap::{fresh_uid, Entity, EntityHeap, UID};
use crate::events::{
    lemma_advanced, lemma_drained, lemma_enqueued_keeps, lemma_settled, Agenda, QueueElement,
};
use crate::forms::effects::{BoltLandEvent, SmokeClearEvent};
use crate::units::{Duration, Time, Vec2};

verus! {

/// What the scheduler can run.
pub enum Event {
    SmokeClear(SmokeClearEvent),
    BoltLand(BoltLandEvent),
}

pub type EventQueue = crate::events::EventQueue<Event>;

/// A space and its scheduler, as one mathematical value.
pub struct World {
    pub space: Map<UID, Entity>,
    pub time: Agenda<Event>,
}

impl Event {
    /// Whether the event can run in `world`.
    pub open spec fn ready(self, world: World) -> bool {
        match self {
            Event::SmokeClear(event) => event.ready(world),
            Event::BoltLand(event) => event.ready(world),
        }
    }

    /// The world after the event has run in `world`.
    pub open spec fn outcome(self, world: World) -> World {
        match self {
            Event::SmokeClear(event) => event.outcome(world),
            Event::BoltLand(event) => event.outcome(world),
        }
    }

    /// Runs the event, which uses it up.
    pub fn invoke(self, space: &mut EntityHeap, time: &mut EventQueue)
        requires
            self.ready(World::of(old(space)@, old(time)@)),
        ensures
            World::of(final(space)@, final(time)@) == self.outcome(
                World::of(old(space)@, old(time)@),
            ),
    {
        match self {
            Event::SmokeClear(event) => event.invoke(space, time),
            Event::BoltLand(event) => event.invoke(space, time),
        }
    }
}

impl Entity {
    /// How many events an entity still causes once it has left the space: a
    /// bolt casts what it carries, smoke leaves nothing behind.
    pub open spec fn weight(self) -> nat {
        match self {
            Entity::Bolt(bolt) => (*bolt.action).weight(),
            Entity::Smoke(_) => 0,
        }
    }
}

/// The number of ids there are.
pub open spec fn id_count() -> nat {
    0x1_0000_0000_0000_0000
}

/// The weight of what `space` keeps under `uid`, if anything.
pub open spec fn weight_at(space: Map<UID, Entity>, uid: UID) -> nat {
    if space.contains_key(uid) {
        space[uid].weight()
    } else {
        0
    }
}

/// The weight of the entities that `space` keeps under the first `n` ids.
pub open spec fn load(space: Map<UID, Entity>, n: nat) -> nat
    decreases n,
{
    if n == 0 {
        0
    } else {
        load(space, (n - 1) as nat) + weight_at(space, (n - 1) as UID)
    }
}

/// An empty space has no load.
pub proof fn lemma_load_empty(n: nat)
    ensures
        load(Map::<UID, Entity>::empty(), n) == 0,
    decreases n,
{
    if n > 0 {
        lemma_load_empty((n - 1) as nat);
    }
}

/// An entity that enters under a free id adds its weight to the load.
pub proof fn lemma_load_insert(space: Map<UID, Entity>, uid: UID, ent: Entity, n: nat)
    requires
        !space.contains_key(uid),
        n <= id_count(),
    ensures
        load(space.insert(uid, ent), n) == load(space, n) + if uid < n {
            ent.weight()
        } else {
            0
        },
    decreases n,
{
    if n > 0 {
        lemma_load_insert(space, uid, ent, (n - 1) as nat);
    }
}

/// An entity that leaves takes its weight off the load.
pub proof fn lemma_load_remove(space: Map<UID, Entity>, uid: UID, n: nat)
    requires
        n <= id_count(),
    ensures
        load(space.remove(uid), n) + (if uid < n {
            weight_at(space, uid)
        } else {
            0
        }) == load(space, n),
    decreases n,
{
    if n > 0 {
        lemma_load_remove(space, uid, (n - 1) as nat);
    }
}

impl World {
    pub open spec fn of(space: Map<UID, Entity>, time: Agenda<Event>) -> World {
        World { space, time }
    }

    /// The event that runs next, where one is pending.
    pub open spec fn first(self) -> Event {
        self.time.pending[0].call_back
    }

    /// The world in which the next event runs: the event has left the agenda
    /// and the time is the event's.
    pub open spec fn at_next(self) -> World {
        World { space: self.space, time: self.time.advanced() }
    }

    /// Whether the next event, if one is pending, can run.
    pub open spec fn step_ready(self) -> bool {
        self.time.pending.len() > 0 ==> self.first().ready(self.at_next())
    }

    /// The world after the next event has run; the same world where nothing
    /// is pending.
    pub open spec fn step(self) -> World {
        if self.time.pending.len() > 0 {
            self.first().outcome(self.at_next())
        } else {
            self
        }
    }

    /// A bound on the events that can still run: those pending and those
    /// that the bolts in the space will cause.
    pub open spec fn budget(self) -> nat {
        self.time.pending.len() + load(self.space, id_count())
    }

    /// Whether the world is one in which an event is due by `until` and can
    /// run.
    pub open spec fn proceeds(self, until: Time) -> bool {
        self.time.wf() && self.time.due(until) && self.step_ready()
    }

    /// Whether every event that falls due by `until` can run when its turn
    /// comes, those included that are enqueued on the way.
    pub open spec fn run_ready(self, until: Time) -> bool
        decreases self.budget(),
        via World::run_ready_ends
    {
        if self.proceeds(until) {
            self.step().run_ready(until)
        } else {
            !(self.time.wf() && self.time.due(until))
        }
    }

    #[via_fn]
    proof fn run_ready_ends(self, until: Time) {
        if self.proceeds(until) {
            lemma_step(self);
        }
    }

    /// The world after every event due by `until` has run, in the order of
    /// their times, and the time has caught up with `until`.
    pub open spec fn run(self, until: Time) -> World
        decreases self.budget(),
        via World::run_ends
    {
        if self.proceeds(until) {
            self.step().run(until)
        } else {
            World { space: self.space, time: self.time.settled(until) }
        }
    }

    #[via_fn]
    proof fn run_ends(self, until: Time) {
        if self.proceeds(until) {
            lemma_step(self);
        }
    }
}

/// An event that runs keeps the agenda in order and the time where it is,
/// causes no more events than the entity it took out was good for, and
/// takes nothing out of the agenda.
pub proof fn lemma_event(event: Event, world: World)
    requires
        world.time.wf(),
        event.ready(world),
    ensures
        event.outcome(world).time.wf(),
        event.outcome(world).time.now == world.time.now,
        event.outcome(world).budget() == world.budget(),
        forall|x: QueueElement<Event>| #[trigger]
            world.time.pending.contains(x) ==> event.outcome(world).time.pending.contains(x),
{
    match event {
        Event::SmokeClear(clear) => {
            lemma_load_remove(world.space, clear.target, id_count());
        },
        Event::BoltLand(land) => {
            if world.space.contains_key(land.target) {
                let bolt = world.space[land.target]->Bolt_0;
                let without = World { space: world.space.remove(land.target), time: world.time };
                lemma_load_remove(world.space, land.target, id_count());
                Cast::lemma_cast(&*bolt.action, without, bolt.body, Vec2 { x: 0, y: 0 });
            }
        },
    }
}

/// Each event that runs brings the end nearer: the time is then the event's
/// own, no earlier than before, the agenda is in order, and the bound on the
/// events still to run has gone down by one. Only the event that ran has
/// left the agenda: whatever was pending behind it is pending still.
pub proof fn lemma_step(world: World)
    requires
        world.time.wf(),
        world.time.pending.len() > 0,
        world.step_ready(),
    ensures
        world.step().time.wf(),
        world.step().time.now == world.time.pending[0].execute_time,
        world.time.now <= world.step().time.now,
        world.step().budget() + 1 == world.budget(),
        forall|i: int|
            1 <= i < world.time.pending.len() ==> world.step().time.pending.contains(
                #[trigger] world.time.pending[i],
            ),
{
    lemma_advanced(world.time);
    lemma_event(world.first(), world.at_next());
    assert forall|i: int| 1 <= i < world.time.pending.len() implies world.step().time.pending.contains(
        #[trigger] world.time.pending[i],
    ) by {
        assert(world.at_next().time.pending[i - 1] == world.time.pending[i]);
        assert(world.at_next().time.pending.contains(world.time.pending[i]));
    }
}

/// After a run nothing is pending that was due by `until`, and the time is
/// `until` unless that had passed before.
pub proof fn lemma_run(world: World, until: Time)
    requires
        world.time.wf(),
        world.run_ready(until),
    ensures
        world.run(until).time.wf(),
        !world.run(until).time.due(until),
        forall|i: int|
            0 <= i < world.run(until).time.pending.len() ==> (
            #[trigger] world.run(until).time.pending[i]).execute_time > until,
        until >= world.time.now ==> world.run(until).time.now == until,
        until < world.time.now ==> world.run(until).time.now == world.time.now,
    decreases world.budget(),
{
    if world.proceeds(until) {
        lemma_step(world);
        lemma_run(world.step(), until);
    } else {
        lemma_settled(world.time, until);
    }
}

impl World {
    /// The world after the next `n` events have run, one after the other.
    pub open spec fn stepped(self, n: nat) -> World
        decreases n,
    {
        if n == 0 {
            self
        } else {
            self.stepped((n - 1) as nat).step()
        }
    }

    /// Whether the next `n` events can run one after the other: each time
    /// an event is pending, and it can run.
    pub open spec fn steps_ready(self, n: nat) -> bool
        decreases n,
    {
        if n == 0 {
            true
        } else {
            &&& self.steps_ready((n - 1) as nat)
            &&& self.stepped((n - 1) as nat).time.pending.len() > 0
            &&& self.stepped((n - 1) as nat).step_ready()
        }
    }
}

/// Events run in the order of their times, whatever they enqueue while
/// they run. Let any number of events run one after the other: the time
/// after each is the time of the event that just ran, and it is never
/// earlier than the time after an event that ran before it.
pub proof fn lemma_steps_in_order(world: World, i: nat, j: nat)
    requires
        world.time.wf(),
        0 < i <= j,
        world.steps_ready(j),
    ensures
        world.stepped(i).time.wf(),
        world.stepped(j).time.wf(),
        world.stepped(i).time.now == world.stepped((i - 1) as nat).time.pending[0].execute_time,
        world.stepped(j).time.now == world.stepped((j - 1) as nat).time.pending[0].execute_time,
        world.time.now <= world.stepped(i).time.now <= world.stepped(j).time.now,
    decreases j,
{
    lemma_stepped(world, (j - 1) as nat);
    lemma_step(world.stepped((j - 1) as nat));
    if i < j {
        lemma_steps_in_order(world, i, (j - 1) as nat);
    } else {
        lemma_stepped(world, j);
    }
}

/// Letting events run one after the other keeps the agenda in order and
/// never moves the time back.
pub proof fn lemma_stepped(world: World, n: nat)
    requires
        world.time.wf(),
        world.steps_ready(n),
    ensures
        world.stepped(n).time.wf(),
        world.time.now <= world.stepped(n).time.now,
        forall|m: nat| m <= n ==> world.steps_ready(m),
    decreases n,
{
    if n > 0 {
        lemma_stepped(world, (n - 1) as nat);
        lemma_step(world.stepped((n - 1) as nat));
    }
}

/// Events that enqueue nothing run once each, in the order of the agenda.
/// Where the first `n` pending events are clearings of smoke, the agenda
/// after they have run is the agenda with its first `n` events taken out:
/// the time is that of the last of them, and what was pending behind them
/// is pending, and nothing else.
pub proof fn lemma_clearings_drain(world: World, n: nat)
    requires
        world.time.wf(),
        n <= world.time.pending.len(),
        forall|i: int| 0 <= i < n ==> (#[trigger] world.time.pending[i]).call_back is SmokeClear,
    ensures
        world.stepped(n).time == world.time.drained(n),
        world.stepped(n).time.pending == world.time.pending.skip(n as int),
        n > 0 ==> world.stepped(n).time.now == world.time.pending[n - 1].execute_time,
    decreases n,
{
    lemma_drained(world.time, n);
    if n > 0 {
        lemma_clearings_drain(world, (n - 1) as nat);
        lemma_drained(world.time, (n - 1) as nat);
        let before = world.stepped((n - 1) as nat);
        assert(before.time.pending[0] == world.time.pending[n - 1]);
    }
}

/// Nothing runs before its time. What is pending for later than `until`
/// when a run until `until` begins is still pending when it ends.
pub proof fn lemma_run_keeps(world: World, until: Time, x: QueueElement<Event>)
    requires
        world.time.wf(),
        world.run_ready(until),
        world.time.pending.contains(x),
        x.execute_time > until,
    ensures
        world.run(until).time.pending.contains(x),
    decreases world.budget(),
{
    if world.proceeds(until) {
        lemma_step(world);
        let i = choose|i: int| 0 <= i < world.time.pending.len() && world.time.pending[i] == x;
        assert(i >= 1);
        lemma_run_keeps(world.step(), until, x);
    }
}

/// What an event enqueues while it runs is run when its own time has
/// come, and not before. Take a world whose next event is due by `until`,
/// and anything that is pending once that event has run, be it enqueued by
/// the event or pending from before. After the run until `until` it is
/// pending no more where it was due by `until`, and pending still where it
/// is due later.
pub proof fn lemma_enqueued_in_run(world: World, until: Time, x: QueueElement<Event>)
    requires
        world.time.wf(),
        world.run_ready(until),
        world.time.due(until),
        world.step().time.pending.contains(x),
    ensures
        world.run(until) == world.step().run(until),
        x.execute_time <= until ==> !world.run(until).time.pending.contains(x),
        x.execute_time > until ==> world.run(until).time.pending.contains(x),
{
    lemma_step(world);
    lemma_run(world, until);
    if x.execute_time > until {
        lemma_run_keeps(world.step(), until, x);
    } else if world.run(until).time.pending.contains(x) {
        let i = choose|i: int|
            0 <= i < world.run(until).time.pending.len() && world.run(until).time.pending[i] == x;
        assert(world.run(until).time.pending[i].execute_time > until);
    }
}

impl World {
    /// How long the smoke lasts that the bolt under `uid` leaves; meaningful
    /// where a bolt that carries smoke is kept under `uid`.
    pub open spec fn smoke_left(self, uid: UID) -> Duration {
        (*self.space[uid]->Bolt_0.action)->Smoke_0.duration
    }
}

/// A bolt that lands schedules the clearing of the smoke it leaves for the
/// time of its landing and the duration of the smoke. Take a world whose
/// next event is the landing of a bolt that carries smoke: once the landing
/// has run the time is that of the landing, and a clearing is pending that
/// is due the smoke's duration later.
pub proof fn lemma_landing_schedules(world: World)
    requires
        world.time.wf(),
        world.time.pending.len() > 0,
        world.step_ready(),
        world.first() is BoltLand,
        world.space.contains_key(world.first()->BoltLand_0.target),
        *world.space[world.first()->BoltLand_0.target]->Bolt_0.action is Smoke,
    ensures
        world.step().time.now == world.time.pending[0].execute_time,
        exists|x: QueueElement<Event>|
            {
                &&& #[trigger] world.step().time.pending.contains(x)
                &&& x.call_back is SmokeClear
                &&& x.execute_time == world.time.pending[0].execute_time + world.smoke_left(
                    world.first()->BoltLand_0.target,
                )
            },
{
    lemma_step(world);
    lemma_advanced(world.time);
    let uid = world.first()->BoltLand_0.target;
    let duration = world.smoke_left(uid);
    let before = World { space: world.space.remove(uid), time: world.time.advanced() };
    let event = Event::SmokeClear(SmokeClearEvent { target: fresh_uid(before.space) });
    lemma_enqueued_keeps(before.time, event, duration);
    let x = QueueElement { execute_time: (before.time.now + duration) as Time, call_back: event };
    assert(world.step().time == before.time.enqueued(event, duration));
    assert(world.step().time.pending.contains(x));
}

impl crate::events::EventQueue<Event> {
    /// Runs the event that is due next, after moving the time on to that
    /// event's time. Does nothing where no event is pending.
    pub fn invoke_next(&mut self, space: &mut EntityHeap)
        requires
            World::of(old(space)@, old(self)@).step_ready(),
        ensures
            World::of(final(space)@, final(self)@) == World::of(old(space)@, old(self)@).step(),
            final(self)@.wf(),
            old(self)@.pending.len() > 0 ==> final(self)@.now
                == old(self)@.pending[0].execute_time,
            old(self)@.pending.len() == 0 ==> final(self)@ == old(self)@ && final(space)@ == old(
                space,
            )@,
    {
        let ghost before = World::of(space@, self@);
        match self.take_next() {
            Some(event) => {
                proof {
                    lemma_step(before);
                }
                event.invoke(space, self);
            },
            None => {},
        }
    }

    /// Runs every event that falls due by `until`, in the order of their
    /// times, then lets the time catch up with `until`.
    pub fn simulate(&mut self, space: &mut EntityHeap, until: Time)
        requires
            World::of(old(space)@, old(self)@).run_ready(until),
        ensures
            World::of(final(space)@, final(self)@) == World::of(old(space)@, old(self)@).run(
                until,
            ),
            final(self)@.wf(),
            forall|i: int|
                0 <= i < final(self)@.pending.len() ==> (
                #[trigger] final(self)@.pending[i]).execute_time > until,
            until >= old(self)@.now ==> final(self)@.now == until,
            until < old(self)@.now ==> final(self)@.now == old(self)@.now,
    {
        let ghost before = World::of(space@, self@);
        loop
            invariant
                World::of(space@, self@).run_ready(until),
                World::of(space@, self@).run(until) == before.run(until),
            ensures
                self@.wf(),
                !self@.due(until),
                World::of(space@, self@).run(until) == before.run(until),
            decreases World::of(space@, self@).budget(),
        {
            let due = match self.next() {
                Some(next_time) => next_time <= until,
                None => false,
            };
            if !due {
                break ;
            }
            proof {
                lemma_step(World::of(space@, self@));
            }
            self.invoke_next(space);
        }
        proof {
            lemma_run(before, until);
        }
        self.settle(until);
    }
}

} // verus!
