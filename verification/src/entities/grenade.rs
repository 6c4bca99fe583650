//! The grenade: thrown, it flies to where it was aimed, bursts into smoke
//! there, and is gone a moment later.
//!
//! Two events carry a grenade through its life. Each holds a link to the
//! grenade and looks, when it runs, whether the grenade is still there and
//! can be had; an event that finds it gone or busy does nothing.

use vstd::prelude::*;
use crate::entities::{
    distinct, housed, lemma_housed_push, lemma_push_distinct, lemma_without_distinct,
    lemma_without_housed, without, Container, Space,
};
use crate::events::{
    lemma_advanced, lemma_enqueued, lemma_enqueued_keeps, lemma_settled, Agenda, QueueElement,
};
use crate::links::{
    coherent, lemma_link_to, verdict_at, verdict_mut_at, Heap, Link, Owned, Slot,
};
use crate::physics::Body;
use crate::units::{fits, Duration, Position, Time, MOMENT};

verus! {

pub enum GrenadeState {
    Cooking { target_location: Position },
    Smoke,
}

pub struct Grenade {
    pub space: Link<Space>,
    pub body: Body,
    pub state: GrenadeState,
}

/// Makes a grenade burst where it was aimed.
pub struct GrenadeExplodeEvent {
    pub target: Link<Grenade>,
}

/// Takes a burst grenade out of its space.
pub struct GrenadeDisappearEvent {
    pub target: Link<Grenade>,
}

/// What the scheduler of grenades can run.
pub enum Event {
    Explode(GrenadeExplodeEvent),
    Disappear(GrenadeDisappearEvent),
}

pub type EventQueue = crate::events::EventQueue<Event>;

/// The heaps in which grenades and their spaces live.
pub struct Memory {
    pub nades: Heap<Grenade>,
    pub spaces: Heap<Space>,
}

/// What a heap keeps for a space, with the space reduced to its members.
pub open spec fn roll(slot: Slot<Space>) -> Slot<Seq<nat>> {
    Slot {
        value: match slot.value {
            Some(space) => Some(space.members()),
            None => None,
        },
        owned: slot.owned,
        readers: slot.readers,
        writer: slot.writer,
    }
}

/// A heap of spaces, with every space reduced to its members.
pub open spec fn rolls(slots: Seq<Slot<Space>>) -> Seq<Slot<Seq<nat>>> {
    slots.map_values(|slot: Slot<Space>| roll(slot))
}

/// The grenades, their spaces and their scheduler, as one mathematical
/// value. A space counts for the grenades it owns.
pub struct Scene {
    pub nades: Seq<Slot<Grenade>>,
    pub spaces: Seq<Slot<Seq<nat>>>,
    pub time: Agenda<Event>,
}

impl Scene {
    pub open spec fn of(memory: Memory, time: Agenda<Event>) -> Scene {
        Scene { nades: memory.nades@, spaces: rolls(memory.spaces@), time }
    }

    /// The event that runs next, where one is pending.
    pub open spec fn first(self) -> Event {
        self.time.pending[0].call_back
    }

    /// The scene in which the next event runs: the event has left the agenda
    /// and the time is the event's.
    pub open spec fn at_next(self) -> Scene {
        Scene { time: self.time.advanced(), ..self }
    }

    /// Whether the next event, if one is pending, can run.
    pub open spec fn step_ready(self) -> bool {
        self.time.pending.len() > 0 ==> self.first().ready(self.at_next())
    }

    /// The scene after the next event has run; the same scene where nothing
    /// is pending.
    pub open spec fn step(self) -> Scene {
        if self.time.pending.len() > 0 {
            self.first().outcome(self.at_next())
        } else {
            self
        }
    }

    /// A bound on the events that can still run.
    pub open spec fn budget(self) -> nat {
        tally(self.time.pending)
    }

    /// Whether the scene is one in which an event is due by `until` and can
    /// run.
    pub open spec fn proceeds(self, until: Time) -> bool {
        self.time.wf() && self.time.due(until) && self.step_ready()
    }

    /// Whether every event that falls due by `until` can run when its turn
    /// comes, those included that are enqueued on the way.
    pub open spec fn run_ready(self, until: Time) -> bool
        decreases self.budget(),
        via Scene::run_ready_ends
    {
        if self.proceeds(until) {
            self.step().run_ready(until)
        } else {
            !(self.time.wf() && self.time.due(until))
        }
    }

    #[via_fn]
    proof fn run_ready_ends(self, until: Time) {
        if self.proceeds(until) {
            lemma_step(self);
        }
    }

    /// The scene after every event due by `until` has run, in the order of
    /// their times, and the time has caught up with `until`.
    pub open spec fn run(self, until: Time) -> Scene
        decreases self.budget(),
        via Scene::run_ends
    {
        if self.proceeds(until) {
            self.step().run(until)
        } else {
            Scene { time: self.time.settled(until), ..self }
        }
    }

    #[via_fn]
    proof fn run_ends(self, until: Time) {
        if self.proceeds(until) {
            lemma_step(self);
        }
    }
}

impl GrenadeExplodeEvent {
    /// Whether the event can run: where it can have the grenade, the
    /// grenade's disappearance can be scheduled.
    pub open spec fn ready(self, scene: Scene) -> bool {
        verdict_mut_at(scene.nades, self.target.target()).is_none() ==> scene.time.admits(MOMENT)
    }

    /// The grenade after it burst: at rest where it was aimed, and smoke.
    pub open spec fn burst(nade: Grenade) -> Grenade {
        Grenade {
            space: nade.space,
            body: match nade.state {
                GrenadeState::Cooking { target_location } => Body::spec_new_frozen(
                    target_location,
                ),
                GrenadeState::Smoke => nade.body,
            },
            state: GrenadeState::Smoke,
        }
    }

    /// The scene after the event has run: the grenade has burst and will
    /// disappear a moment from now. Nothing changes where the grenade is
    /// gone or busy.
    pub open spec fn outcome(self, scene: Scene) -> Scene {
        if verdict_mut_at(scene.nades, self.target.target()).is_none() {
            let id = self.target.target().unwrap() as int;
            let nade = scene.nades[id].value.unwrap();
            Scene {
                nades: scene.nades.update(
                    id,
                    scene.nades[id].taken().restored(GrenadeExplodeEvent::burst(nade)),
                ),
                spaces: scene.spaces,
                time: scene.time.enqueued(
                    Event::Disappear(GrenadeDisappearEvent { target: self.target }),
                    MOMENT,
                ),
            }
        } else {
            scene
        }
    }

    pub fn invoke(self, memory: &mut Memory, time: &mut EventQueue)
        requires
            self.ready(Scene::of(*old(memory), old(time)@)),
        ensures
            Scene::of(*final(memory), final(time)@) == self.outcome(
                Scene::of(*old(memory), old(time)@),
            ),
    {
        let target = self.target;

        match target.try_borrow_mut(&mut memory.nades) {
            Ok(mut nade) => {
                let grenade = nade.deref_mut();
                if let GrenadeState::Cooking { target_location } = grenade.state {
                    grenade.body = Body::new_frozen(target_location);
                }
                grenade.state = GrenadeState::Smoke;
                let ghost id = nade.id() as int;
                assert(nade.content() == GrenadeExplodeEvent::burst(
                    old(memory).nades@[id].value.unwrap(),
                ));
                nade.release(&mut memory.nades);
                assert(memory.nades@ =~= old(memory).nades@.update(
                    id,
                    old(memory).nades@[id].taken().restored(nade.content()),
                ));
            },
            Err(_) => {
                return ;
            },
        }

        time.enqueue(Event::Disappear(GrenadeDisappearEvent { target }), MOMENT);
    }
}

/// Asks the space that `back` leads to to let go of the grenade that
/// `target` leads to, and hands the grenade back if the space did. A space
/// that is gone or busy is not asked.
pub fn remove_entity(memory: &mut Memory, back: &Link<Space>, target: &Link<Grenade>) -> (removed:
    Option<Owned<Grenade>>)
    ensures
        final(memory).nades@ == old(memory).nades@,
        rolls(final(memory).spaces@) == GrenadeDisappearEvent::spaces_after(
            rolls(old(memory).spaces@),
            *back,
            *target,
        ),
        removed.is_some() == GrenadeDisappearEvent::let_go(
            rolls(old(memory).spaces@),
            *back,
            *target,
        ),
        removed matches Some(owned) ==> Some(owned.id()) == target.target(),
{
    match back.try_borrow_mut(&mut memory.spaces) {
        Ok(mut space) => {
            let ghost before = memory.spaces@;
            let ghost sid = space.id() as int;
            let removed = space.deref_mut().remove_entity(target);
            space.release(&mut memory.spaces);
            proof {
                let held = rolls(old(memory).spaces@);
                let expected = held.update(
                    sid,
                    held[sid].taken().restored(without(held[sid].value.unwrap(), *target)),
                );
                assert(rolls(memory.spaces@) =~= expected);
            }
            removed
        },
        Err(_) => None,
    }
}

impl GrenadeDisappearEvent {
    /// Whether the space that `back` leads to lets go of the grenade that
    /// `target` leads to: it can be had, and it owns the grenade.
    pub open spec fn let_go(
        spaces: Seq<Slot<Seq<nat>>>,
        back: Link<Space>,
        target: Link<Grenade>,
    ) -> bool {
        &&& verdict_mut_at(spaces, back.target()).is_none()
        &&& target.target() matches Some(id)
        &&& spaces[back.target().unwrap() as int].value.unwrap().contains(id)
    }

    /// The spaces after the one that `back` leads to was asked to let go of
    /// the grenade that `target` leads to.
    pub open spec fn spaces_after(
        spaces: Seq<Slot<Seq<nat>>>,
        back: Link<Space>,
        target: Link<Grenade>,
    ) -> Seq<Slot<Seq<nat>>> {
        if verdict_mut_at(spaces, back.target()).is_none() {
            let sid = back.target().unwrap() as int;
            spaces.update(
                sid,
                spaces[sid].taken().restored(without(spaces[sid].value.unwrap(), target)),
            )
        } else {
            spaces
        }
    }

    /// The grenades after the one at `id`, lent for reading, was let go of
    /// by its space or not, and the guard on it was handed back.
    pub open spec fn nades_after(nades: Seq<Slot<Grenade>>, id: int, let_go: bool) -> Seq<
        Slot<Grenade>,
    > {
        let lent = nades.update(id, nades[id].lent());
        let loose = if let_go && lent[id].owned {
            lent.update(id, lent[id].disowned())
        } else {
            lent
        };
        loose.update(id, loose[id].returned())
    }

    /// Whether the event can run; it always can.
    pub open spec fn ready(self, scene: Scene) -> bool {
        true
    }

    /// The scene after the event has run: the grenade's space has let go of
    /// it, and with that the grenade is gone unless something else holds on
    /// to it. Nothing changes where the grenade is gone or busy.
    pub open spec fn outcome(self, scene: Scene) -> Scene {
        if verdict_at(scene.nades, self.target.target()).is_none() {
            let id = self.target.target().unwrap() as int;
            let back = scene.nades[id].value.unwrap().space;
            Scene {
                nades: GrenadeDisappearEvent::nades_after(
                    scene.nades,
                    id,
                    GrenadeDisappearEvent::let_go(scene.spaces, back, self.target),
                ),
                spaces: GrenadeDisappearEvent::spaces_after(scene.spaces, back, self.target),
                time: scene.time,
            }
        } else {
            scene
        }
    }

    pub fn invoke(self, memory: &mut Memory, _time: &mut EventQueue)
        requires
            self.ready(Scene::of(*old(memory), old(_time)@)),
        ensures
            Scene::of(*final(memory), final(_time)@) == self.outcome(
                Scene::of(*old(memory), old(_time)@),
            ),
    {
        let target = self.target;
        match target.try_borrow(&mut memory.nades) {
            Ok(nade) => {
                let back = nade.deref(&memory.nades).space;
                match remove_entity(memory, &back, &target) {
                    Some(owned) => owned.release(&mut memory.nades),
                    None => {},
                }
                nade.release(&mut memory.nades);
            },
            Err(_) => {},
        }
    }
}

impl Event {
    /// How many events the event stands for, itself included: a grenade that
    /// bursts still has to disappear.
    pub open spec fn weight(self) -> nat {
        match self {
            Event::Explode(_) => 2,
            Event::Disappear(_) => 1,
        }
    }

    /// Whether the event can run in `scene`.
    pub open spec fn ready(self, scene: Scene) -> bool {
        match self {
            Event::Explode(event) => event.ready(scene),
            Event::Disappear(event) => event.ready(scene),
        }
    }

    /// The scene after the event has run in `scene`.
    pub open spec fn outcome(self, scene: Scene) -> Scene {
        match self {
            Event::Explode(event) => event.outcome(scene),
            Event::Disappear(event) => event.outcome(scene),
        }
    }

    /// Runs the event, which uses it up.
    pub fn invoke(self, memory: &mut Memory, time: &mut EventQueue)
        requires
            self.ready(Scene::of(*old(memory), old(time)@)),
        ensures
            Scene::of(*final(memory), final(time)@) == self.outcome(
                Scene::of(*old(memory), old(time)@),
            ),
    {
        match self {
            Event::Explode(event) => event.invoke(memory, time),
            Event::Disappear(event) => event.invoke(memory, time),
        }
    }
}

/// The weight of the events that are pending, taken together.
pub open spec fn tally(pending: Seq<QueueElement<Event>>) -> nat
    decreases pending.len(),
{
    if pending.len() == 0 {
        0
    } else {
        tally(pending.drop_last()) + pending.last().call_back.weight()
    }
}

/// An event that joins the pending ones adds its weight to theirs.
pub proof fn lemma_tally_insert(pending: Seq<QueueElement<Event>>, i: int, e: QueueElement<Event>)
    requires
        0 <= i <= pending.len(),
    ensures
        tally(pending.insert(i, e)) == tally(pending) + e.call_back.weight(),
    decreases pending.len(),
{
    let more = pending.insert(i, e);
    if i == pending.len() {
        assert(more.drop_last() =~= pending);
    } else {
        assert(more.drop_last() =~= pending.drop_last().insert(i, e));
        assert(more.last() == pending.last());
        lemma_tally_insert(pending.drop_last(), i, e);
    }
}

/// The event that leaves first takes its weight with it.
pub proof fn lemma_tally_drop_first(pending: Seq<QueueElement<Event>>)
    requires
        pending.len() > 0,
    ensures
        tally(pending.drop_first()) + pending[0].call_back.weight() == tally(pending),
    decreases pending.len(),
{
    if pending.len() == 1 {
        assert(pending.drop_first() =~= pending.drop_last());
        assert(pending.drop_last().len() == 0);
    } else {
        assert(pending.drop_first().drop_last() =~= pending.drop_last().drop_first());
        assert(pending.drop_first().last() == pending.last());
        lemma_tally_drop_first(pending.drop_last());
    }
}

/// An event that runs keeps the agenda in order and the time where it is,
/// leaves no more to run than it stood for, and takes nothing out of the
/// agenda.
pub proof fn lemma_event(event: Event, scene: Scene)
    requires
        scene.time.wf(),
        event.ready(scene),
    ensures
        event.outcome(scene).time.wf(),
        event.outcome(scene).time.now == scene.time.now,
        event.outcome(scene).budget() + 1 <= scene.budget() + event.weight(),
        forall|x: QueueElement<Event>| #[trigger]
            scene.time.pending.contains(x) ==> event.outcome(scene).time.pending.contains(x),
{
    match event {
        Event::Explode(explode) => {
            if verdict_mut_at(scene.nades, explode.target.target()).is_none() {
                let next = Event::Disappear(GrenadeDisappearEvent { target: explode.target });
                lemma_enqueued(scene.time, next, MOMENT);
                lemma_enqueued_keeps(scene.time, next, MOMENT);
                let t = (scene.time.now + MOMENT) as Time;
                lemma_tally_insert(
                    scene.time.pending,
                    scene.time.slot(t),
                    QueueElement { execute_time: t, call_back: next },
                );
            }
        },
        Event::Disappear(_) => {},
    }
}

/// Each event that runs brings the end nearer: the time is then the event's
/// own, no earlier than before, the agenda is in order, and the bound on the
/// events still to run has gone down. Only the event that ran has left the
/// agenda: whatever was pending behind it is pending still.
pub proof fn lemma_step(scene: Scene)
    requires
        scene.time.wf(),
        scene.time.pending.len() > 0,
        scene.step_ready(),
    ensures
        scene.step().time.wf(),
        scene.step().time.now == scene.time.pending[0].execute_time,
        scene.time.now <= scene.step().time.now,
        scene.step().budget() < scene.budget(),
        forall|i: int|
            1 <= i < scene.time.pending.len() ==> scene.step().time.pending.contains(
                #[trigger] scene.time.pending[i],
            ),
{
    lemma_advanced(scene.time);
    lemma_tally_drop_first(scene.time.pending);
    lemma_event(scene.first(), scene.at_next());
    assert forall|i: int| 1 <= i < scene.time.pending.len() implies scene.step().time.pending.contains(
        #[trigger] scene.time.pending[i],
    ) by {
        assert(scene.at_next().time.pending[i - 1] == scene.time.pending[i]);
        assert(scene.at_next().time.pending.contains(scene.time.pending[i]));
    }
}

/// After a run nothing is pending that was due by `until`, and the time is
/// `until` unless that had passed before.
pub proof fn lemma_run(scene: Scene, until: Time)
    requires
        scene.time.wf(),
        scene.run_ready(until),
    ensures
        scene.run(until).time.wf(),
        !scene.run(until).time.due(until),
        forall|i: int|
            0 <= i < scene.run(until).time.pending.len() ==> (
            #[trigger] scene.run(until).time.pending[i]).execute_time > until,
        until >= scene.time.now ==> scene.run(until).time.now == until,
        until < scene.time.now ==> scene.run(until).time.now == scene.time.now,
    decreases scene.budget(),
{
    if scene.proceeds(until) {
        lemma_step(scene);
        lemma_run(scene.step(), until);
    } else {
        lemma_settled(scene.time, until);
    }
}

impl Scene {
    /// The scene after the next `n` events have run, one after the other.
    pub open spec fn stepped(self, n: nat) -> Scene
        decreases n,
    {
        if n == 0 {
            self
        } else {
            self.stepped((n - 1) as nat).step()
        }
    }

    /// Whether the next `n` events can run one after the other: each time
    /// an event is pending, and it can run.
    pub open spec fn steps_ready(self, n: nat) -> bool
        decreases n,
    {
        if n == 0 {
            true
        } else {
            &&& self.steps_ready((n - 1) as nat)
            &&& self.stepped((n - 1) as nat).time.pending.len() > 0
            &&& self.stepped((n - 1) as nat).step_ready()
        }
    }
}

/// Letting events run one after the other keeps the agenda in order and
/// never moves the time back.
pub proof fn lemma_stepped(scene: Scene, n: nat)
    requires
        scene.time.wf(),
        scene.steps_ready(n),
    ensures
        scene.stepped(n).time.wf(),
        scene.time.now <= scene.stepped(n).time.now,
    decreases n,
{
    if n > 0 {
        lemma_stepped(scene, (n - 1) as nat);
        lemma_step(scene.stepped((n - 1) as nat));
    }
}

/// Events run in the order of their times, whatever they enqueue while
/// they run. Let any number of events run one after the other: the time
/// after each is the time of the event that just ran, and it is never
/// earlier than the time after an event that ran before it.
pub proof fn lemma_steps_in_order(scene: Scene, i: nat, j: nat)
    requires
        scene.time.wf(),
        0 < i <= j,
        scene.steps_ready(j),
    ensures
        scene.stepped(i).time.wf(),
        scene.stepped(j).time.wf(),
        scene.stepped(i).time.now == scene.stepped((i - 1) as nat).time.pending[0].execute_time,
        scene.stepped(j).time.now == scene.stepped((j - 1) as nat).time.pending[0].execute_time,
        scene.time.now <= scene.stepped(i).time.now <= scene.stepped(j).time.now,
    decreases j,
{
    lemma_stepped(scene, (j - 1) as nat);
    lemma_step(scene.stepped((j - 1) as nat));
    if i < j {
        lemma_steps_in_order(scene, i, (j - 1) as nat);
    } else {
        lemma_stepped(scene, j);
    }
}

/// Nothing runs before its time. What is pending for later than `until`
/// when a run until `until` begins is still pending when it ends.
pub proof fn lemma_run_keeps(scene: Scene, until: Time, x: QueueElement<Event>)
    requires
        scene.time.wf(),
        scene.run_ready(until),
        scene.time.pending.contains(x),
        x.execute_time > until,
    ensures
        scene.run(until).time.pending.contains(x),
    decreases scene.budget(),
{
    if scene.proceeds(until) {
        lemma_step(scene);
        let i = choose|i: int| 0 <= i < scene.time.pending.len() && scene.time.pending[i] == x;
        assert(i >= 1);
        lemma_run_keeps(scene.step(), until, x);
    }
}

/// What an event enqueues while it runs is run when its own time has
/// come, and not before. Take a scene whose next event is due by `until`,
/// and anything that is pending once that event has run, be it enqueued by
/// the event or pending from before. After the run until `until` it is
/// pending no more where it was due by `until`, and pending still where it
/// is due later.
pub proof fn lemma_enqueued_in_run(scene: Scene, until: Time, x: QueueElement<Event>)
    requires
        scene.time.wf(),
        scene.run_ready(until),
        scene.time.due(until),
        scene.step().time.pending.contains(x),
    ensures
        scene.run(until) == scene.step().run(until),
        x.execute_time <= until ==> !scene.run(until).time.pending.contains(x),
        x.execute_time > until ==> scene.run(until).time.pending.contains(x),
{
    lemma_step(scene);
    lemma_run(scene, until);
    if x.execute_time > until {
        lemma_run_keeps(scene.step(), until, x);
    } else if scene.run(until).time.pending.contains(x) {
        let i = choose|i: int|
            0 <= i < scene.run(until).time.pending.len() && scene.run(until).time.pending[i] == x;
        assert(scene.run(until).time.pending[i].execute_time > until);
    }
}

/// A grenade that bursts schedules its disappearance for a moment after
/// its bursting. Take a scene whose next event is the bursting of a grenade
/// that can be had: once it has run the time is that of the bursting, and
/// the disappearance of that grenade is pending, due a moment later.
pub proof fn lemma_bursting_schedules(scene: Scene)
    requires
        scene.time.wf(),
        scene.time.pending.len() > 0,
        scene.step_ready(),
        scene.first() is Explode,
        verdict_mut_at(scene.nades, scene.first()->Explode_0.target.target()).is_none(),
    ensures
        scene.step().time.now == scene.time.pending[0].execute_time,
        scene.step().time.pending.contains(
            QueueElement {
                execute_time: (scene.time.pending[0].execute_time + MOMENT) as Time,
                call_back: Event::Disappear(
                    GrenadeDisappearEvent { target: scene.first()->Explode_0.target },
                ),
            },
        ),
{
    lemma_step(scene);
    lemma_advanced(scene.time);
    let event = Event::Disappear(GrenadeDisappearEvent { target: scene.first()->Explode_0.target });
    lemma_enqueued_keeps(scene.at_next().time, event, MOMENT);
}

impl Scene {
    /// Whether the clock is still in range a moment after every bursting
    /// that is pending, so that the disappearance that follows it can be
    /// scheduled.
    pub open spec fn timely(self) -> bool {
        &&& self.time.wf()
        &&& forall|i: int|
            0 <= i < self.time.pending.len() && (#[trigger] self.time.pending[i]).call_back is Explode
                ==> fits(self.time.pending[i].execute_time + MOMENT)
    }
}

/// In a timely scene the event that is due next can run, and it leaves the
/// scene timely.
pub proof fn lemma_step_timely(scene: Scene)
    requires
        scene.timely(),
        scene.time.pending.len() > 0,
    ensures
        scene.step_ready(),
        scene.step().timely(),
{
    let next = scene.at_next();
    lemma_advanced(scene.time);
    assert(scene.time.pending[0].call_back is Explode ==> fits(
        scene.time.pending[0].execute_time + MOMENT,
    ));
    assert forall|i: int|
        0 <= i < next.time.pending.len() && (
        #[trigger] next.time.pending[i]).call_back is Explode implies fits(
        next.time.pending[i].execute_time + MOMENT,
    ) by {
        assert(next.time.pending[i] == scene.time.pending[i + 1]);
    }
    match scene.first() {
        Event::Explode(explode) => {
            if verdict_mut_at(next.nades, explode.target.target()).is_none() {
                let event = Event::Disappear(GrenadeDisappearEvent { target: explode.target });
                lemma_enqueued(next.time, event, MOMENT);
                let after = scene.step();
                let k = next.time.slot((next.time.now + MOMENT) as Time);
                assert forall|i: int|
                    0 <= i < after.time.pending.len() && (
                    #[trigger] after.time.pending[i]).call_back is Explode implies fits(
                    after.time.pending[i].execute_time + MOMENT,
                ) by {
                    if i < k {
                        assert(after.time.pending[i] == next.time.pending[i]);
                    } else if i > k {
                        assert(after.time.pending[i] == next.time.pending[i - 1]);
                    }
                }
            }
        },
        Event::Disappear(_) => {},
    }
}

/// In a timely scene every event that falls due can run when its turn
/// comes, however long the scene is left to run, and the scene is timely
/// afterwards.
pub proof fn lemma_run_timely(scene: Scene, until: Time)
    requires
        scene.timely(),
    ensures
        scene.run_ready(until),
        scene.run(until).timely(),
    decreases scene.budget(),
{
    if scene.time.due(until) {
        lemma_step_timely(scene);
        lemma_step(scene);
        lemma_run_timely(scene.step(), until);
    } else {
        lemma_settled(scene.time, until);
    }
}

/// A timely scene stays timely when a grenade is thrown whose bursting and
/// disappearance are both within the range of the clock.
pub proof fn lemma_thrown_timely(
    scene: Scene,
    space: Link<Space>,
    start: Position,
    end: Position,
    travel_time: Duration,
)
    requires
        scene.timely(),
        0 <= travel_time,
        fits(scene.time.now + travel_time + MOMENT),
    ensures
        Grenade::outcome(scene, space, start, end, travel_time).timely(),
{
    let after = Grenade::outcome(scene, space, start, end, travel_time);
    let event = Event::Explode(GrenadeExplodeEvent { target: Link::<Grenade>::to(scene.nades.len()) });
    lemma_enqueued(scene.time, event, travel_time);
    let k = scene.time.slot((scene.time.now + travel_time) as Time);
    assert forall|i: int|
        0 <= i < after.time.pending.len() && (
        #[trigger] after.time.pending[i]).call_back is Explode implies fits(
        after.time.pending[i].execute_time + MOMENT,
    ) by {
        if i < k {
            assert(after.time.pending[i] == scene.time.pending[i]);
        } else if i > k {
            assert(after.time.pending[i] == scene.time.pending[i - 1]);
        }
    }
}

impl Scene {
    /// Whether every space names its grenades once each, and names only
    /// grenades that have their places in the heap of grenades: every
    /// grenade of a space is then known by the one link that leads to it.
    pub open spec fn tidy(self) -> bool {
        &&& coherent(self.spaces)
        &&& forall|i: int|
            0 <= i < self.spaces.len() && (#[trigger] self.spaces[i]).value.is_some() ==> distinct(
                self.spaces[i].value.unwrap(),
            ) && housed(self.spaces[i].value.unwrap(), self.nades.len())
    }
}

/// Spaces in a heap that agrees with itself still agree with themselves
/// when each is reduced to its members.
pub proof fn lemma_rolls_coherent(slots: Seq<Slot<Space>>)
    requires
        coherent(slots),
    ensures
        coherent(rolls(slots)),
{
    assert forall|i: int| 0 <= i < rolls(slots).len() implies (
    #[trigger] rolls(slots)[i]).coherent() by {
        assert(slots[i].coherent());
    }
}

/// A tidy scene stays tidy when a grenade is thrown: the grenade is new to
/// the heap, and so to the space that takes it over.
pub proof fn lemma_thrown_tidy(
    scene: Scene,
    space: Link<Space>,
    start: Position,
    end: Position,
    travel_time: Duration,
)
    requires
        scene.tidy(),
    ensures
        Grenade::outcome(scene, space, start, end, travel_time).tidy(),
{
    let after = Grenade::outcome(scene, space, start, end, travel_time);
    assert forall|i: int| 0 <= i < after.spaces.len() implies (
    #[trigger] after.spaces[i]).coherent() by {
        assert(scene.spaces[i].coherent());
    }
    assert forall|i: int|
        0 <= i < after.spaces.len() && (#[trigger] after.spaces[i]).value.is_some() implies distinct(
        after.spaces[i].value.unwrap(),
    ) && housed(after.spaces[i].value.unwrap(), after.nades.len()) by {
        if verdict_mut_at(scene.spaces, space.target()).is_none() && i == space.target().unwrap() {
            let members = scene.spaces[i].value.unwrap();
            assert(scene.spaces[i].coherent());
            lemma_housed_push(members, scene.nades.len());
            lemma_push_distinct(members, scene.nades.len());
        } else {
            assert(after.spaces[i] == scene.spaces[i]);
            let members = scene.spaces[i].value.unwrap();
            assert forall|k: int| 0 <= k < members.len() implies members[k] < after.nades.len() by {
                assert(members[k] < scene.nades.len());
            }
        }
    }
}

/// A tidy scene stays tidy when an event runs: a grenade that disappears
/// leaves its space, and the grenades that stay are named as before.
pub proof fn lemma_event_tidy(event: Event, scene: Scene)
    requires
        scene.tidy(),
    ensures
        event.outcome(scene).tidy(),
{
    let after = event.outcome(scene);
    match event {
        Event::Explode(explode) => {
            assert(after.spaces == scene.spaces);
            assert(after.nades.len() == scene.nades.len());
            assert forall|i: int|
                0 <= i < after.spaces.len() && (
                #[trigger] after.spaces[i]).value.is_some() implies distinct(
                after.spaces[i].value.unwrap(),
            ) && housed(after.spaces[i].value.unwrap(), after.nades.len()) by {
                assert(scene.spaces[i].value.is_some());
            }
        },
        Event::Disappear(disappear) => {
            if verdict_at(scene.nades, disappear.target.target()).is_none() {
                let id = disappear.target.target().unwrap() as int;
                let back = scene.nades[id].value.unwrap().space;
                assert(after.nades.len() == scene.nades.len());
                assert forall|i: int| 0 <= i < after.spaces.len() implies (
                #[trigger] after.spaces[i]).coherent() by {
                    assert(scene.spaces[i].coherent());
                }
                assert forall|i: int|
                    0 <= i < after.spaces.len() && (
                    #[trigger] after.spaces[i]).value.is_some() implies distinct(
                    after.spaces[i].value.unwrap(),
                ) && housed(after.spaces[i].value.unwrap(), after.nades.len()) by {
                    if verdict_mut_at(scene.spaces, back.target()).is_none() && i
                        == back.target().unwrap() {
                        let members = scene.spaces[i].value.unwrap();
                        assert(scene.spaces[i].coherent());
                        lemma_without_distinct(members, disappear.target);
                        lemma_without_housed(members, disappear.target, scene.nades.len());
                    } else {
                        assert(after.spaces[i] == scene.spaces[i]);
                    }
                }
            }
        },
    }
}

/// A tidy scene stays tidy however long it is left to run.
pub proof fn lemma_run_tidy(scene: Scene, until: Time)
    requires
        scene.tidy(),
        scene.time.wf(),
        scene.run_ready(until),
    ensures
        scene.run(until).tidy(),
    decreases scene.budget(),
{
    if scene.proceeds(until) {
        lemma_step(scene);
        lemma_event_tidy(scene.first(), scene.at_next());
        lemma_run_tidy(scene.step(), until);
    }
}

impl Grenade {
    /// Whether a grenade can be thrown: its velocity can be computed and its
    /// bursting can be scheduled.
    pub open spec fn ready(
        scene: Scene,
        start: Position,
        end: Position,
        travel_time: Duration,
    ) -> bool {
        Body::can_aim(start, end, travel_time) && scene.time.admits(travel_time)
    }

    /// The grenade as it is thrown.
    pub open spec fn thrown(
        space: Link<Space>,
        start: Position,
        end: Position,
        now: Time,
        travel_time: Duration,
    ) -> Grenade {
        Grenade {
            space,
            body: Body::spec_with_end_point(start, end, now, travel_time),
            state: GrenadeState::Cooking { target_location: end },
        }
    }

    /// The scene after a grenade was thrown: the grenade is in the heap, its
    /// bursting is due when the travel time is over, and its space owns it
    /// if the space could be had.
    pub open spec fn outcome(
        scene: Scene,
        space: Link<Space>,
        start: Position,
        end: Position,
        travel_time: Duration,
    ) -> Scene {
        let id = scene.nades.len();
        let link = Link::<Grenade>::to(id);
        let nade = Grenade::thrown(space, start, end, scene.time.now, travel_time);
        Scene {
            nades: scene.nades.push(Slot::fresh(nade)),
            spaces: if verdict_mut_at(scene.spaces, space.target()).is_none() {
                let sid = space.target().unwrap() as int;
                scene.spaces.update(
                    sid,
                    scene.spaces[sid].taken().restored(scene.spaces[sid].value.unwrap().push(id)),
                )
            } else {
                scene.spaces
            },
            time: scene.time.enqueued(
                Event::Explode(GrenadeExplodeEvent { target: link }),
                travel_time,
            ),
        }
    }

    /// Throws a grenade from `start` to `end`. Hands back a link to it where
    /// the space took it over, and the grenade itself where the space was
    /// gone or busy.
    pub fn new(
        time: &mut EventQueue,
        memory: &mut Memory,
        space: Link<Space>,
        start: Position,
        end: Position,
        travel_time: Duration,
    ) -> (thrown: Result<Link<Grenade>, Owned<Grenade>>)
        requires
            Grenade::ready(Scene::of(*old(memory), old(time)@), start, end, travel_time),
        ensures
            Scene::of(*final(memory), final(time)@) == Grenade::outcome(
                Scene::of(*old(memory), old(time)@),
                space,
                start,
                end,
                travel_time,
            ),
            thrown matches Ok(link) ==> link.target() == Some(old(memory).nades@.len())
                && verdict_mut_at(old(memory).spaces@, space.target()).is_none(),
            thrown matches Err(owned) ==> owned.id() == old(memory).nades@.len() && verdict_mut_at(
                old(memory).spaces@,
                space.target(),
            ).is_some(),
    {
        let body = Body::with_end_point(start, end, time.now(), travel_time);
        let nade_value = Grenade {
            space: space,
            body,
            state: GrenadeState::Cooking { target_location: end },
        };
        let nade = Owned::new(&mut memory.nades, nade_value);

        time.enqueue(Event::Explode(GrenadeExplodeEvent { target: nade.share() }), travel_time);

        match space.try_borrow_mut(&mut memory.spaces) {
            Ok(mut loc) => {
                let ghost sid = loc.id() as int;
                let result = nade.share();
                loc.deref_mut().add_entity(nade);
                loc.release(&mut memory.spaces);
                proof {
                    let held = rolls(old(memory).spaces@);
                    let expected = held.update(
                        sid,
                        held[sid].taken().restored(
                            held[sid].value.unwrap().push(old(memory).nades@.len()),
                        ),
                    );
                    assert(rolls(memory.spaces@) =~= expected);
                    lemma_link_to(result);
                }
                Ok(result)
            },
            Err(_) => {
                proof {
                    lemma_link_to(nade.share_spec());
                }
                Err(nade)
            },
        }
    }
}

impl crate::events::EventQueue<Event> {
    /// Runs the event that is due next, after moving the time on to that
    /// event's time. Does nothing where no event is pending.
    pub fn invoke_next(&mut self, memory: &mut Memory)
        requires
            Scene::of(*old(memory), old(self)@).step_ready(),
        ensures
            Scene::of(*final(memory), final(self)@) == Scene::of(*old(memory), old(self)@).step(),
            final(self)@.wf(),
            old(self)@.pending.len() > 0 ==> final(self)@.now
                == old(self)@.pending[0].execute_time,
            old(self)@.pending.len() == 0 ==> final(self)@ == old(self)@,
    {
        let ghost before = Scene::of(*memory, self@);
        match self.take_next() {
            Some(event) => {
                proof {
                    lemma_step(before);
                }
                event.invoke(memory, self);
            },
            None => {},
        }
    }

    /// Runs every event that falls due by `until`, in the order of their
    /// times, then lets the time catch up with `until`.
    pub fn simulate(&mut self, memory: &mut Memory, until: Time)
        requires
            Scene::of(*old(memory), old(self)@).run_ready(until),
        ensures
            Scene::of(*final(memory), final(self)@) == Scene::of(*old(memory), old(self)@).run(
                until,
            ),
            final(self)@.wf(),
            forall|i: int|
                0 <= i < final(self)@.pending.len() ==> (
                #[trigger] final(self)@.pending[i]).execute_time > until,
            until >= old(self)@.now ==> final(self)@.now == until,
            until < old(self)@.now ==> final(self)@.now == old(self)@.now,
    {
        let ghost before = Scene::of(*memory, self@);
        loop
            invariant
                Scene::of(*memory, self@).run_ready(until),
                Scene::of(*memory, self@).run(until) == before.run(until),
            ensures
                self@.wf(),
                !self@.due(until),
                Scene::of(*memory, self@).run(until) == before.run(until),
            decreases Scene::of(*memory, self@).budget(),
        {
            let due = match self.next() {
                Some(next_time) => next_time <= until,
                None => false,
            };
            if !due {
                break ;
            }
            proof {
                lemma_step(Scene::of(*memory, self@));
            }
            self.invoke_next(memory);
        }
        proof {
            lemma_run(before, until);
        }
        self.settle(until);
    }
}

} // verus!
