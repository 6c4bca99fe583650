//! The scheduler's queue: one-shot events in the order they fall due.
//!
//! The queue keeps a current time that only moves forward and the events that
//! are still to come, each with the time at which it is to run. Events leave
//! in the order of those times; events due at the same time leave in the order
//! in which they were enqueued. What an event does when it runs is decided by
//! the module that defines it; this module only keeps the order.

use vstd::prelude::*;
use std::collections::VecDeque;
use crate::units::{fits, Duration, Time};

verus! {

/// An event together with the time at which it is to run.
pub struct QueueElement<E> {
    pub execute_time: Time,
    pub call_back: E,
}

/// What a scheduler holds, as a mathematical value: the current time and the
/// pending events in the order in which they will run.
pub struct Agenda<E> {
    pub now: Time,
    pub pending: Seq<QueueElement<E>>,
}

impl<E> Agenda<E> {
    /// The agenda of a scheduler that has just been made.
    pub open spec fn empty() -> Agenda<E> {
        Agenda { now: 0, pending: Seq::empty() }
    }

    /// Events are pending in the order of their times.
    pub open spec fn ordered(self) -> bool {
        forall|i: int, j: int|
            0 <= i <= j < self.pending.len() ==> self.pending[i].execute_time
                <= self.pending[j].execute_time
    }

    /// Nothing is pending for a time that has passed.
    pub open spec fn ahead(self) -> bool {
        forall|i: int|
            0 <= i < self.pending.len() ==> self.now <= (#[trigger] self.pending[i]).execute_time
    }

    /// What every scheduler maintains.
    pub open spec fn wf(self) -> bool {
        self.ordered() && self.ahead()
    }

    /// The time of the event that runs next, if any is pending.
    pub open spec fn next(self) -> Option<Time> {
        if self.pending.len() > 0 {
            Some(self.pending[0].execute_time)
        } else {
            None
        }
    }

    /// Whether an event is pending that is due at `until` or before.
    pub open spec fn due(self, until: Time) -> bool {
        self.pending.len() > 0 && self.pending[0].execute_time <= until
    }

    /// Whether `i` is the place of an event due at `t` that was enqueued last:
    /// behind every event due at `t` or before, ahead of every later one.
    pub open spec fn is_slot(self, i: int, t: Time) -> bool {
        &&& 0 <= i <= self.pending.len()
        &&& forall|j: int| 0 <= j < i ==> (#[trigger] self.pending[j]).execute_time <= t
        &&& forall|j: int|
            i <= j < self.pending.len() ==> (#[trigger] self.pending[j]).execute_time > t
    }

    /// The place at which an event due at `t` is enqueued.
    pub open spec fn slot(self, t: Time) -> int {
        choose|i: int| self.is_slot(i, t)
    }

    /// Whether an event can be enqueued `delay` from now: the delay does not
    /// reach into the past and the time it gives can be represented.
    pub open spec fn admits(self, delay: Duration) -> bool {
        delay >= 0 && fits(self.now + delay)
    }

    /// The agenda after `event` was enqueued to run `delay` from now.
    pub open spec fn enqueued(self, event: E, delay: Duration) -> Agenda<E> {
        let t = (self.now + delay) as Time;
        Agenda {
            now: self.now,
            pending: self.pending.insert(
                self.slot(t),
                QueueElement { execute_time: t, call_back: event },
            ),
        }
    }

    /// The agenda after its first event was taken out to run: the time has
    /// moved on to that event's time, unless it had passed already.
    pub open spec fn advanced(self) -> Agenda<E> {
        let t = self.pending[0].execute_time;
        Agenda { now: if t > self.now { t } else { self.now }, pending: self.pending.drop_first() }
    }

    /// The agenda after the events of `batch` were enqueued one after the
    /// other, each with its delay.
    pub open spec fn filled(self, batch: Seq<(E, Duration)>) -> Agenda<E>
        decreases batch.len(),
    {
        if batch.len() == 0 {
            self
        } else {
            self.filled(batch.drop_last()).enqueued(batch.last().0, batch.last().1)
        }
    }

    /// The agenda after its first `n` events were taken out to run, one
    /// after the other.
    pub open spec fn drained(self, n: nat) -> Agenda<E>
        decreases n,
    {
        if n == 0 {
            self
        } else {
            self.drained((n - 1) as nat).advanced()
        }
    }

    /// The agenda after the time has caught up with `until`. Time never moves
    /// back: where `until` has passed already, nothing changes.
    pub open spec fn settled(self, until: Time) -> Agenda<E> {
        Agenda { now: if until > self.now { until } else { self.now }, pending: self.pending }
    }
}

/// In an ordered agenda every time has exactly one slot.
pub proof fn lemma_slot_unique<E>(agenda: Agenda<E>, i: int, t: Time)
    requires
        agenda.is_slot(i, t),
    ensures
        agenda.slot(t) == i,
{
    let k = agenda.slot(t);
    assert(agenda.is_slot(k, t));
    if k < i {
        assert(agenda.pending[k].execute_time <= t);
        assert(agenda.pending[k].execute_time > t);
    }
    if i < k {
        assert(agenda.pending[i].execute_time <= t);
        assert(agenda.pending[i].execute_time > t);
    }
}

/// In an ordered agenda every time has a slot.
pub proof fn lemma_slot_exists<E>(agenda: Agenda<E>, t: Time)
    requires
        agenda.ordered(),
    ensures
        agenda.is_slot(agenda.slot(t), t),
    decreases agenda.pending.len(),
{
    let n = agenda.pending.len() as int;
    if n == 0 {
        assert(agenda.is_slot(0, t));
    } else if agenda.pending[n - 1].execute_time <= t {
        assert(agenda.is_slot(n, t)) by {
            assert forall|j: int| 0 <= j < n implies (#[trigger] agenda.pending[j]).execute_time
                <= t by {
                assert(agenda.pending[j].execute_time <= agenda.pending[n - 1].execute_time);
            }
        }
    } else {
        let shorter = Agenda { now: agenda.now, pending: agenda.pending.drop_last() };
        assert(shorter.ordered()) by {
            assert forall|i: int, j: int| 0 <= i <= j < shorter.pending.len() implies shorter.pending[i].execute_time
                <= shorter.pending[j].execute_time by {
                assert(shorter.pending[i] == agenda.pending[i]);
                assert(shorter.pending[j] == agenda.pending[j]);
            }
        }
        lemma_slot_exists(shorter, t);
        let k = shorter.slot(t);
        assert(agenda.is_slot(k, t)) by {
            assert forall|j: int| 0 <= j < k implies (#[trigger] agenda.pending[j]).execute_time
                <= t by {
                assert(shorter.pending[j] == agenda.pending[j]);
            }
            assert forall|j: int| k <= j < n implies (#[trigger] agenda.pending[j]).execute_time
                > t by {
                if j < n - 1 {
                    assert(shorter.pending[j] == agenda.pending[j]);
                }
            }
        }
    }
}

/// Enqueueing keeps the agenda in order and the time where it is; the new
/// event is pending at its slot, due `delay` from now, and every other event
/// keeps its place relative to the others.
pub proof fn lemma_enqueued<E>(agenda: Agenda<E>, event: E, delay: Duration)
    requires
        agenda.wf(),
        agenda.admits(delay),
    ensures
        agenda.enqueued(event, delay).wf(),
        agenda.enqueued(event, delay).now == agenda.now,
        agenda.enqueued(event, delay).pending.len() == agenda.pending.len() + 1,
        agenda.is_slot(agenda.slot((agenda.now + delay) as Time), (agenda.now + delay) as Time),
        agenda.enqueued(event, delay).pending[agenda.slot((agenda.now + delay) as Time)] == (
        QueueElement { execute_time: (agenda.now + delay) as Time, call_back: event }),
{
    let t = (agenda.now + delay) as Time;
    lemma_slot_exists(agenda, t);
    let k = agenda.slot(t);
    let after = agenda.enqueued(event, delay);
    assert forall|i: int, j: int| 0 <= i <= j < after.pending.len() implies after.pending[i].execute_time
        <= after.pending[j].execute_time by {
        if i < k && j > k {
            assert(agenda.pending[i].execute_time <= t);
            assert(agenda.pending[j - 1].execute_time > t);
        } else if i < k && j < k {
            assert(agenda.pending[i].execute_time <= agenda.pending[j].execute_time);
        } else if i > k {
            assert(agenda.pending[i - 1].execute_time <= agenda.pending[j - 1].execute_time);
        } else if i == k && j > k {
            assert(agenda.pending[j - 1].execute_time > t);
        } else if j == k && i < k {
            assert(agenda.pending[i].execute_time <= t);
        }
    }
    assert forall|i: int| 0 <= i < after.pending.len() implies after.now <= (
    #[trigger] after.pending[i]).execute_time by {
        if i < k {
            assert(after.pending[i] == agenda.pending[i]);
        } else if i > k {
            assert(after.pending[i] == agenda.pending[i - 1]);
        }
    }
}

/// Taking the first event out keeps the agenda in order. The time is then
/// that event's time, which is no earlier than the time before, and whatever
/// is still pending is due no earlier: events run in the order of their times.
pub proof fn lemma_advanced<E>(agenda: Agenda<E>)
    requires
        agenda.wf(),
        agenda.pending.len() > 0,
    ensures
        agenda.advanced().wf(),
        agenda.advanced().now == agenda.pending[0].execute_time,
        agenda.now <= agenda.advanced().now,
        agenda.advanced().pending.len() == agenda.pending.len() - 1,
        forall|i: int|
            0 <= i < agenda.advanced().pending.len() ==> agenda.advanced().now <= (
            #[trigger] agenda.advanced().pending[i]).execute_time,
{
    let after = agenda.advanced();
    assert(agenda.now <= agenda.pending[0].execute_time);
    assert forall|i: int, j: int| 0 <= i <= j < after.pending.len() implies after.pending[i].execute_time
        <= after.pending[j].execute_time by {
        assert(after.pending[i] == agenda.pending[i + 1]);
        assert(after.pending[j] == agenda.pending[j + 1]);
    }
    assert forall|i: int| 0 <= i < after.pending.len() implies after.now <= (
    #[trigger] after.pending[i]).execute_time by {
        assert(after.pending[i] == agenda.pending[i + 1]);
        assert(agenda.pending[0].execute_time <= agenda.pending[i + 1].execute_time);
    }
}

/// Enqueueing any number of events, with whatever delays, keeps the agenda
/// in order and the time where it is, and every one of them is pending
/// afterwards.
pub proof fn lemma_filled<E>(agenda: Agenda<E>, batch: Seq<(E, Duration)>)
    requires
        agenda.wf(),
        forall|i: int| 0 <= i < batch.len() ==> agenda.admits((#[trigger] batch[i]).1),
    ensures
        agenda.filled(batch).wf(),
        agenda.filled(batch).now == agenda.now,
        agenda.filled(batch).pending.len() == agenda.pending.len() + batch.len(),
    decreases batch.len(),
{
    if batch.len() > 0 {
        let rest = batch.drop_last();
        assert forall|i: int| 0 <= i < rest.len() implies agenda.admits((#[trigger] rest[i]).1) by {
            assert(rest[i] == batch[i]);
        }
        lemma_filled(agenda, rest);
        assert(agenda.admits(batch[batch.len() - 1].1));
        lemma_enqueued(agenda.filled(rest), batch.last().0, batch.last().1);
    }
}

/// Enqueueing takes nothing out: whatever was pending is pending still, and
/// so is the new event, due `delay` from now.
pub proof fn lemma_enqueued_keeps<E>(agenda: Agenda<E>, event: E, delay: Duration)
    requires
        agenda.wf(),
        agenda.admits(delay),
    ensures
        forall|x: QueueElement<E>| #[trigger]
            agenda.pending.contains(x) ==> agenda.enqueued(event, delay).pending.contains(x),
        agenda.enqueued(event, delay).pending.contains(
            QueueElement { execute_time: (agenda.now + delay) as Time, call_back: event },
        ),
{
    lemma_enqueued(agenda, event, delay);
    let after = agenda.enqueued(event, delay).pending;
    let k = agenda.slot((agenda.now + delay) as Time);
    assert(after[k] == (QueueElement {
        execute_time: (agenda.now + delay) as Time,
        call_back: event,
    }));
    assert forall|x: QueueElement<E>| #[trigger] agenda.pending.contains(x) implies after.contains(
        x,
    ) by {
        let i = choose|i: int| 0 <= i < agenda.pending.len() && agenda.pending[i] == x;
        if i < k {
            assert(after[i] == x);
        } else {
            assert(after[i + 1] == x);
        }
    }
}

/// The events of `batch` as they are pending once enqueued at `now`: each
/// with the time that its delay gives.
pub open spec fn scheduled<E>(now: Time, batch: Seq<(E, Duration)>) -> Seq<QueueElement<E>> {
    Seq::new(
        batch.len(),
        |i: int| QueueElement { execute_time: (now + batch[i].1) as Time, call_back: batch[i].0 },
    )
}

/// Enqueueing loses nothing and makes nothing up: what is pending after any
/// number of events were enqueued is what was pending before together with
/// those events, each once, each due its delay from now.
pub proof fn lemma_filled_holds<E>(agenda: Agenda<E>, batch: Seq<(E, Duration)>)
    requires
        agenda.wf(),
        forall|i: int| 0 <= i < batch.len() ==> agenda.admits((#[trigger] batch[i]).1),
    ensures
        agenda.filled(batch).pending.to_multiset() == agenda.pending.to_multiset().add(
            scheduled(agenda.now, batch).to_multiset(),
        ),
    decreases batch.len(),
{
    broadcast use vstd::seq_lib::group_to_multiset_ensures;

    if batch.len() == 0 {
        assert(scheduled(agenda.now, batch) =~= Seq::<QueueElement<E>>::empty());
        assert(agenda.filled(batch).pending.to_multiset() =~= agenda.pending.to_multiset().add(
            scheduled(agenda.now, batch).to_multiset(),
        ));
    } else {
        let rest = batch.drop_last();
        assert forall|i: int| 0 <= i < rest.len() implies agenda.admits((#[trigger] rest[i]).1) by {
            assert(rest[i] == batch[i]);
        }
        lemma_filled(agenda, rest);
        lemma_filled_holds(agenda, rest);
        let before = agenda.filled(rest);
        let element = QueueElement {
            execute_time: (agenda.now + batch.last().1) as Time,
            call_back: batch.last().0,
        };
        assert(agenda.admits(batch[batch.len() - 1].1));
        lemma_enqueued(before, batch.last().0, batch.last().1);
        let k = before.slot(element.execute_time);
        let after = agenda.filled(batch).pending;
        assert(after == before.pending.insert(k, element));
        assert(after.remove(k) =~= before.pending);
        assert(after[k] == element);
        assert(after.to_multiset() =~= before.pending.to_multiset().insert(element)) by {
            assert(after.remove(k).to_multiset() =~= after.to_multiset().remove(after[k]));
            assert(after.contains(element));
        }
        assert(scheduled(agenda.now, batch) =~= scheduled(agenda.now, rest).push(element));
        assert(agenda.filled(batch).pending.to_multiset() =~= agenda.pending.to_multiset().add(
            scheduled(agenda.now, batch).to_multiset(),
        ));
    }
}

/// Taking events out one after the other keeps the agenda in order. After
/// each taking the time is that of the event just taken, and what is left
/// is what was pending behind it.
pub proof fn lemma_drained<E>(agenda: Agenda<E>, n: nat)
    requires
        agenda.wf(),
        n <= agenda.pending.len(),
    ensures
        agenda.drained(n).wf(),
        agenda.drained(n).pending == agenda.pending.skip(n as int),
        n > 0 ==> agenda.drained(n).now == agenda.pending[n - 1].execute_time,
    decreases n,
{
    if n > 0 {
        let before = agenda.drained((n - 1) as nat);
        lemma_drained(agenda, (n - 1) as nat);
        lemma_advanced(before);
        assert(before.pending[0] == agenda.pending[n - 1]);
        assert(before.pending.drop_first() =~= agenda.pending.skip(n as int));
    } else {
        assert(agenda.pending.skip(0) =~= agenda.pending);
    }
}

/// Events run in the order of their times. Enqueue any number of events,
/// with whatever delays, and take them out one after the other: the time
/// after each taking is the time of the event just taken, and it is never
/// earlier than the time after a taking before it.
pub proof fn lemma_taken_in_order<E>(agenda: Agenda<E>, batch: Seq<(E, Duration)>, i: nat, j: nat)
    requires
        agenda.wf(),
        forall|k: int| 0 <= k < batch.len() ==> agenda.admits((#[trigger] batch[k]).1),
        0 < i <= j <= agenda.filled(batch).pending.len(),
    ensures
        agenda.filled(batch).drained(i).now == agenda.filled(batch).pending[i - 1].execute_time,
        agenda.filled(batch).drained(j).now == agenda.filled(batch).pending[j - 1].execute_time,
        agenda.filled(batch).drained(i).now <= agenda.filled(batch).drained(j).now,
        agenda.now <= agenda.filled(batch).drained(i).now,
{
    let full = agenda.filled(batch);
    lemma_filled(agenda, batch);
    lemma_drained(full, i);
    lemma_drained(full, j);
    assert(full.pending[i - 1].execute_time <= full.pending[j - 1].execute_time);
    assert(full.now <= full.pending[i - 1].execute_time);
}

/// An event enqueued while the time is `T`, with a delay of `d`, is due at
/// `T + d`: it is pending from then on and falls due once the time is allowed
/// to reach `T + d`, and not before.
pub proof fn lemma_enqueued_falls_due<E>(agenda: Agenda<E>, event: E, delay: Duration, until: Time)
    requires
        agenda.wf(),
        agenda.admits(delay),
    ensures
        until >= agenda.now + delay ==> agenda.enqueued(event, delay).due(until),
        !agenda.due(until) && until < agenda.now + delay ==> !agenda.enqueued(event, delay).due(
            until,
        ),
{
    let t = (agenda.now + delay) as Time;
    lemma_enqueued(agenda, event, delay);
    let after = agenda.enqueued(event, delay);
    let k = agenda.slot(t);
    assert(after.pending[k].execute_time == t);
    assert(after.pending[0].execute_time <= after.pending[k].execute_time);
    if k > 0 {
        assert(after.pending[0] == agenda.pending[0]);
    }
}

/// Catching up with a time for which nothing is due any more keeps the agenda
/// in order, leaves nothing pending at or before that time, and moves the time
/// there unless it had passed already.
pub proof fn lemma_settled<E>(agenda: Agenda<E>, until: Time)
    requires
        agenda.wf(),
        !agenda.due(until),
    ensures
        agenda.settled(until).wf(),
        agenda.settled(until).pending == agenda.pending,
        until >= agenda.now ==> agenda.settled(until).now == until,
        until < agenda.now ==> agenda.settled(until).now == agenda.now,
        forall|i: int|
            0 <= i < agenda.pending.len() ==> (#[trigger] agenda.pending[i]).execute_time > until,
{
    assert forall|i: int| 0 <= i < agenda.pending.len() implies (
    #[trigger] agenda.pending[i]).execute_time > until by {
        assert(agenda.pending[0].execute_time <= agenda.pending[i].execute_time);
    }
}

pub struct EventQueue<E> {
    current_time: Time,
    queue: VecDeque<QueueElement<E>>,
}

impl<E> View for EventQueue<E> {
    type V = Agenda<E>;

    closed spec fn view(&self) -> Agenda<E> {
        Agenda { now: self.current_time, pending: self.queue@ }
    }
}

impl<E> EventQueue<E> {
    #[verifier::type_invariant]
    closed spec fn well_formed(self) -> bool {
        self@.wf()
    }

    pub fn new() -> (queue: EventQueue<E>)
        ensures
            queue@ == Agenda::<E>::empty(),
    {
        EventQueue { current_time: 0, queue: VecDeque::new() }
    }

    /// A queue without events whose time is `time` to begin with.
    pub fn starting_at(time: Time) -> (queue: EventQueue<E>)
        ensures
            queue@ == (Agenda::<E> { now: time, pending: Seq::empty() }),
    {
        EventQueue { current_time: time, queue: VecDeque::new() }
    }

    pub fn now(&self) -> (time: Time)
        ensures
            time == self@.now,
    {
        self.current_time
    }

    /// The time of the event that runs next, if any is pending. It has not
    /// passed yet, and nothing that is pending runs before it.
    pub fn next(&self) -> (time: Option<Time>)
        ensures
            time == self@.next(),
            self@.wf(),
    {
        proof {
            use_type_invariant(self);
        }
        if self.queue.len() > 0 {
            Some(self.queue[0].execute_time)
        } else {
            None
        }
    }

    /// How many events are pending.
    pub fn len(&self) -> (count: usize)
        ensures
            count == self@.pending.len(),
    {
        self.queue.len()
    }

    /// Enqueues `event` to run `delay` from now: behind everything due by
    /// then, the events enqueued earlier for that same time included.
    pub fn enqueue(&mut self, event: E, delay: Duration)
        requires
            old(self)@.admits(delay),
        ensures
            final(self)@ == old(self)@.enqueued(event, delay),
            final(self)@.wf(),
    {
        proof {
            use_type_invariant(&*self);
            lemma_enqueued(self@, event, delay);
        }
        let execute_time = self.current_time + delay;
        let mut queue = VecDeque::new();
        core::mem::swap(&mut self.queue, &mut queue);
        let mut i: usize = queue.len();
        while i > 0 && queue[i - 1].execute_time > execute_time
            invariant
                i <= queue.len(),
                queue@ == old(self)@.pending,
                old(self)@.ordered(),
                forall|j: int|
                    i <= j < queue@.len() ==> (#[trigger] queue@[j]).execute_time > execute_time,
            decreases i,
        {
            i = i - 1;
        }
        proof {
            let agenda = old(self)@;
            assert(agenda.is_slot(i as int, execute_time)) by {
                assert forall|j: int| 0 <= j < i implies (#[trigger] agenda.pending[j]).execute_time
                    <= execute_time by {
                    assert(agenda.pending[j].execute_time <= agenda.pending[i - 1].execute_time);
                }
            }
            lemma_slot_unique(agenda, i as int, execute_time);
        }
        queue.insert(i, QueueElement { execute_time, call_back: event });
        core::mem::swap(&mut self.queue, &mut queue);
    }

    /// Takes out the event that runs next and moves the time on to its time.
    /// Hands back nothing, and changes nothing, where no event is pending.
    pub fn take_next(&mut self) -> (event: Option<E>)
        ensures
            old(self)@.pending.len() == 0 ==> event.is_none() && final(self)@ == old(self)@,
            old(self)@.pending.len() > 0 ==> event == Some(old(self)@.pending[0].call_back)
                && final(self)@ == old(self)@.advanced(),
            old(self)@.wf(),
            final(self)@.wf(),
    {
        proof {
            use_type_invariant(&*self);
            if self@.pending.len() > 0 {
                lemma_advanced(self@);
            }
        }
        let mut queue = VecDeque::new();
        core::mem::swap(&mut self.queue, &mut queue);
        let first = queue.pop_front();
        assert(first.is_some() ==> queue@ == old(self)@.pending.drop_first());
        let time = match &first {
            Some(element) if element.execute_time > self.current_time => element.execute_time,
            _ => self.current_time,
        };
        *self = EventQueue { current_time: time, queue };
        match first {
            Some(element) => Some(element.call_back),
            None => None,
        }
    }

    /// Lets the time catch up with `until`, once nothing is due by then.
    pub fn settle(&mut self, until: Time)
        requires
            !old(self)@.due(until),
        ensures
            final(self)@ == old(self)@.settled(until),
            final(self)@.wf(),
    {
        proof {
            use_type_invariant(&*self);
            lemma_settled(self@, until);
        }
        if until > self.current_time {
            self.current_time = until;
        }
    }
}

} // verus!
