//! The clock that ties the time of the game to the time of the world.
//!
//! The clock does not look at the time itself: whoever owns it reads the
//! time of the world and hands it in, as the time elapsed since some origin
//! of their choosing.

use vstd::prelude::*;
use crate::units::{fits, Duration, Time, SEC};

verus! {

/// Nanoseconds in a second.
pub const NANOS_PER_SEC: u32 = 1_000_000_000;

/// A length of real time, in whole seconds and the nanoseconds beyond them.
#[derive(Clone, Copy, Debug)]
pub struct Elapsed {
    secs: u64,
    nanos: u32,
}

impl Elapsed {
    #[verifier::type_invariant]
    closed spec fn well_formed(self) -> bool {
        self.nanos < NANOS_PER_SEC
    }

    /// The whole seconds.
    pub closed spec fn secs(self) -> nat {
        self.secs as nat
    }

    /// The nanoseconds beyond the whole seconds, fewer than make a second.
    pub closed spec fn nanos(self) -> nat {
        self.nanos as nat
    }

    /// The length in nanoseconds.
    pub open spec fn total(self) -> nat {
        self.secs() * 1_000_000_000 + self.nanos()
    }

    /// The length of `secs` seconds and `nanos` nanoseconds, where the
    /// nanoseconds do not make a second.
    pub fn new(secs: u64, nanos: u32) -> (made: Option<Elapsed>)
        ensures
            nanos < NANOS_PER_SEC ==> (made matches Some(elapsed) && elapsed.secs() == secs
                && elapsed.nanos() == nanos),
            nanos >= NANOS_PER_SEC ==> made.is_none(),
    {
        if nanos < NANOS_PER_SEC {
            Some(Elapsed { secs, nanos })
        } else {
            None
        }
    }

    /// No time at all.
    pub fn zero() -> (elapsed: Elapsed)
        ensures
            elapsed.secs() == 0,
            elapsed.nanos() == 0,
    {
        Elapsed { secs: 0, nanos: 0 }
    }

    /// The time from `earlier` to `self`, and no time where `earlier` is
    /// the later of the two.
    pub fn since(self, earlier: Elapsed) -> (elapsed: Elapsed)
        ensures
            elapsed.nanos() < NANOS_PER_SEC,
            self.nanos() < NANOS_PER_SEC,
            earlier.nanos() < NANOS_PER_SEC,
            self.total() >= earlier.total() ==> elapsed.total() == self.total() - earlier.total(),
            self.total() < earlier.total() ==> elapsed.total() == 0,
    {
        proof {
            use_type_invariant(self);
            use_type_invariant(earlier);
        }
        if self.secs < earlier.secs || (self.secs == earlier.secs && self.nanos < earlier.nanos) {
            Elapsed { secs: 0, nanos: 0 }
        } else if self.nanos >= earlier.nanos {
            Elapsed { secs: self.secs - earlier.secs, nanos: self.nanos - earlier.nanos }
        } else {
            Elapsed {
                secs: self.secs - earlier.secs - 1,
                nanos: self.nanos + NANOS_PER_SEC - earlier.nanos,
            }
        }
    }
}

/// A length of real time in the ticks of the game, rounded down to a tick.
pub open spec fn in_game(secs: nat, nanos: nat) -> int {
    secs * SEC + (nanos * SEC) / 1_000_000_000
}

/// A length of real time in the ticks of the game.
pub fn duration_in_game(duration: Elapsed) -> (ticks: Duration)
    requires
        fits(in_game(duration.secs(), duration.nanos())),
    ensures
        ticks == in_game(duration.secs(), duration.nanos()),
{
    proof {
        use_type_invariant(duration);
    }
    let seconds = duration.secs;
    let nanos = duration.nanos;
    let time_s = seconds as Time * SEC;
    // a billion times the time that the nanoseconds stand for
    let time_n_bi = nanos as Time * SEC;
    time_s + time_n_bi / 1_000_000_000
}

/// A length of real time in the ticks of the game, or nothing where they
/// are more than can be represented.
pub fn try_duration_in_game(duration: Elapsed) -> (ticks: Option<Duration>)
    ensures
        fits(in_game(duration.secs(), duration.nanos())) ==> ticks == Some(
            in_game(duration.secs(), duration.nanos()) as Duration,
        ),
        !fits(in_game(duration.secs(), duration.nanos())) ==> ticks.is_none(),
{
    proof {
        use_type_invariant(duration);
    }
    if duration.secs > 0x7FFF_FFFF_FFFF {
        return None;
    }
    let time_s = duration.secs as Time * SEC;
    let time_n_bi = duration.nanos as Time * SEC;
    time_s.checked_add(time_n_bi / 1_000_000_000)
}

/// A clock that runs from when it is started until it is stopped.
pub struct Simple {
    pub start_instant: Option<Elapsed>,
    pub last_time: Time,
}

impl Simple {
    /// The real time for which the clock has been running at `now`, as a
    /// number of nanoseconds.
    pub open spec fn running_for(self, now: Elapsed) -> nat {
        match self.start_instant {
            Some(start) => if now.total() >= start.total() {
                (now.total() - start.total()) as nat
            } else {
                0
            },
            None => 0,
        }
    }

    /// The time of the game that the clock shows at `now`.
    pub open spec fn time_at(self, now: Elapsed) -> int {
        self.last_time + in_game(
            self.running_for(now) / 1_000_000_000,
            self.running_for(now) % 1_000_000_000,
        )
    }

    /// Whether the time that the clock shows at `now` can be represented.
    pub open spec fn can_tell(self, now: Elapsed) -> bool {
        fits(
            in_game(self.running_for(now) / 1_000_000_000, self.running_for(now) % 1_000_000_000),
        ) && fits(self.time_at(now))
    }

    /// A stopped clock that shows `start_time`.
    pub fn new(start_time: Time) -> (clock: Simple)
        ensures
            clock == (Simple { start_instant: None, last_time: start_time }),
    {
        Simple { start_instant: None, last_time: start_time }
    }

    /// The real time for which the clock has been running at `now`. Time
    /// only passes while the clock runs.
    pub fn elapsed_as_of(&self, now: Elapsed) -> (elapsed: Elapsed)
        ensures
            elapsed.total() == self.running_for(now),
            elapsed.nanos() < NANOS_PER_SEC,
    {
        if let Some(start) = self.start_instant {
            now.since(start)
        } else {
            let none = Elapsed::zero();
            assert(none.total() == 0);
            none
        }
    }

    /// The time of the game that the clock shows at `now`.
    pub fn time(&self, now: Elapsed) -> (time: Time)
        requires
            self.can_tell(now),
        ensures
            time == self.time_at(now),
    {
        let elapsed = self.elapsed_as_of(now);
        proof {
            lemma_parts(elapsed.secs(), elapsed.nanos());
        }
        self.last_time + duration_in_game(elapsed)
    }

    /// The time of the game that the clock shows at `now`, or nothing where
    /// it cannot be represented.
    pub fn try_time(&self, now: Elapsed) -> (time: Option<Time>)
        ensures
            self.can_tell(now) ==> time == Some(self.time_at(now) as Time),
            !self.can_tell(now) ==> time.is_none(),
    {
        let elapsed = self.elapsed_as_of(now);
        proof {
            lemma_parts(elapsed.secs(), elapsed.nanos());
        }
        let ticks = try_duration_in_game(elapsed)?;
        self.last_time.checked_add(ticks)
    }

    /// Stops the clock; it keeps showing the time it shows at `now`.
    pub fn stop(&mut self, now: Elapsed)
        requires
            old(self).can_tell(now),
        ensures
            *final(self) == (Simple {
                start_instant: None,
                last_time: old(self).time_at(now) as Time,
            }),
    {
        self.last_time = self.time(now);
        self.start_instant = None;
    }

    /// Starts the clock at `now`, from the time it shows then.
    pub fn start(&mut self, now: Elapsed)
        requires
            old(self).can_tell(now),
        ensures
            *final(self) == (Simple {
                start_instant: Some(now),
                last_time: old(self).time_at(now) as Time,
            }),
    {
        self.stop(now);
        self.start_instant = Some(now);
    }
}

/// Seconds and the nanoseconds beyond them are the quotient and the
/// remainder of the nanoseconds they make.
pub proof fn lemma_parts(secs: nat, nanos: nat)
    requires
        nanos < 1_000_000_000,
    ensures
        (secs * 1_000_000_000 + nanos) / 1_000_000_000 == secs,
        (secs * 1_000_000_000 + nanos) % 1_000_000_000 == nanos,
{
    vstd::arithmetic::div_mod::lemma_fundamental_div_mod_converse(
        (secs * 1_000_000_000 + nanos) as int,
        1_000_000_000,
        secs as int,
        nanos as int,
    );
}

/// A clock that never shows a time beyond a limit. Whoever owns the clock
/// keeps moving the limit on; a clock that has run into the limit waits
/// there and goes on from the limit, so time that was held up is not caught
/// up on.
pub struct Stuttering {
    pub max_time: Time,
    pub clock: Simple,
}

impl Stuttering {
    /// A clock started at `now` that shows `igt`, which is also its limit.
    pub fn new(igt: Time, now: Elapsed) -> (clock: Stuttering)
        ensures
            clock.max_time == igt,
            clock.clock == (Simple { start_instant: Some(now), last_time: igt }),
    {
        let max_time = igt;

        let mut clock = Simple::new(igt);
        proof {
            lemma_stopped(clock, now);
        }
        clock.start(now);

        Stuttering { clock, max_time }
    }

    /// Whether the clock inside has run past the limit at `now`.
    pub open spec fn held_up(self, now: Elapsed) -> bool {
        self.clock.time_at(now) > self.max_time
    }

    /// The time of the game that the clock shows at `now`: what the clock
    /// inside shows, but no more than the limit.
    pub open spec fn shown(self, now: Elapsed) -> Time {
        if self.held_up(now) {
            self.max_time
        } else {
            self.clock.time_at(now) as Time
        }
    }

    /// The clock after it was read at `now`: where it was held up, the
    /// clock inside was started again from the limit.
    pub open spec fn read(self, now: Elapsed) -> Stuttering {
        if self.held_up(now) {
            Stuttering {
                max_time: self.max_time,
                clock: Simple { start_instant: Some(now), last_time: self.max_time },
            }
        } else {
            self
        }
    }

    /// The time of the game at `now`: what the clock inside shows, or the
    /// limit where the clock has run past it. In that case the clock
    /// inside is started again from the limit.
    pub fn time(&mut self, now: Elapsed) -> (time: Time)
        requires
            old(self).clock.can_tell(now),
        ensures
            time == old(self).shown(now),
            *final(self) == old(self).read(now),
    {
        let ig_now = self.clock.time(now);

        if ig_now > self.max_time {
            let mut clock = Simple::new(self.max_time);
            proof {
                lemma_stopped(clock, now);
            }
            clock.start(now);
            self.clock = clock;

            self.max_time
        } else {
            ig_now
        }
    }
}

/// A stopped clock shows the same time whenever it is asked.
pub proof fn lemma_stopped(clock: Simple, now: Elapsed)
    requires
        clock.start_instant.is_none(),
    ensures
        clock.can_tell(now),
        clock.time_at(now) == clock.last_time,
{
}

} // verus!
