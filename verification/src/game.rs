//! The game around the kernel: its clock, its controls, its arsenal and its
//! state, and how the four work together.

use vstd::prelude::*;
use vstd::std_specs::cmp::PartialEqSpec;
use crate::entities::presets::spec_grenade;
use crate::entity_heap::{Entity, UID};
use crate::event_queue::{Event, World};
use crate::events::Agenda;
use crate::game::clock::{Elapsed, Simple, Stuttering};
use crate::game::game_state::{spec_heading, GameState, Player};
use crate::game::grenade_builder::Builder;
use crate::game::user_input::{DeviceUpdate, Input};
use crate::units::{fits, Position, Time, MOMENT};

pub mod clock;
pub mod draw;
pub mod game_state;
pub mod grenade_builder;
pub mod user_input;

verus! {

pub struct Game<B> {
    pub state: GameState,
    pub real_time: Stuttering,
    pub input: Input<B>,
    pub arsenal: Builder,
}

impl<B> Game<B> where B: PartialEq {
    /// Whether what the controls ask for can be done in the state the game
    /// is in: a cast can be made, the player can be moved, and the way from
    /// the player to the cursor can be measured. Anything else can always
    /// be done.
    pub open spec fn allows(self, update: DeviceUpdate) -> bool {
        let now = self.state.world().time.now;
        let body = self.state.the_player().body;
        match update {
            DeviceUpdate::Nop => true,
            DeviceUpdate::Cast { target } => self.state.casts(*self.arsenal@.current, target),
            DeviceUpdate::ChangeMovement { dirs } => body.reaches(now),
            DeviceUpdate::ArsenalUpdate { upd } => true,
            DeviceUpdate::AddToCluster { target } => body.reaches(now) && target.can_sub(
                body.spec_position(now),
            ),
        }
    }

    /// A game at its start, with the given controls and its clock started
    /// at `now`.
    pub fn new(input: Input<B>, now: Elapsed) -> (game: Game<B>)
        ensures
            game.input == input,
            game.state.world() == World::of(Map::<UID, Entity>::empty(), Agenda::<Event>::empty()),
            game.state.the_player() == Player::spec_new(),
            *game.state.the_action() == spec_grenade(),
            game.state.spent() == 0,
            game.real_time == (Stuttering {
                max_time: 0,
                clock: Simple { start_instant: Some(now), last_time: 0 },
            }),
            game.arsenal@.is_initial(),
    {
        let state = GameState::new();
        let real_time = Stuttering::new(state.now(), now);
        let arsenal = Builder::new();

        Game { state, real_time, input, arsenal }
    }

    /// Lets the game catch up with the clock.
    pub fn on_update(&mut self, now: Elapsed)
        requires
            old(self).real_time.clock.can_tell(now),
        ensures
            final(self).real_time == old(self).real_time.read(now),
            final(self).state.world() == old(self).state.world().run(
                old(self).real_time.shown(now),
            ),
            final(self).state.the_player() == old(self).state.the_player(),
            final(self).state.the_action() == old(self).state.the_action(),
            final(self).state.spent() == old(self).state.spent(),
            final(self).input == old(self).input,
            final(self).arsenal == old(self).arsenal,
    {
        let now = self.real_time.time(now);
        self.state.simulate(now);
    }

    /// Whether `after` is the game after `update` was carried out: a cast
    /// was made from where the player is, the player was given another
    /// velocity, the arsenal was updated, or the way from the player to the
    /// target was put with what the next cluster is made of.
    pub open spec fn carries_out(self, update: DeviceUpdate, after: Game<B>) -> bool {
        let now = self.state.world().time.now;
        let player = self.state.the_player();
        match update {
            DeviceUpdate::Nop => after.state == self.state && after.arsenal == self.arsenal,
            DeviceUpdate::Cast { target } => {
                &&& after.state.world() == (*self.arsenal@.current).outcome(
                    self.state.world(),
                    player.body,
                    target,
                )
                &&& after.state.the_player() == player
                &&& after.state.the_action() == self.state.the_action()
                &&& after.state.spent() == self.state.spent() + (*self.arsenal@.current).weight()
                &&& after.arsenal == self.arsenal
            },
            DeviceUpdate::ChangeMovement { dirs } => {
                &&& after.state.the_player() == (Player {
                    body: player.body.spec_split(spec_heading(player.speed, dirs), now),
                    ..player
                })
                &&& after.state.world() == self.state.world()
                &&& after.state.the_action() == self.state.the_action()
                &&& after.state.spent() == self.state.spent()
                &&& after.arsenal == self.arsenal
            },
            DeviceUpdate::ArsenalUpdate { upd } => {
                &&& after.state == self.state
                &&& self.arsenal@.leads_to(upd, after.arsenal@)
            },
            DeviceUpdate::AddToCluster { target } => {
                &&& after.state == self.state
                &&& after.arsenal@ == self.arsenal@.gathered(
                    target.minus(player.body.spec_position(now)),
                )
            },
        }
    }

    /// Does what the controls ask for when a button is pressed or let go.
    /// Says whether it could be done; where it could not, only the controls
    /// have taken note of the button.
    pub fn on_input(&mut self, button: &B, butt_pressed: bool) -> (done: bool)
        ensures
            final(self).real_time == old(self).real_time,
            B::obeys_eq_spec() ==> final(self).input == old(self).input.spec_interpret(
                *button,
                butt_pressed,
            ).0,
            B::obeys_eq_spec() ==> done == old(self).allows(
                old(self).input.spec_interpret(*button, butt_pressed).1,
            ),
            B::obeys_eq_spec() && done ==> old(self).carries_out(
                old(self).input.spec_interpret(*button, butt_pressed).1,
                *final(self),
            ),
            !done ==> final(self).state == old(self).state && final(self).arsenal == old(self).arsenal,
    {
        let action = self.input.interpret(button, butt_pressed);

        match action {
            DeviceUpdate::Nop => true,
            DeviceUpdate::Cast { target } => {
                let action = self.arsenal.current();
                if self.state.can_cast(&action, target) {
                    self.state.cast_as_player(&action, target);
                    true
                } else {
                    false
                }
            },
            DeviceUpdate::ChangeMovement { dirs } => {
                if self.state.can_move() {
                    self.state.update_movement(&dirs);
                    true
                } else {
                    false
                }
            },
            DeviceUpdate::ArsenalUpdate { upd } => {
                self.arsenal.apply_update(upd);
                true
            },
            DeviceUpdate::AddToCluster { target } => {
                let now = self.state.now();
                match self.state.player().body.try_position(now) {
                    Some(pos) => match target.try_sub(pos) {
                        Some(offset) => {
                            self.arsenal.add_to_cluster(offset);
                            true
                        },
                        None => false,
                    },
                    None => false,
                }
            },
        }
    }

    /// Takes note of where the cursor is.
    pub fn on_mouse_move(&mut self, cursor: Position)
        ensures
            final(self).input == (Input { cursor_pos: cursor, ..old(self).input }),
            final(self).state == old(self).state,
            final(self).real_time == old(self).real_time,
            final(self).arsenal == old(self).arsenal,
    {
        self.input.on_mouse_move(cursor);
    }

    /// Makes ready for a frame to be drawn: lets the clock run on for a
    /// moment beyond the time of the game, and says what that time is.
    pub fn on_draw(&mut self) -> (now: Time)
        requires
            fits(old(self).state.world().time.now + MOMENT),
        ensures
            now == old(self).state.world().time.now,
            final(self).real_time.max_time == now + MOMENT,
            final(self).real_time.clock == old(self).real_time.clock,
            final(self).state == old(self).state,
            final(self).input == old(self).input,
            final(self).arsenal == old(self).arsenal,
    {
        let now = self.state.now();
        self.real_time.max_time = now + MOMENT;
        now
    }
}

} // verus!
