//! The state of a game: a space, its scheduler, and the player in it.

use vstd::prelude::*;
use std::collections::HashMap;
use std::rc::Rc;
use crate::charms::{share, Cast};
use crate::entities::presets::{grenade, spec_grenade};
use crate::entity_heap::{Entity, EntityHeap, UID};
use crate::event_queue::{Event, EventQueue, World};
use crate::events::Agenda;
use crate::forms::effects::{Circle, Effect};
use crate::forms::safety::{
    extent, is_steady, lemma_empty_sound, lemma_run_sound, reach_of, steady, CROWD, FAR,
};
use crate::game::user_input::DirPad;
use crate::physics::Body;
use crate::units::{fits, trunc_div, Position, Scalar, Time, Vec2, Velocity, DOT};

verus! {

broadcast use vstd::std_specs::hash::group_hash_axioms;

/// The colour of the player: red.
pub struct PlayerEffect;

impl PlayerEffect {
    pub open spec fn hue() -> [u8; 4] {
        [0xFFu8, 0x00u8, 0x00u8, 0xFFu8]
    }
}

impl Effect for PlayerEffect {
    fn color(&self) -> (c: [u8; 4])
        ensures
            c == PlayerEffect::hue(),
    {
        [0xFF, 0x00, 0x00, 0xFF]
    }
}

pub struct Player {
    pub shape: Circle,
    pub body: Body,
    pub speed: Scalar,
}

/// The part of a velocity along one axis: the speed toward the side that is
/// held, and nothing where both sides are held or neither.
pub open spec fn along(speed: Scalar, back: bool, forth: bool) -> int {
    (if forth {
        speed as int
    } else {
        0
    }) - (if back {
        speed as int
    } else {
        0
    })
}

/// The velocity that the held directions give at `speed`. Moving along both
/// axes at once, each part is cut to five sevenths, rounded toward zero, so
/// that a diagonal is not much faster than a straight line.
pub open spec fn spec_heading(speed: Scalar, dirs: DirPad<bool>) -> Velocity {
    let x = along(speed, dirs.left, dirs.right);
    let y = along(speed, dirs.up, dirs.down);
    if x != 0 && y != 0 {
        Vec2 { x: trunc_div(x * 5, 7) as i64, y: trunc_div(y * 5, 7) as i64 }
    } else {
        Vec2 { x: x as i64, y: y as i64 }
    }
}

/// Whether a velocity at `speed` can be computed in 64-bit arithmetic.
pub open spec fn moderate(speed: Scalar) -> bool {
    fits(speed * 5) && fits(speed * -5)
}

/// The velocity that the held directions give at `speed`.
pub fn heading(speed: Scalar, dirs: &DirPad<bool>) -> (velocity: Velocity)
    requires
        moderate(speed),
    ensures
        velocity == spec_heading(speed, *dirs),
{
    let mut x: Scalar = 0;
    let mut y: Scalar = 0;

    if dirs.left {
        x = x - speed;
    }
    if dirs.right {
        x = x + speed;
    }
    if dirs.up {
        y = y - speed;
    }
    if dirs.down {
        y = y + speed;
    }

    if x != 0 && y != 0 {
        x = x * 5;
        x = x / 7;
        y = y * 5;
        y = y / 7;
    }

    Vec2 { x, y }
}

impl Player {
    /// The player at the start, as a value: at rest at the origin, ten dots
    /// in radius, with a speed of a hundred.
    pub open spec fn spec_new() -> Player {
        Player {
            shape: Circle { color: PlayerEffect::hue(), radius: (10 * DOT) as Scalar },
            body: Body::spec_new_frozen(Vec2 { x: 0, y: 0 }),
            speed: 100,
        }
    }

    pub fn new() -> (player: Player)
        ensures
            player == Player::spec_new(),
    {
        let color = PlayerEffect.color();
        let radius: Scalar = 10 * DOT;
        let shape = Circle { color, radius };

        let body = Body::new_frozen(Vec2::zero());

        let speed: Scalar = 100;

        Player { shape, body, speed }
    }
}

/// A space, its scheduler and the player, kept so that all goes well: what
/// is cast into the space is looked at first, and what is in the space is
/// sound for as long as the game may run.
pub struct GameState {
    time: EventQueue,
    space: EntityHeap,
    player: Player,
    action: Rc<Cast>,
    spent: u64,
}

impl GameState {
    #[verifier::type_invariant]
    closed spec fn well_formed(self) -> bool {
        &&& World::of(self.space@, self.time@).sound()
        &&& World::of(self.space@, self.time@).budget() <= self.spent <= CROWD
        &&& moderate(self.player.speed)
    }

    /// The space and its scheduler, as one mathematical value.
    pub closed spec fn world(self) -> World {
        World::of(self.space@, self.time@)
    }

    /// The player, as a value.
    pub closed spec fn the_player(self) -> Player {
        self.player
    }

    /// The player's action, as a value.
    pub closed spec fn the_action(self) -> Rc<Cast> {
        self.action
    }

    /// How many events were ever set off, which bounds how many are pending
    /// or still to come.
    pub closed spec fn spent(self) -> nat {
        self.spent as nat
    }

    /// Whether `cast` can be made at `target` from where the player is: the
    /// player is within reach, the cast is tame at that target, and it sets
    /// off no more events than there may still be.
    pub open spec fn casts(self, cast: Cast, target: Position) -> bool {
        &&& steady(self.the_player().body, self.world().time.now)
        &&& extent(target@) <= FAR
        &&& cast.tame(extent(target@), self.world().time.now as int)
        &&& self.spent() + cast.weight() <= CROWD
    }

    /// An empty space at time zero, with the player at the origin and the
    /// grenade for an action.
    pub fn new() -> (state: GameState)
        ensures
            state.world() == World::of(Map::<UID, Entity>::empty(), Agenda::<Event>::empty()),
            state.the_player() == Player::spec_new(),
            *state.the_action() == spec_grenade(),
            state.spent() == 0,
    {
        let space = HashMap::new();
        let time = EventQueue::new();
        let player = Player::new();
        let action = grenade();
        proof {
            lemma_empty_sound(0);
        }

        GameState { time, space, player, action, spent: 0 }
    }

    /// An empty state to stand in for this one while it is worked on: an
    /// empty space at time zero with nothing spent, the player as at the
    /// start, and this state's action, shared once more.
    fn hollow(&self) -> (state: GameState)
        ensures
            state.world() == World::of(Map::<UID, Entity>::empty(), Agenda::<Event>::empty()),
            state.the_player() == Player::spec_new(),
            state.the_action() == self.the_action(),
            state.spent() == 0,
    {
        proof {
            lemma_empty_sound(0);
        }
        GameState {
            time: EventQueue::new(),
            space: HashMap::new(),
            player: Player::new(),
            action: share(&self.action),
            spent: 0,
        }
    }

    /// The time of the game.
    pub fn now(&self) -> (now: Time)
        ensures
            now == self.world().time.now,
    {
        self.time.now()
    }

    /// The entities that are in the space.
    pub fn space(&self) -> (space: &EntityHeap)
        ensures
            space@ == self.world().space,
    {
        &self.space
    }

    /// The scheduler of the space.
    pub fn time(&self) -> (time: &EventQueue)
        ensures
            time@ == self.world().time,
    {
        &self.time
    }

    /// The player.
    pub fn player(&self) -> (player: &Player)
        ensures
            *player == self.the_player(),
    {
        &self.player
    }

    /// Lets the game run until `until`. Every event that falls due finds
    /// what it is meant for, and nothing leaves the range of the numbers.
    pub fn simulate(&mut self, until: Time)
        ensures
            final(self).world() == old(self).world().run(until),
            final(self).the_player() == old(self).the_player(),
            final(self).the_action() == old(self).the_action(),
            final(self).spent() == old(self).spent(),
    {
        let mut taken = self.hollow();
        core::mem::swap(self, &mut taken);
        proof {
            use_type_invariant(&taken);
            lemma_run_sound(taken.world(), until);
        }
        let GameState { mut time, mut space, player, action, spent } = taken;
        time.simulate(&mut space, until);
        *self = GameState { time, space, player, action, spent };
    }

    /// Whether `cast` can be made at `target` from where the player is.
    pub fn can_cast(&self, cast: &Cast, target: Position) -> (ok: bool)
        ensures
            ok == self.casts(*cast, target),
    {
        proof {
            use_type_invariant(self);
        }
        let now = self.time.now();
        if !is_steady(&self.player.body, now) {
            return false;
        }
        let bound = match reach_of(target) {
            Some(bound) => bound,
            None => {
                return false;
            },
        };
        if !cast.is_tame(bound, now) {
            return false;
        }
        cast.weigh(CROWD - self.spent).is_some()
    }

    /// Whether the player's action can be cast at `target`.
    pub fn can_fire(&self, target: Position) -> (ok: bool)
        ensures
            ok == self.casts(*self.the_action(), target),
    {
        self.can_cast(&self.action, target)
    }

    /// Casts `action` at `target`, from where the player is.
    pub fn cast_as_player(&mut self, action: &Cast, target: Position)
        requires
            old(self).casts(*action, target),
        ensures
            final(self).world() == action.outcome(
                old(self).world(),
                old(self).the_player().body,
                target,
            ),
            final(self).the_player() == old(self).the_player(),
            final(self).the_action() == old(self).the_action(),
            final(self).spent() == old(self).spent() + action.weight(),
    {
        let mut taken = self.hollow();
        core::mem::swap(self, &mut taken);
        proof {
            use_type_invariant(&taken);
            Cast::lemma_cast_sound(
                action,
                taken.world(),
                taken.player.body,
                target,
                extent(target@),
            );
        }
        let GameState { mut time, mut space, player, action: own, spent } = taken;
        let weight = match action.weigh(CROWD - spent) {
            Some(weight) => weight,
            None => 0,
        };
        action.cast(&mut space, &mut time, player.body, target);
        *self = GameState { time, space, player, action: own, spent: spent + weight };
    }

    /// Casts the player's action at `target`, from where the player is.
    pub fn fire(&mut self, target: Position)
        requires
            old(self).casts(*old(self).the_action(), target),
        ensures
            final(self).world() == (*old(self).the_action()).outcome(
                old(self).world(),
                old(self).the_player().body,
                target,
            ),
            final(self).the_player() == old(self).the_player(),
            final(self).the_action() == old(self).the_action(),
            final(self).spent() == old(self).spent() + (*old(self).the_action()).weight(),
    {
        let action = share(&self.action);
        self.cast_as_player(&action, target);
    }

    /// Whether the player can be given another velocity now: where the
    /// player is can be computed.
    pub fn can_move(&self) -> (ok: bool)
        ensures
            ok == self.the_player().body.reaches(self.world().time.now),
    {
        self.player.body.try_position(self.time.now()).is_some()
    }

    /// Gives the player the velocity that the held directions call for,
    /// from where the player is now.
    pub fn update_movement(&mut self, dirs: &DirPad<bool>)
        requires
            old(self).the_player().body.reaches(old(self).world().time.now),
        ensures
            final(self).the_player() == (Player {
                body: old(self).the_player().body.spec_split(
                    spec_heading(old(self).the_player().speed, *dirs),
                    old(self).world().time.now,
                ),
                ..old(self).the_player()
            }),
            final(self).world() == old(self).world(),
            final(self).the_action() == old(self).the_action(),
            final(self).spent() == old(self).spent(),
    {
        let mut taken = self.hollow();
        core::mem::swap(self, &mut taken);
        proof {
            use_type_invariant(&taken);
        }
        let GameState { time, space, player, action, spent } = taken;
        let velocity = heading(player.speed, dirs);

        let now = time.now();
        let mut body = player.body;
        body.bounce(velocity, now);
        let player = Player { shape: player.shape, body, speed: player.speed };
        *self = GameState { time, space, player, action, spent };
    }
}

} // verus!
