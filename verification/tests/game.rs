use std::rc::Rc;

use charm_internal::charms::Cast;
use charm_internal::entity_heap::Entity;
use charm_internal::forms::effects::{BoltCast, Circle, ClusterCast, Effect, SmokeCast};
use charm_internal::forms::safety::{is_steady, reach_of, FAR, REACH};
use charm_internal::game::clock::{duration_in_game, Elapsed, Simple, Stuttering};
use charm_internal::game::draw::collect_quadruple;
use charm_internal::game::game_state::{heading, GameState, Player, PlayerEffect};
use charm_internal::game::Game;
use charm_internal::physics::Body;
use charm_internal::game::grenade_builder::{
    basic_grenade, color_from_levels, ArsenalUpdate, Builder, Level,
};
use charm_internal::game::user_input::{position, DeviceUpdate, Dir, DirPad, Input};
use charm_internal::units::{Vec2, DOT, MOMENT, SEC};

fn at(secs: u64, nanos: u32) -> Elapsed {
    Elapsed::new(secs, nanos).unwrap()
}

fn smoke_of(cast: &Cast) -> ([u8; 4], i64) {
    match cast {
        Cast::Bolt(bolt) => match &*bolt.action {
            Cast::Smoke(smoke) => (smoke.shape.color, smoke.shape.radius),
            _ => panic!("smoke expected"),
        },
        _ => panic!("bolt expected"),
    }
}

fn input() -> Input<char> {
    Input::new(
        DirPad { up: 'w', down: 's', left: 'a', right: 'd' },
        '<',
        '>',
        ['1', '2', '3', '4', '5', '6', '7', '8', '9'],
        '0',
        '=',
        ['n', 'h', 'y', 'm', 'j', 'u', ',', 'k', 'i', '.', 'l', 'o'],
        '^',
    )
}

#[test]
fn elapsed_needs_fewer_nanoseconds_than_make_a_second() {
    assert!(Elapsed::new(0, 999_999_999).is_some());
    assert!(Elapsed::new(0, 1_000_000_000).is_none());
    assert!(Elapsed::new(u64::MAX, 0).is_some());
}

#[test]
fn elapsed_since_borrows_a_second_when_it_has_to() {
    assert_eq!(duration_in_game(at(5, 250_000_000).since(at(3, 750_000_000))), SEC + SEC / 2);
    assert_eq!(duration_in_game(at(5, 750_000_000).since(at(3, 250_000_000))), 2 * SEC + SEC / 2);
    assert_eq!(duration_in_game(at(5, 0).since(at(5, 0))), 0);
}

#[test]
fn elapsed_since_a_later_time_is_nothing() {
    assert_eq!(duration_in_game(at(3, 0).since(at(5, 0))), 0);
    assert_eq!(duration_in_game(at(3, 1).since(at(3, 2))), 0);
}

#[test]
fn duration_in_game_counts_ticks_and_rounds_down() {
    assert_eq!(duration_in_game(Elapsed::zero()), 0);
    assert_eq!(duration_in_game(at(1, 0)), SEC);
    assert_eq!(duration_in_game(at(2, 500_000_000)), 2 * SEC + SEC / 2);
    assert_eq!(duration_in_game(at(0, 62_500_000)), MOMENT);
    // one tick is 15258.78... nanoseconds
    assert_eq!(duration_in_game(at(0, 15_258)), 0);
    assert_eq!(duration_in_game(at(0, 15_259)), 1);
    assert_eq!(duration_in_game(at(0, 999_999_999)), SEC - 1);
}

#[test]
fn stopped_clock_shows_its_start_time() {
    let clock = Simple::new(1234);
    assert_eq!(clock.time(at(0, 0)), 1234);
    assert_eq!(clock.time(at(99, 0)), 1234);
    assert_eq!(duration_in_game(clock.elapsed_as_of(at(99, 0))), 0);
}

#[test]
fn started_clock_runs_from_when_it_was_started() {
    let mut clock = Simple::new(1000);
    clock.start(at(10, 0));
    assert_eq!(clock.time(at(10, 0)), 1000);
    assert_eq!(clock.time(at(12, 500_000_000)), 1000 + 2 * SEC + SEC / 2);
    assert_eq!(duration_in_game(clock.elapsed_as_of(at(11, 0))), SEC);
    // a time before the start counts as no time
    assert_eq!(clock.time(at(9, 0)), 1000);
}

#[test]
fn stopped_clock_keeps_the_time_it_had() {
    let mut clock = Simple::new(0);
    clock.start(at(1, 0));
    clock.stop(at(3, 0));
    assert_eq!(clock.time(at(3, 0)), 2 * SEC);
    assert_eq!(clock.time(at(50, 0)), 2 * SEC);
    clock.start(at(60, 0));
    assert_eq!(clock.time(at(61, 0)), 3 * SEC);
}

#[test]
fn stuttering_clock_is_held_at_its_limit() {
    let mut clock = Stuttering::new(500, at(10, 0));
    assert_eq!(clock.max_time, 500);
    // started with its limit at its time, the clock cannot move
    assert_eq!(clock.time(at(11, 0)), 500);
    assert_eq!(clock.time(at(12, 0)), 500);
}

#[test]
fn stuttering_clock_runs_below_its_limit_and_does_not_catch_up() {
    let mut clock = Stuttering::new(0, at(10, 0));
    clock.max_time = 3 * SEC;
    assert_eq!(clock.time(at(11, 0)), SEC);
    assert_eq!(clock.time(at(12, 0)), 2 * SEC);
    // five seconds pass, but only up to the limit is shown
    assert_eq!(clock.time(at(17, 0)), 3 * SEC);
    clock.max_time = 100 * SEC;
    // the clock goes on from the limit: the time held up is lost
    assert_eq!(clock.time(at(18, 0)), 4 * SEC);
    assert_eq!(clock.time(at(18, 500_000_000)), 4 * SEC + SEC / 2);
}

#[test]
fn stuttering_clock_at_exactly_its_limit_is_not_held() {
    let mut clock = Stuttering::new(0, at(0, 0));
    clock.max_time = SEC;
    assert_eq!(clock.time(at(1, 0)), SEC);
    clock.max_time = 10 * SEC;
    assert_eq!(clock.time(at(2, 0)), 2 * SEC);
}

#[test]
fn collect_quadruple_takes_exactly_four() {
    assert_eq!(collect_quadruple(vec![1, 2, 3, 4]), Ok([1, 2, 3, 4]));
    assert_eq!(collect_quadruple(vec![1, 2, 3]), Err(vec![1, 2, 3]));
    assert_eq!(collect_quadruple(vec![1, 2, 3, 4, 5]), Err(vec![1, 2, 3, 4, 5]));
    assert_eq!(collect_quadruple(Vec::<u8>::new()), Err(Vec::new()));
    assert_eq!(collect_quadruple(vec!["a", "b", "c", "d"]), Ok(["a", "b", "c", "d"]));
}

#[test]
fn level_picks_the_value_that_goes_with_it() {
    assert_eq!(Level::Low.pick(1, 2, 3), 1);
    assert_eq!(Level::Medium.pick(1, 2, 3), 2);
    assert_eq!(Level::High.pick(1, 2, 3), 3);
}

#[test]
fn colour_comes_from_three_levels() {
    assert_eq!(color_from_levels([Level::Low, Level::Medium, Level::High]), [0x22, 0x99, 0xFF]);
    assert_eq!(color_from_levels([Level::High, Level::High, Level::Low]), [0xFF, 0xFF, 0x22]);
    assert_eq!(color_from_levels([Level::Low, Level::Low, Level::Low]), [0x22, 0x22, 0x22]);
}

#[test]
fn basic_grenade_is_made_from_four_levels() {
    let cast = basic_grenade([Level::Low, Level::Medium, Level::High, Level::Low]);
    assert_eq!(smoke_of(&cast), ([0x22, 0x99, 0xFF, 0xFF], 20 * DOT));
    let cast = basic_grenade([Level::High, Level::Low, Level::Low, Level::Medium]);
    assert_eq!(smoke_of(&cast), ([0xFF, 0x22, 0x22, 0xFF], 80 * DOT));
    let cast = basic_grenade([Level::Low, Level::Low, Level::Low, Level::High]);
    assert_eq!(smoke_of(&cast), ([0x22, 0x22, 0x22, 0xFF], 120 * DOT));
}

#[test]
fn new_arsenal_holds_the_lowest_grenade() {
    let builder = Builder::new();
    assert_eq!(smoke_of(&builder.current()), ([0x22, 0x22, 0x22, 0xFF], 20 * DOT));
}

#[test]
fn setting_a_level_rebuilds_the_basic_grenade() {
    let mut builder = Builder::new();
    builder.apply_update(ArsenalUpdate::SetLevel { which: 0, level: Level::High });
    assert_eq!(smoke_of(&builder.current()), ([0xFF, 0x22, 0x22, 0xFF], 20 * DOT));
    builder.apply_update(ArsenalUpdate::SetLevel { which: 3, level: Level::Medium });
    assert_eq!(smoke_of(&builder.current()), ([0xFF, 0x22, 0x22, 0xFF], 80 * DOT));
    builder.apply_update(ArsenalUpdate::SetLevel { which: 2, level: Level::Medium });
    builder.apply_update(ArsenalUpdate::SetLevel { which: 1, level: Level::High });
    assert_eq!(smoke_of(&builder.current()), ([0xFF, 0xFF, 0x99, 0xFF], 80 * DOT));
}

#[test]
fn registers_keep_what_was_saved_to_them() {
    let mut builder = Builder::new();
    builder.apply_update(ArsenalUpdate::SetLevel { which: 0, level: Level::High });
    builder.apply_update(ArsenalUpdate::SaveNade { which: 4 });
    builder.apply_update(ArsenalUpdate::SetLevel { which: 0, level: Level::Medium });
    assert_eq!(smoke_of(&builder.current()).0, [0x99, 0x22, 0x22, 0xFF]);
    builder.apply_update(ArsenalUpdate::LoadNade { which: 4 });
    assert_eq!(smoke_of(&builder.current()).0, [0xFF, 0x22, 0x22, 0xFF]);
    builder.apply_update(ArsenalUpdate::LoadNade { which: 5 });
    assert_eq!(smoke_of(&builder.current()).0, [0x22, 0x22, 0x22, 0xFF]);
    builder.apply_update(ArsenalUpdate::LoadNade { which: 0 });
    assert_eq!(smoke_of(&builder.current()).0, [0x99, 0x22, 0x22, 0xFF]);
}

#[test]
fn the_first_register_is_not_saved_to() {
    let mut builder = Builder::new();
    builder.apply_update(ArsenalUpdate::SetLevel { which: 0, level: Level::High });
    builder.apply_update(ArsenalUpdate::SaveNade { which: 1 });
    builder.apply_update(ArsenalUpdate::SetLevel { which: 0, level: Level::Low });
    builder.apply_update(ArsenalUpdate::LoadNade { which: 1 });
    builder.apply_update(ArsenalUpdate::SaveNade { which: 0 });
    builder.apply_update(ArsenalUpdate::LoadNade { which: 0 });
    assert_eq!(smoke_of(&builder.current()).0, [0x22, 0x22, 0x22, 0xFF]);
}

#[test]
fn build_basic_rebuilds_the_first_register() {
    let mut builder = Builder::new();
    let before = builder.current();
    builder.apply_update(ArsenalUpdate::BuildBasic);
    let after = builder.current();
    assert!(!Rc::ptr_eq(&before, &after));
    assert_eq!(smoke_of(&after), smoke_of(&before));
}

#[test]
fn cluster_is_built_from_what_was_gathered() {
    let mut builder = Builder::new();
    let low = builder.current();
    builder.add_to_cluster(Vec2 { x: 10, y: 0 });
    builder.apply_update(ArsenalUpdate::SetLevel { which: 0, level: Level::High });
    let high = builder.current();
    builder.add_to_cluster(Vec2 { x: -10, y: 5 });
    builder.apply_update(ArsenalUpdate::BuildCluster);
    let cluster = builder.current();
    match &*cluster {
        Cast::Bolt(bolt) => match &*bolt.action {
            Cast::Cluster(cluster) => {
                assert_eq!(cluster.actions.len(), 2);
                assert_eq!(cluster.actions[0].0, Vec2 { x: 10, y: 0 });
                assert!(Rc::ptr_eq(&cluster.actions[0].1, &low));
                assert_eq!(cluster.actions[1].0, Vec2 { x: -10, y: 5 });
                assert!(Rc::ptr_eq(&cluster.actions[1].1, &high));
            }
            _ => panic!("cluster expected"),
        },
        _ => panic!("bolt expected"),
    }
    // what was gathered is used up: building again changes nothing
    builder.apply_update(ArsenalUpdate::BuildCluster);
    assert!(Rc::ptr_eq(&builder.current(), &cluster));
    // a cluster can be saved and gathered into another cluster
    builder.apply_update(ArsenalUpdate::SaveNade { which: 9 });
    builder.apply_update(ArsenalUpdate::LoadNade { which: 0 });
    assert!(Rc::ptr_eq(&builder.current(), &high));
    builder.apply_update(ArsenalUpdate::LoadNade { which: 9 });
    assert!(Rc::ptr_eq(&builder.current(), &cluster));
}

#[test]
fn building_a_cluster_of_nothing_changes_nothing() {
    let mut builder = Builder::new();
    let before = builder.current();
    builder.apply_update(ArsenalUpdate::BuildCluster);
    assert!(Rc::ptr_eq(&builder.current(), &before));
}

#[test]
fn dir_pad_finds_the_direction_of_a_value() {
    let pad = DirPad { up: 'w', down: 's', left: 'a', right: 'd' };
    assert_eq!(pad.dir(&'w'), Some(Dir::Up));
    assert_eq!(pad.dir(&'s'), Some(Dir::Down));
    assert_eq!(pad.dir(&'a'), Some(Dir::Left));
    assert_eq!(pad.dir(&'d'), Some(Dir::Right));
    assert_eq!(pad.dir(&'x'), None);
    // the first match counts
    let pad = DirPad { up: 1, down: 1, left: 2, right: 2 };
    assert_eq!(pad.dir(&1), Some(Dir::Up));
    assert_eq!(pad.dir(&2), Some(Dir::Left));
}

#[test]
fn dir_pad_is_indexed_by_direction() {
    let mut pad = DirPad { up: 1, down: 2, left: 3, right: 4 };
    assert_eq!(*pad.index(Dir::Up), 1);
    assert_eq!(*pad.index(Dir::Down), 2);
    assert_eq!(*pad.index(Dir::Left), 3);
    assert_eq!(*pad.index(Dir::Right), 4);
    *pad.index_mut(Dir::Left) = 30;
    assert_eq!(pad.left, 30);
    assert_eq!((pad.up, pad.down, pad.right), (1, 2, 4));
}

#[test]
fn position_is_the_first_place_of_a_button() {
    assert_eq!(position(&['a', 'b', 'c', 'b'], &'b'), Some(1));
    assert_eq!(position(&['a', 'b', 'c'], &'a'), Some(0));
    assert_eq!(position(&['a', 'b', 'c'], &'z'), None);
    assert_eq!(position(&[] as &[char], &'z'), None);
}

#[test]
fn save_mode_follows_its_button() {
    let mut input = input();
    assert!(!input.in_save_mode);
    assert!(matches!(input.interpret(&'^', true), DeviceUpdate::Nop));
    assert!(input.in_save_mode);
    assert!(matches!(input.interpret(&'^', false), DeviceUpdate::Nop));
    assert!(!input.in_save_mode);
}

#[test]
fn movement_is_passed_on_when_it_changes() {
    let mut input = input();
    match input.interpret(&'w', true) {
        DeviceUpdate::ChangeMovement { dirs } => {
            assert!(dirs.up && !dirs.down && !dirs.left && !dirs.right)
        }
        _ => panic!("movement expected"),
    }
    // held down again, nothing changes
    assert!(matches!(input.interpret(&'w', true), DeviceUpdate::Nop));
    match input.interpret(&'d', true) {
        DeviceUpdate::ChangeMovement { dirs } => {
            assert!(dirs.up && !dirs.down && !dirs.left && dirs.right)
        }
        _ => panic!("movement expected"),
    }
    match input.interpret(&'w', false) {
        DeviceUpdate::ChangeMovement { dirs } => {
            assert!(!dirs.up && !dirs.down && !dirs.left && dirs.right)
        }
        _ => panic!("movement expected"),
    }
    assert!(matches!(input.interpret(&'a', false), DeviceUpdate::Nop));
}

#[test]
fn fire_and_cluster_buttons_aim_at_the_cursor() {
    let mut input = input();
    input.on_mouse_move(Vec2 { x: 5 * DOT, y: -7 * DOT });
    match input.interpret(&'<', true) {
        DeviceUpdate::Cast { target } => assert_eq!(target, Vec2 { x: 5 * DOT, y: -7 * DOT }),
        _ => panic!("cast expected"),
    }
    match input.interpret(&'>', true) {
        DeviceUpdate::AddToCluster { target } => {
            assert_eq!(target, Vec2 { x: 5 * DOT, y: -7 * DOT })
        }
        _ => panic!("cluster expected"),
    }
    // letting go means nothing
    assert!(matches!(input.interpret(&'<', false), DeviceUpdate::Nop));
    assert!(matches!(input.interpret(&'>', false), DeviceUpdate::Nop));
}

#[test]
fn register_buttons_load_or_save() {
    let mut input = input();
    assert!(matches!(
        input.interpret(&'1', true),
        DeviceUpdate::ArsenalUpdate { upd: ArsenalUpdate::LoadNade { which: 0 } }
    ));
    assert!(matches!(
        input.interpret(&'9', true),
        DeviceUpdate::ArsenalUpdate { upd: ArsenalUpdate::LoadNade { which: 8 } }
    ));
    assert!(matches!(input.interpret(&'9', false), DeviceUpdate::Nop));
    input.interpret(&'^', true);
    assert!(matches!(
        input.interpret(&'4', true),
        DeviceUpdate::ArsenalUpdate { upd: ArsenalUpdate::SaveNade { which: 3 } }
    ));
}

#[test]
fn setting_buttons_set_a_level() {
    let mut input = input();
    assert!(matches!(
        input.interpret(&'n', true),
        DeviceUpdate::ArsenalUpdate {
            upd: ArsenalUpdate::SetLevel { which: 0, level: Level::Low }
        }
    ));
    assert!(matches!(
        input.interpret(&'j', true),
        DeviceUpdate::ArsenalUpdate {
            upd: ArsenalUpdate::SetLevel { which: 1, level: Level::Medium }
        }
    ));
    assert!(matches!(
        input.interpret(&'i', true),
        DeviceUpdate::ArsenalUpdate {
            upd: ArsenalUpdate::SetLevel { which: 2, level: Level::High }
        }
    ));
    assert!(matches!(
        input.interpret(&'o', true),
        DeviceUpdate::ArsenalUpdate {
            upd: ArsenalUpdate::SetLevel { which: 3, level: Level::High }
        }
    ));
    assert!(matches!(
        input.interpret_gb(&'.', true),
        Some(ArsenalUpdate::SetLevel { which: 3, level: Level::Low })
    ));
}

#[test]
fn build_buttons_build() {
    let mut input = input();
    assert!(matches!(
        input.interpret(&'0', true),
        DeviceUpdate::ArsenalUpdate { upd: ArsenalUpdate::BuildBasic }
    ));
    assert!(matches!(
        input.interpret(&'=', true),
        DeviceUpdate::ArsenalUpdate { upd: ArsenalUpdate::BuildCluster }
    ));
    assert!(matches!(input.interpret(&'=', false), DeviceUpdate::Nop));
    assert!(input.interpret_gb(&'=', false).is_none());
}

#[test]
fn unbound_buttons_mean_nothing() {
    let mut input = input();
    assert!(matches!(input.interpret(&'z', true), DeviceUpdate::Nop));
    assert!(matches!(input.interpret(&'z', false), DeviceUpdate::Nop));
}

#[test]
fn heading_follows_the_held_directions() {
    let none = DirPad { up: false, down: false, left: false, right: false };
    assert_eq!(heading(100, &none), Vec2::zero());
    assert_eq!(heading(100, &DirPad { right: true, ..none }), Vec2 { x: 100, y: 0 });
    assert_eq!(heading(100, &DirPad { left: true, ..none }), Vec2 { x: -100, y: 0 });
    assert_eq!(heading(100, &DirPad { up: true, ..none }), Vec2 { x: 0, y: -100 });
    assert_eq!(heading(100, &DirPad { down: true, ..none }), Vec2 { x: 0, y: 100 });
    // opposite directions cancel
    assert_eq!(heading(100, &DirPad { left: true, right: true, ..none }), Vec2::zero());
    assert_eq!(
        heading(100, &DirPad { left: true, right: true, up: true, ..none }),
        Vec2 { x: 0, y: -100 }
    );
}

#[test]
fn heading_along_a_diagonal_is_cut_to_five_sevenths() {
    let none = DirPad { up: false, down: false, left: false, right: false };
    assert_eq!(heading(100, &DirPad { right: true, down: true, ..none }), Vec2 { x: 71, y: 71 });
    assert_eq!(heading(100, &DirPad { left: true, up: true, ..none }), Vec2 { x: -71, y: -71 });
    assert_eq!(heading(100, &DirPad { left: true, down: true, ..none }), Vec2 { x: -71, y: 71 });
    assert_eq!(heading(3, &DirPad { right: true, up: true, ..none }), Vec2 { x: 2, y: -2 });
}

#[test]
fn player_starts_at_rest_at_the_origin() {
    let player = Player::new();
    assert_eq!(player.body.position(0), Vec2::zero());
    assert_eq!(player.body.velocity(), Vec2::zero());
    assert_eq!(player.speed, 100);
    assert_eq!(player.shape.radius, 10 * DOT);
    assert_eq!(player.shape.color, [0xFF, 0x00, 0x00, 0xFF]);
    assert_eq!(PlayerEffect.color(), [0xFF, 0x00, 0x00, 0xFF]);
}

#[test]
fn game_state_moves_the_player_from_where_it_is() {
    let none = DirPad { up: false, down: false, left: false, right: false };
    let mut state = GameState::new();
    assert!(state.can_move());
    state.update_movement(&DirPad { right: true, ..none });
    state.simulate(10);
    assert_eq!(state.player().body.position(10), Vec2 { x: 1000, y: 0 });
    state.update_movement(&DirPad { right: true, down: true, ..none });
    state.simulate(20);
    assert_eq!(state.player().body.position(20), Vec2 { x: 1710, y: 710 });
    state.update_movement(&none);
    state.simulate(500);
    assert_eq!(state.player().body.position(500), Vec2 { x: 1710, y: 710 });
    assert_eq!(state.now(), 500);
}

#[test]
fn game_state_fires_from_the_player_and_runs_the_chain() {
    let mut state = GameState::new();
    let target = Vec2 { x: 30 * DOT, y: -40 * DOT };
    assert!(state.can_fire(target));
    state.fire(target);
    assert_eq!(state.space().len(), 1);
    assert_eq!(state.time().next(), Some(SEC));
    state.simulate(SEC - 1);
    assert!(matches!(state.space().get(&0), Some(Entity::Bolt(_))));
    state.simulate(SEC);
    match state.space().get(&0) {
        Some(Entity::Smoke(smoke)) => {
            assert_eq!(smoke.body.position(SEC), target);
            assert_eq!(smoke.shape.radius, 150 * DOT);
        }
        _ => panic!("smoke expected"),
    }
    state.simulate(SEC + 3 * MOMENT);
    assert_eq!(state.space().len(), 0);
    assert_eq!(state.now(), SEC + 3 * MOMENT);
}

#[test]
fn game_state_casts_what_it_is_given() {
    let mut state = GameState::new();
    let cast = basic_grenade([Level::Low, Level::Low, Level::Low, Level::High]);
    assert!(state.can_cast(&cast, Vec2 { x: DOT, y: DOT }));
    state.cast_as_player(&cast, Vec2 { x: DOT, y: DOT });
    state.simulate(SEC);
    match state.space().get(&0) {
        Some(Entity::Smoke(smoke)) => assert_eq!(smoke.shape.radius, 120 * DOT),
        _ => panic!("smoke expected"),
    }
}

#[test]
fn game_state_refuses_what_would_leave_the_bounds() {
    let mut state = GameState::new();
    let cast = basic_grenade([Level::Low, Level::Low, Level::Low, Level::High]);
    // a bolt aimed beyond reach
    assert!(!state.can_fire(Vec2 { x: REACH + 1, y: 0 }));
    assert!(!state.can_fire(Vec2 { x: 0, y: i64::MIN }));
    assert!(state.can_fire(Vec2 { x: REACH, y: -REACH }));
    // a cast whose times would leave the range of the clock
    state.simulate(i64::MAX - SEC - 3 * MOMENT);
    assert!(state.can_cast(&cast, Vec2::zero()));
    state.simulate(i64::MAX - SEC - 3 * MOMENT + 1);
    assert!(!state.can_cast(&cast, Vec2::zero()));
    assert!(!state.can_fire(Vec2::zero()));
}

#[test]
fn game_state_refuses_a_player_out_of_reach() {
    let none = DirPad { up: false, down: false, left: false, right: false };
    let mut state = GameState::new();
    state.update_movement(&DirPad { right: true, ..none });
    // at a speed of 100 the player is within reach until 2^60 / 100
    state.simulate(REACH / 100);
    assert!(state.can_fire(Vec2::zero()));
    state.simulate(REACH / 100 + 1);
    assert!(!state.can_fire(Vec2::zero()));
    assert!(state.can_move());
    // and where the player is can be computed until 2^63 / 100
    state.simulate(i64::MAX / 100 + 1);
    assert!(!state.can_move());
}

#[test]
fn tame_casts_are_told_from_wild_ones() {
    let smoke = |duration: i64| {
        Rc::new(Cast::Smoke(SmokeCast { shape: Circle { color: [0; 4], radius: 1 }, duration }))
    };
    let bolt = |duration: i64, action: Rc<Cast>| {
        Rc::new(Cast::Bolt(BoltCast {
            shape: Circle { color: [0; 4], radius: 1 },
            duration,
            action,
        }))
    };
    let cluster =
        |actions: Vec<(Vec2, Rc<Cast>)>| Rc::new(Cast::Cluster(ClusterCast { actions }));

    assert!(smoke(0).is_tame(0, 0));
    assert!(!smoke(-1).is_tame(0, 0));
    assert!(smoke(10).is_tame(FAR, i64::MAX - 10));
    assert!(!smoke(10).is_tame(0, i64::MAX - 9));

    assert!(bolt(5, smoke(5)).is_tame(REACH, i64::MAX - 10));
    assert!(!bolt(5, smoke(6)).is_tame(REACH, i64::MAX - 10));
    assert!(!bolt(5, smoke(5)).is_tame(REACH + 1, 0));
    assert!(!bolt(5, smoke(5)).is_tame(-1, 0));
    assert!(!bolt(-5, smoke(5)).is_tame(0, 0));
    assert!(!bolt(5, smoke(-5)).is_tame(0, 0));

    assert!(cluster(vec![]).is_tame(FAR, 0));
    assert!(!cluster(vec![]).is_tame(-1, 0));
    let offset = Vec2 { x: -100, y: 30 };
    assert!(cluster(vec![(offset, bolt(5, smoke(5)))]).is_tame(REACH - 100, 0));
    assert!(!cluster(vec![(offset, bolt(5, smoke(5)))]).is_tame(REACH - 99, 0));
    assert!(cluster(vec![(offset, smoke(5))]).is_tame(FAR - 100, 0));
    assert!(!cluster(vec![(offset, smoke(5))]).is_tame(FAR - 99, 0));
    assert!(!cluster(vec![(Vec2 { x: i64::MIN, y: 0 }, smoke(5))]).is_tame(0, 0));
    assert!(!cluster(vec![(offset, smoke(5)), (offset, smoke(-5))]).is_tame(0, 0));
    // offsets add up through clusters in clusters
    let inner = cluster(vec![(offset, bolt(5, smoke(5)))]);
    assert!(cluster(vec![(offset, inner.clone())]).is_tame(REACH - 200, 0));
    assert!(!cluster(vec![(offset, inner)]).is_tame(REACH - 199, 0));
}

#[test]
fn casts_are_weighed_by_the_events_they_cause() {
    let smoke = || {
        Rc::new(Cast::Smoke(SmokeCast { shape: Circle { color: [0; 4], radius: 1 }, duration: 1 }))
    };
    let bolt = |action: Rc<Cast>| {
        Rc::new(Cast::Bolt(BoltCast {
            shape: Circle { color: [0; 4], radius: 1 },
            duration: 1,
            action,
        }))
    };
    let cluster =
        |actions: Vec<Rc<Cast>>| {
            Rc::new(Cast::Cluster(ClusterCast {
                actions: actions.into_iter().map(|cast| (Vec2::zero(), cast)).collect(),
            }))
        };
    assert_eq!(smoke().weigh(10), Some(1));
    assert_eq!(smoke().weigh(1), Some(1));
    assert_eq!(smoke().weigh(0), None);
    assert_eq!(bolt(smoke()).weigh(10), Some(2));
    assert_eq!(bolt(smoke()).weigh(1), None);
    assert_eq!(bolt(bolt(smoke())).weigh(3), Some(3));
    assert_eq!(cluster(vec![]).weigh(0), Some(0));
    let big = bolt(cluster(vec![bolt(smoke()), smoke(), bolt(cluster(vec![smoke(), smoke()]))]));
    assert_eq!(big.weigh(100), Some(7));
    assert_eq!(big.weigh(7), Some(7));
    assert_eq!(big.weigh(6), None);
}

#[test]
fn frames_are_steady_within_reach() {
    let body = Body::new(Vec2::zero(), Vec2 { x: 2, y: -1 }, 0);
    assert!(is_steady(&body, 0));
    assert!(is_steady(&body, REACH / 2));
    assert!(!is_steady(&body, REACH / 2 + 1));
    assert!(!is_steady(&body, i64::MAX));
    assert_eq!(reach_of(Vec2 { x: -7, y: 3 }), Some(7));
    assert_eq!(reach_of(Vec2 { x: 2, y: -9 }), Some(9));
    assert_eq!(reach_of(Vec2 { x: FAR, y: -FAR }), Some(FAR));
    assert_eq!(reach_of(Vec2 { x: FAR + 1, y: 0 }), None);
    assert_eq!(reach_of(Vec2 { x: 0, y: i64::MIN }), None);
}

#[test]
fn game_runs_on_its_clock_and_stutters_at_the_frame() {
    let mut game = Game::new(input(), at(100, 0));
    // before a frame was asked for the clock is held at the start
    game.on_update(at(101, 0));
    assert_eq!(game.state.now(), 0);
    assert_eq!(game.on_draw(), 0);
    assert_eq!(game.real_time.max_time, MOMENT);
    game.on_update(at(101, 1_000_000));
    assert_eq!(game.state.now(), 65);
    // a long wait is cut to a moment
    game.on_update(at(105, 0));
    assert_eq!(game.state.now(), MOMENT);
    assert_eq!(game.on_draw(), MOMENT);
    game.on_update(at(105, 1_000_000));
    assert_eq!(game.state.now(), MOMENT + 65);
}

#[test]
fn game_does_what_the_controls_ask_for() {
    let mut game = Game::new(input(), at(0, 0));
    game.on_mouse_move(Vec2 { x: 20 * DOT, y: 0 });
    // fire: a bolt leaves for the cursor
    assert!(game.on_input(&'<', true));
    assert_eq!(game.state.space().len(), 1);
    assert!(game.on_input(&'<', false));
    assert_eq!(game.state.space().len(), 1);
    // move: the player heads right
    assert!(game.on_input(&'d', true));
    assert_eq!(game.state.player().body.velocity(), Vec2 { x: 100, y: 0 });
    // arsenal: the smoke turns red
    assert!(game.on_input(&'y', true));
    assert_eq!(smoke_of(&game.arsenal.current()).0, [0xFF, 0x22, 0x22, 0xFF]);
    // cluster: two grenades around the player, built and fired
    assert!(game.on_input(&'>', true));
    game.on_mouse_move(Vec2 { x: -20 * DOT, y: 0 });
    assert!(game.on_input(&'>', true));
    assert!(game.on_input(&'=', true));
    match &*game.arsenal.current() {
        Cast::Bolt(bolt) => match &*bolt.action {
            Cast::Cluster(cluster) => {
                assert_eq!(cluster.actions.len(), 2);
                assert_eq!(cluster.actions[0].0, Vec2 { x: 20 * DOT, y: 0 });
                assert_eq!(cluster.actions[1].0, Vec2 { x: -20 * DOT, y: 0 });
            }
            _ => panic!("cluster expected"),
        },
        _ => panic!("bolt expected"),
    }
    assert!(game.on_input(&'<', true));
    assert_eq!(game.state.space().len(), 2);
    // an unbound button does nothing
    assert!(game.on_input(&'z', true));
    assert_eq!(game.state.space().len(), 2);
}

#[test]
fn game_says_when_it_cannot_do_what_is_asked() {
    let mut game = Game::new(input(), at(0, 0));
    game.on_mouse_move(Vec2 { x: REACH + 1, y: 0 });
    assert!(!game.on_input(&'<', true));
    assert_eq!(game.state.space().len(), 0);
    game.on_mouse_move(Vec2 { x: i64::MIN, y: 0 });
    game.on_input(&'d', true);
    game.on_draw();
    game.on_update(at(0, 10_000_000));
    // the way from the player to the cursor cannot be measured
    assert!(!game.on_input(&'>', true));
}
