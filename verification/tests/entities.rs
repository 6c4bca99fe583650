use std::rc::Rc;

use charm_internal::charms::Cast;
use charm_internal::entities::grenade::{
    remove_entity, Event, EventQueue, Grenade, GrenadeDisappearEvent, GrenadeExplodeEvent,
    GrenadeState, Memory,
};
use charm_internal::entities::presets::{grenade, BoltEffect, SmokeEffect};
use charm_internal::entities::{Container, Space};
use charm_internal::forms::effects::{Bolt, Circle, Effect, Smoke};
use charm_internal::forms::spaces;
use charm_internal::links::{BorrowError, BorrowMutError, Heap, Link, Owned};
use charm_internal::physics::Body;
use charm_internal::units::{Vec2, DOT, MOMENT, SEC};

fn memory_with_space() -> (Memory, Owned<Space>) {
    let mut memory = Memory { nades: Heap::new(), spaces: Heap::new() };
    let space = Owned::new(&mut memory.spaces, Space::new());
    (memory, space)
}

fn resting(x: i64) -> Grenade {
    Grenade {
        space: Link::new(),
        body: Body::new_frozen(Vec2 { x, y: 0 }),
        state: GrenadeState::Smoke,
    }
}

fn count(memory: &mut Memory, space: &Link<Space>) -> usize {
    let guard = space.try_borrow(&mut memory.spaces).unwrap();
    let count = guard.deref(&memory.spaces).nades.len();
    guard.release(&mut memory.spaces);
    count
}

fn position(memory: &mut Memory, nade: &Link<Grenade>, now: i64) -> Vec2 {
    let guard = nade.try_borrow(&mut memory.nades).unwrap();
    let place = guard.deref(&memory.nades).body.position(now);
    guard.release(&mut memory.nades);
    place
}

fn is_smoke(memory: &mut Memory, nade: &Link<Grenade>) -> bool {
    let guard = nade.try_borrow(&mut memory.nades).unwrap();
    let smoke = matches!(guard.deref(&memory.nades).state, GrenadeState::Smoke);
    guard.release(&mut memory.nades);
    smoke
}

#[test]
fn removing_is_by_identity() {
    let mut heap: Heap<Grenade> = Heap::new();
    let mut space = Space::new();
    // two grenades that hold the same
    let a = space.add_value(&mut heap, resting(1));
    let b = space.add_value(&mut heap, resting(1));
    assert_eq!(space.nades.len(), 2);

    let removed = space.remove_entity(&a);
    match removed {
        Some(owned) => {
            assert!(owned.is(&a));
            assert!(!owned.is(&b));
        }
        None => panic!("the space owned the grenade"),
    }
    assert_eq!(space.nades.len(), 1);
    assert!(space.nades[0].is(&b));

    // asked again, the space has nothing to let go of
    assert!(space.remove_entity(&a).is_none());
    assert_eq!(space.nades.len(), 1);
    assert!(space.nades[0].is(&b));
}

#[test]
fn removing_what_a_space_never_held_finds_nothing() {
    let mut heap: Heap<Grenade> = Heap::new();
    let mut space = Space::new();
    let stranger = Owned::new(&mut heap, resting(0));
    space.add_value(&mut heap, resting(1));
    assert!(space.remove_entity(&stranger.share()).is_none());
    assert!(space.remove_entity(&Link::new()).is_none());
    assert_eq!(space.nades.len(), 1);
}

#[test]
fn add_value_hands_back_a_link_that_works_at_once() {
    let mut heap: Heap<Grenade> = Heap::new();
    let mut space = Space::new();
    let link = space.add_value(&mut heap, resting(42));
    let guard = link.try_borrow(&mut heap).unwrap();
    assert_eq!(guard.deref(&heap).body.position(0), Vec2 { x: 42, y: 0 });
    guard.release(&mut heap);
}

#[test]
fn add_entity_keeps_the_order_of_arrival() {
    let mut heap: Heap<Grenade> = Heap::new();
    let mut space = Space::new();
    let a = Owned::new(&mut heap, resting(1));
    let b = Owned::new(&mut heap, resting(2));
    let (link_a, link_b) = (a.share(), b.share());
    space.add_entity(b);
    space.add_entity(a);
    assert!(space.nades[0].is(&link_b));
    assert!(space.nades[1].is(&link_a));
}

#[test]
fn a_removed_entity_lives_until_its_owner_lets_go() {
    let mut heap: Heap<Grenade> = Heap::new();
    let mut space = Space::new();
    let link = space.add_value(&mut heap, resting(1));
    let owned = space.remove_entity(&link).unwrap();
    let guard = link.try_borrow(&mut heap).unwrap();
    guard.release(&mut heap);
    owned.release(&mut heap);
    assert!(matches!(link.try_borrow(&mut heap), Err(BorrowError::Missing)));
}

#[test]
fn tagged_space_removes_by_kind_and_identity() {
    let mut bolts: Heap<Bolt> = Heap::new();
    let mut smokes: Heap<Smoke> = Heap::new();
    let shape = Circle { color: [0, 0, 0, 0], radius: 1 };
    let body = Body::new_frozen(Vec2::zero());
    let action = Rc::new(Cast::Smoke(charm_internal::forms::effects::SmokeCast {
        shape,
        duration: 1,
    }));
    let mut space = spaces::Space::new();
    // the first bolt and the first smoke have the same place, each in its own heap
    let bolt = space.add_value(&mut bolts, Bolt { body, shape, action });
    let smoke_a = space.add_value(&mut smokes, Smoke { body, shape });
    let smoke_b = space.add_value(&mut smokes, Smoke { body, shape });
    assert_eq!(space.ents.len(), 3);

    let removed: Option<Owned<Smoke>> = space.remove_entity(&smoke_a);
    assert!(removed.unwrap().is(&smoke_a));
    assert_eq!(space.ents.len(), 2);
    assert!(matches!(&space.ents[0], spaces::Entity::Bolt(owned) if owned.is(&bolt)));
    assert!(matches!(&space.ents[1], spaces::Entity::Smoke(owned) if owned.is(&smoke_b)));

    let again: Option<Owned<Smoke>> = space.remove_entity(&smoke_a);
    assert!(again.is_none());
    assert_eq!(space.ents.len(), 2);

    let removed: Option<Owned<Bolt>> = space.remove_entity(&bolt);
    assert!(removed.unwrap().is(&bolt));
    assert_eq!(space.ents.len(), 1);
}

#[test]
fn tagged_handles_can_be_had_back_by_kind() {
    let mut smokes: Heap<Smoke> = Heap::new();
    let shape = Circle { color: [0, 0, 0, 0], radius: 1 };
    let owned = Owned::new(&mut smokes, Smoke { body: Body::new_frozen(Vec2::zero()), shape });
    let link = owned.share();
    let ent = <Smoke as spaces::AsEntity>::as_entity(owned);
    assert!(<Bolt as spaces::AsEntity>::downcast_ref(&ent).is_none());
    assert!(<Smoke as spaces::AsEntity>::downcast_ref(&ent).unwrap().is(&link));
    let ent = match <Bolt as spaces::AsEntity>::downcast(ent) {
        Err(ent) => ent,
        Ok(_) => panic!("smoke is no bolt"),
    };
    match <Smoke as spaces::AsEntity>::downcast(ent) {
        Ok(owned) => assert!(owned.is(&link)),
        Err(_) => panic!("smoke is smoke"),
    }
}

#[test]
fn grenade_flies_bursts_and_disappears() {
    let (mut memory, space) = memory_with_space();
    let space_link = space.share();
    let mut time = EventQueue::new();
    let start = Vec2 { x: 0, y: 0 };
    let end = Vec2 { x: 500 * DOT, y: 0 };
    let nade = match Grenade::new(&mut time, &mut memory, space_link, start, end, SEC) {
        Ok(link) => link,
        Err(_) => panic!("the space could be had"),
    };
    assert_eq!(count(&mut memory, &space_link), 1);
    assert_eq!(time.next(), Some(SEC));
    assert!(!is_smoke(&mut memory, &nade));
    assert_eq!(position(&mut memory, &nade, SEC / 2), Vec2 { x: 250 * DOT, y: 0 });

    time.simulate(&mut memory, SEC - 1);
    assert!(!is_smoke(&mut memory, &nade));

    // at the end of its flight the grenade bursts and rests at its target
    time.simulate(&mut memory, SEC);
    assert!(is_smoke(&mut memory, &nade));
    assert_eq!(position(&mut memory, &nade, SEC), end);
    assert_eq!(position(&mut memory, &nade, SEC + 1000), end);
    assert_eq!(time.next(), Some(SEC + MOMENT));
    assert_eq!(count(&mut memory, &space_link), 1);

    // a moment later it is out of its space, and gone
    time.simulate(&mut memory, SEC + MOMENT - 1);
    assert_eq!(count(&mut memory, &space_link), 1);
    time.simulate(&mut memory, SEC + MOMENT);
    assert_eq!(count(&mut memory, &space_link), 0);
    assert!(matches!(nade.try_borrow(&mut memory.nades), Err(BorrowError::Missing)));
    assert_eq!(time.now(), SEC + MOMENT);
    assert_eq!(time.len(), 0);
}

#[test]
fn grenade_aimed_off_the_grid_bursts_at_its_target_all_the_same() {
    let (mut memory, space) = memory_with_space();
    let mut time = EventQueue::new();
    let end = Vec2 { x: 500, y: 0 };
    let nade = Grenade::new(&mut time, &mut memory, space.share(), Vec2::zero(), end, SEC)
        .ok()
        .unwrap();
    // the velocity is rounded to nothing, so the grenade does not move in flight
    assert_eq!(position(&mut memory, &nade, SEC / 2), Vec2::zero());
    time.simulate(&mut memory, SEC);
    assert_eq!(position(&mut memory, &nade, SEC), end);
}

#[test]
fn grenade_thrown_later_bursts_after_its_travel_time() {
    let (mut memory, space) = memory_with_space();
    let mut time = EventQueue::new();
    time.simulate(&mut memory, 1000);
    let nade = Grenade::new(
        &mut time,
        &mut memory,
        space.share(),
        Vec2::zero(),
        Vec2 { x: 100, y: 0 },
        50,
    )
    .ok()
    .unwrap();
    assert_eq!(time.next(), Some(1050));
    time.simulate(&mut memory, 1050);
    assert!(is_smoke(&mut memory, &nade));
    assert_eq!(time.next(), Some(1050 + MOMENT));
}

#[test]
fn grenade_is_handed_back_when_its_space_is_gone() {
    let mut memory = Memory { nades: Heap::new(), spaces: Heap::new() };
    let mut time = EventQueue::new();
    let thrown = Grenade::new(
        &mut time,
        &mut memory,
        Link::new(),
        Vec2::zero(),
        Vec2 { x: 100, y: 0 },
        50,
    );
    let owned = match thrown {
        Err(owned) => owned,
        Ok(_) => panic!("there is no space to take the grenade"),
    };
    let link = owned.share();
    // the burst was scheduled all the same, and finds the grenade while it is owned
    time.simulate(&mut memory, 50);
    assert!(is_smoke(&mut memory, &link));
    owned.release(&mut memory.nades);
    time.simulate(&mut memory, 50 + MOMENT);
    assert_eq!(time.len(), 0);
}

#[test]
fn grenade_is_handed_back_when_its_space_is_busy() {
    let (mut memory, space) = memory_with_space();
    let mut time = EventQueue::new();
    let guard = space.share().try_borrow(&mut memory.spaces).unwrap();
    let thrown = Grenade::new(
        &mut time,
        &mut memory,
        space.share(),
        Vec2::zero(),
        Vec2 { x: 100, y: 0 },
        50,
    );
    assert!(thrown.is_err());
    guard.release(&mut memory.spaces);
    assert_eq!(count(&mut memory, &space.share()), 0);
}

#[test]
fn explode_does_nothing_when_the_grenade_is_gone() {
    let (mut memory, space) = memory_with_space();
    let mut time = EventQueue::new();
    let nade = Grenade::new(
        &mut time,
        &mut memory,
        space.share(),
        Vec2::zero(),
        Vec2 { x: 100, y: 0 },
        50,
    )
    .ok()
    .unwrap();
    // something else takes the grenade out first
    let guard = space.share().try_borrow_mut(&mut memory.spaces).unwrap();
    let mut guard = guard;
    let owned = guard.deref_mut().remove_entity(&nade).unwrap();
    guard.release(&mut memory.spaces);
    owned.release(&mut memory.nades);

    time.simulate(&mut memory, 50);
    // no disappearance was scheduled
    assert_eq!(time.len(), 0);
    assert_eq!(time.now(), 50);
}

#[test]
fn explode_does_nothing_when_the_grenade_is_busy() {
    let (mut memory, space) = memory_with_space();
    let mut time = EventQueue::new();
    let nade = Grenade::new(
        &mut time,
        &mut memory,
        space.share(),
        Vec2::zero(),
        Vec2 { x: 100, y: 0 },
        50,
    )
    .ok()
    .unwrap();
    let guard = nade.try_borrow(&mut memory.nades).unwrap();
    Event::Explode(GrenadeExplodeEvent { target: nade }).invoke(&mut memory, &mut time);
    guard.release(&mut memory.nades);
    assert!(!is_smoke(&mut memory, &nade));
    assert_eq!(time.len(), 1);
}

#[test]
fn disappear_leaves_the_grenade_when_its_space_is_busy() {
    let (mut memory, space) = memory_with_space();
    let mut time = EventQueue::new();
    let nade = Grenade::new(
        &mut time,
        &mut memory,
        space.share(),
        Vec2::zero(),
        Vec2 { x: 100, y: 0 },
        50,
    )
    .ok()
    .unwrap();
    let guard = space.share().try_borrow(&mut memory.spaces).unwrap();
    Event::Disappear(GrenadeDisappearEvent { target: nade }).invoke(&mut memory, &mut time);
    guard.release(&mut memory.spaces);
    assert_eq!(count(&mut memory, &space.share()), 1);
    assert!(nade.try_borrow_mut(&mut memory.nades).is_ok());
}

#[test]
fn disappear_does_nothing_twice() {
    let (mut memory, space) = memory_with_space();
    let mut time = EventQueue::new();
    let nade = Grenade::new(
        &mut time,
        &mut memory,
        space.share(),
        Vec2::zero(),
        Vec2 { x: 100, y: 0 },
        50,
    )
    .ok()
    .unwrap();
    GrenadeDisappearEvent { target: nade }.invoke(&mut memory, &mut time);
    assert_eq!(count(&mut memory, &space.share()), 0);
    GrenadeDisappearEvent { target: nade }.invoke(&mut memory, &mut time);
    assert_eq!(count(&mut memory, &space.share()), 0);
    assert!(matches!(nade.try_borrow_mut(&mut memory.nades), Err(BorrowMutError::Missing)));
}

#[test]
fn remove_entity_goes_through_the_back_link() {
    let (mut memory, space) = memory_with_space();
    let mut time = EventQueue::new();
    let nade = Grenade::new(
        &mut time,
        &mut memory,
        space.share(),
        Vec2::zero(),
        Vec2 { x: 100, y: 0 },
        50,
    )
    .ok()
    .unwrap();
    assert!(remove_entity(&mut memory, &Link::new(), &nade).is_none());
    let removed = remove_entity(&mut memory, &space.share(), &nade);
    assert!(removed.unwrap().is(&nade));
    assert!(remove_entity(&mut memory, &space.share(), &nade).is_none());
}

#[test]
fn two_grenades_burst_in_the_order_of_their_times() {
    let (mut memory, space) = memory_with_space();
    let mut time = EventQueue::new();
    let slow = Grenade::new(&mut time, &mut memory, space.share(), Vec2::zero(), Vec2::zero(), 90)
        .ok()
        .unwrap();
    let fast = Grenade::new(&mut time, &mut memory, space.share(), Vec2::zero(), Vec2::zero(), 30)
        .ok()
        .unwrap();
    time.invoke_next(&mut memory);
    assert_eq!(time.now(), 30);
    assert!(is_smoke(&mut memory, &fast));
    assert!(!is_smoke(&mut memory, &slow));
    time.invoke_next(&mut memory);
    assert_eq!(time.now(), 90);
    assert!(is_smoke(&mut memory, &slow));
    time.simulate(&mut memory, 90 + MOMENT);
    assert_eq!(count(&mut memory, &space.share()), 0);
}

#[test]
fn entity_presets_have_their_colours() {
    assert_eq!(BoltEffect.color(), [0x00, 0x33, 0x00, 0xFF]);
    assert_eq!(SmokeEffect.color(), [0xFF, 0xCC, 0x00, 0xFF]);
}

#[test]
fn entity_preset_grenade_is_a_bolt_that_leaves_smoke() {
    let cast = grenade();
    match &*cast {
        Cast::Bolt(bolt) => {
            assert_eq!(bolt.duration, SEC);
            assert_eq!(bolt.shape.radius, 7 * DOT);
            assert_eq!(bolt.shape.color, [0x00, 0x33, 0x00, 0xFF]);
            match &*bolt.action {
                Cast::Smoke(smoke) => {
                    assert_eq!(smoke.duration, 3 * MOMENT);
                    assert_eq!(smoke.shape.radius, 150 * DOT);
                    assert_eq!(smoke.shape.color, [0xFF, 0xCC, 0x00, 0xFF]);
                }
                _ => panic!("smoke expected"),
            }
        }
        _ => panic!("bolt expected"),
    }
}

#[test]
fn removing_from_the_middle_keeps_the_others_in_their_order() {
    let mut heap: Heap<Grenade> = Heap::new();
    let mut space = Space::new();
    let a = space.add_value(&mut heap, resting(1));
    // the second holds what the first holds
    let b = space.add_value(&mut heap, resting(1));
    let c = space.add_value(&mut heap, resting(3));
    let removed = space.remove_entity(&b).unwrap();
    assert!(removed.is(&b) && !removed.is(&a));
    assert_eq!(space.nades.len(), 2);
    assert!(space.nades[0].is(&a));
    assert!(space.nades[1].is(&c));
    assert!(a.try_borrow(&mut heap).is_ok());
    assert!(space.remove_entity(&b).is_none());
    assert_eq!(space.nades.len(), 2);
}

#[test]
fn tagged_space_keeps_entities_of_other_kinds_when_nothing_is_found() {
    let mut bolts: Heap<Bolt> = Heap::new();
    let mut smokes: Heap<Smoke> = Heap::new();
    let shape = Circle { color: [0, 0, 0, 0], radius: 1 };
    let body = Body::new_frozen(Vec2::zero());
    let action = Rc::new(Cast::Smoke(charm_internal::forms::effects::SmokeCast {
        shape,
        duration: 1,
    }));
    let mut space = spaces::Space::new();
    let smoke = space.add_value(&mut smokes, Smoke { body, shape });
    let bolt = space.add_value(&mut bolts, Bolt { body, shape, action });
    // a smoke that the space never held, at the place of none that it holds
    let stranger = Owned::new(&mut smokes, Smoke { body, shape });
    let found: Option<Owned<Smoke>> = space.remove_entity(&stranger.share());
    assert!(found.is_none());
    assert_eq!(space.ents.len(), 2);
    assert!(matches!(&space.ents[0], spaces::Entity::Smoke(owned) if owned.is(&smoke)));
    assert!(matches!(&space.ents[1], spaces::Entity::Bolt(owned) if owned.is(&bolt)));
}

#[test]
fn tagged_space_appends_what_is_added() {
    let mut bolts: Heap<Bolt> = Heap::new();
    let mut smokes: Heap<Smoke> = Heap::new();
    let shape = Circle { color: [0, 0, 0, 0], radius: 1 };
    let body = Body::new_frozen(Vec2 { x: 4, y: 2 });
    let action = Rc::new(Cast::Smoke(charm_internal::forms::effects::SmokeCast {
        shape,
        duration: 1,
    }));
    let mut space = spaces::Space::new();
    let bolt = space.add_value(&mut bolts, Bolt { body, shape, action });
    let smoke = space.add_value(&mut smokes, Smoke { body, shape });
    assert_eq!(space.ents.len(), 2);
    assert!(matches!(&space.ents[0], spaces::Entity::Bolt(owned) if owned.is(&bolt)));
    assert!(matches!(&space.ents[1], spaces::Entity::Smoke(owned) if owned.is(&smoke)));
    // the link can be used at once and leads to what was added
    let guard = smoke.try_borrow(&mut smokes).unwrap();
    assert_eq!(guard.deref(&smokes).body, body);
    guard.release(&mut smokes);
    let removed: Option<Owned<Smoke>> = space.remove_entity(&smoke);
    assert!(removed.unwrap().is(&smoke));
}
