use std::collections::HashMap;
use std::rc::Rc;

use charm_internal::charms::Cast;
use charm_internal::entity_heap::{new_entity, AsEntity, Entity, EntityHeap};
use charm_internal::event_queue::{Event, EventQueue};
use charm_internal::forms::effects::{
    Bolt, BoltCast, BoltLandEvent, Circle, ClusterCast, Effect, Smoke, SmokeCast, SmokeClearEvent,
};
use charm_internal::forms::presets::{cluster_grenade, grenade, BoltEffect, SmokeEffect};
use charm_internal::physics::Body;
use charm_internal::units::{Vec2, DOT, MOMENT, SEC};

fn circle(radius: i64) -> Circle {
    Circle { color: [1, 2, 3, 4], radius }
}

fn smoke_cast(duration: i64) -> Rc<Cast> {
    Rc::new(Cast::Smoke(SmokeCast { shape: circle(150 * DOT), duration }))
}

fn bolt_cast(duration: i64, action: Rc<Cast>) -> Rc<Cast> {
    Rc::new(Cast::Bolt(BoltCast { shape: circle(7 * DOT), duration, action }))
}

fn smokes(space: &EntityHeap) -> Vec<(u64, Vec2)> {
    let mut found = Vec::new();
    for (uid, ent) in space.iter() {
        if let Entity::Smoke(smoke) = ent {
            found.push((*uid, smoke.body.position(0)));
        }
    }
    found.sort_by_key(|entry| entry.0);
    found
}

fn bolts(space: &EntityHeap) -> usize {
    space.values().filter(|ent| matches!(ent, Entity::Bolt(_))).count()
}

#[test]
fn new_entity_takes_the_first_free_id_from_the_count_up() {
    let mut space: EntityHeap = HashMap::new();
    let smoke = |x: i64| Smoke { body: Body::new_frozen(Vec2 { x, y: 0 }), shape: circle(1) };
    assert_eq!(new_entity(&mut space, smoke(0)), 0);
    assert_eq!(new_entity(&mut space, smoke(1)), 1);
    assert_eq!(new_entity(&mut space, smoke(2)), 2);
    space.remove(&0);
    // two entities are left, and 2 is taken
    assert_eq!(new_entity(&mut space, smoke(3)), 3);
    space.remove(&1);
    space.remove(&2);
    // one entity is left, and 1 is free again
    assert_eq!(new_entity(&mut space, smoke(4)), 1);
    assert_eq!(space.len(), 2);
    assert!(space.contains_key(&1) && space.contains_key(&3));
}

#[test]
fn new_entity_keeps_what_it_is_given_under_its_kind() {
    let mut space: EntityHeap = HashMap::new();
    let body = Body::new_frozen(Vec2 { x: 5, y: 6 });
    let uid = new_entity(&mut space, Smoke { body, shape: circle(9) });
    match space.get(&uid) {
        Some(Entity::Smoke(smoke)) => {
            assert_eq!(smoke.body, body);
            assert_eq!(smoke.shape.radius, 9);
        }
        _ => panic!("smoke expected"),
    }
    let uid = new_entity(&mut space, Bolt { body, shape: circle(8), action: smoke_cast(1) });
    assert!(matches!(space.get(&uid), Some(Entity::Bolt(_))));
}

#[test]
fn downcast_gives_the_kind_asked_for_or_the_entity_back() {
    let body = Body::new_frozen(Vec2 { x: 5, y: 6 });
    let ent = <Smoke as AsEntity>::as_entity(Smoke { body, shape: circle(9) });
    assert!(<Smoke as AsEntity>::downcast_ref(&ent).is_some());
    assert!(<Bolt as AsEntity>::downcast_ref(&ent).is_none());
    let ent = match <Bolt as AsEntity>::downcast(ent) {
        Err(ent) => ent,
        Ok(_) => panic!("smoke is no bolt"),
    };
    match <Smoke as AsEntity>::downcast(ent) {
        Ok(smoke) => assert_eq!(smoke.body, body),
        Err(_) => panic!("smoke is smoke"),
    }
}

#[test]
fn expect_hands_out_what_the_entity_holds() {
    let body = Body::new_frozen(Vec2 { x: 5, y: 6 });
    let ent = Entity::Smoke(Smoke { body, shape: circle(9) });
    let smoke: Smoke = ent.expect("Smoke expected");
    assert_eq!(smoke.body, body);
    let ent = Entity::Bolt(Bolt { body, shape: circle(3), action: smoke_cast(1) });
    let bolt: Bolt = ent.expect("Bolt expected");
    assert_eq!(bolt.shape.radius, 3);
}

#[test]
fn smoke_cast_leaves_smoke_where_the_frame_is_now() {
    let mut space: EntityHeap = HashMap::new();
    let mut time = EventQueue::new();
    time.settle(10);
    let frame = Body::new(Vec2 { x: 100, y: 200 }, Vec2 { x: 3, y: -1 }, 0);
    let cast = SmokeCast { shape: circle(5), duration: 40 };
    cast.cast(&mut space, &mut time, frame, Vec2 { x: 9999, y: 9999 });
    assert_eq!(smokes(&space), vec![(0, Vec2 { x: 130, y: 190 })]);
    assert_eq!(time.next(), Some(50));
    assert_eq!(time.now(), 10);
    match space.get(&0) {
        Some(Entity::Smoke(smoke)) => {
            assert_eq!(smoke.body.velocity(), Vec2::zero());
            assert_eq!(smoke.shape.radius, 5);
        }
        _ => panic!("smoke expected"),
    }
}

#[test]
fn smoke_clears_when_its_duration_is_over() {
    let mut space: EntityHeap = HashMap::new();
    let mut time = EventQueue::new();
    let cast = SmokeCast { shape: circle(5), duration: 40 };
    cast.cast(&mut space, &mut time, Body::new_frozen(Vec2::zero()), Vec2::zero());
    time.simulate(&mut space, 39);
    assert_eq!(space.len(), 1);
    assert_eq!(time.now(), 39);
    time.simulate(&mut space, 40);
    assert_eq!(space.len(), 0);
    assert_eq!(time.now(), 40);
    assert_eq!(time.next(), None);
}

#[test]
fn smoke_clear_does_nothing_when_the_smoke_is_gone() {
    let mut space: EntityHeap = HashMap::new();
    let mut time = EventQueue::new();
    let other = new_entity(
        &mut space,
        Smoke { body: Body::new_frozen(Vec2::zero()), shape: circle(1) },
    );
    SmokeClearEvent { target: 17 }.invoke(&mut space, &mut time);
    assert_eq!(space.len(), 1);
    assert!(space.contains_key(&other));
    assert_eq!(time.len(), 0);
}

#[test]
fn bolt_land_does_nothing_when_the_bolt_is_gone() {
    let mut space: EntityHeap = HashMap::new();
    let mut time = EventQueue::new();
    BoltLandEvent { target: 3 }.invoke(&mut space, &mut time);
    assert_eq!(space.len(), 0);
    assert_eq!(time.len(), 0);
    // the same through the scheduler: the chained cast is not made
    let cast = bolt_cast(10, smoke_cast(5));
    cast.cast(&mut space, &mut time, Body::new_frozen(Vec2::zero()), Vec2 { x: 100, y: 0 });
    space.remove(&0);
    time.simulate(&mut space, 1000);
    assert_eq!(space.len(), 0);
    assert_eq!(time.len(), 0);
    assert_eq!(time.now(), 1000);
}

#[test]
fn bolt_cast_sends_a_bolt_that_arrives_after_its_duration() {
    let mut space: EntityHeap = HashMap::new();
    let mut time = EventQueue::new();
    time.settle(5);
    let frame = Body::new_frozen(Vec2 { x: 10, y: 10 });
    let action = smoke_cast(5);
    let cast = BoltCast { shape: circle(7), duration: 20, action: action.clone() };
    cast.cast(&mut space, &mut time, frame, Vec2 { x: 110, y: -30 });
    assert_eq!(time.next(), Some(25));
    match space.get(&0) {
        Some(Entity::Bolt(bolt)) => {
            assert_eq!(bolt.body.position(5), Vec2 { x: 10, y: 10 });
            assert_eq!(bolt.body.velocity(), Vec2 { x: 5, y: -2 });
            assert_eq!(bolt.body.position(25), Vec2 { x: 110, y: -30 });
            assert_eq!(bolt.shape.radius, 7);
            // the bolt carries the very cast it was given
            assert!(Rc::ptr_eq(&bolt.action, &action));
            assert_eq!(Rc::strong_count(&action), 3);
        }
        _ => panic!("bolt expected"),
    }
}

#[test]
fn bolt_then_smoke_chain_runs_its_course() {
    let mut space: EntityHeap = HashMap::new();
    let mut time = EventQueue::new();
    let target = Vec2 { x: 1000 * DOT, y: 0 };
    let cast = bolt_cast(SEC, smoke_cast(3 * MOMENT));
    cast.cast(&mut space, &mut time, Body::new_frozen(Vec2::zero()), target);

    // a bolt is in the space from the start until just before it lands
    assert_eq!(bolts(&space), 1);
    assert_eq!(space.len(), 1);
    time.simulate(&mut space, SEC / 2);
    assert_eq!(bolts(&space), 1);
    match space.get(&0) {
        Some(Entity::Bolt(bolt)) => {
            assert_eq!(bolt.body.position(SEC / 2), Vec2 { x: 500 * DOT, y: 0 })
        }
        _ => panic!("bolt expected"),
    }
    time.simulate(&mut space, SEC - 1);
    assert_eq!(bolts(&space), 1);
    assert_eq!(space.len(), 1);

    // when it lands the bolt is gone and smoke is at the target
    time.simulate(&mut space, SEC);
    assert_eq!(bolts(&space), 0);
    assert_eq!(smokes(&space).len(), 1);
    assert_eq!(smokes(&space)[0].1, target);
    assert_eq!(time.now(), SEC);

    // the smoke stays for three moments
    time.simulate(&mut space, SEC + 3 * MOMENT - 1);
    assert_eq!(smokes(&space).len(), 1);
    time.simulate(&mut space, SEC + 3 * MOMENT);
    assert_eq!(space.len(), 0);
    assert_eq!(time.len(), 0);
    assert_eq!(time.now(), SEC + 3 * MOMENT);
}

#[test]
fn bolt_aimed_nearer_than_its_duration_in_ticks_does_not_move() {
    let mut space: EntityHeap = HashMap::new();
    let mut time = EventQueue::new();
    let cast = bolt_cast(SEC, smoke_cast(3 * MOMENT));
    cast.cast(&mut space, &mut time, Body::new_frozen(Vec2::zero()), Vec2 { x: 1000, y: 0 });
    time.simulate(&mut space, SEC);
    // the velocity was rounded to nothing, so the smoke is where the bolt started
    assert_eq!(smokes(&space), vec![(0, Vec2::zero())]);
}

#[test]
fn one_simulate_runs_an_event_and_the_event_it_enqueued() {
    let mut space: EntityHeap = HashMap::new();
    let mut time = EventQueue::new();
    time.settle(100);
    let cast = bolt_cast(30, smoke_cast(12));
    cast.cast(&mut space, &mut time, Body::new_frozen(Vec2::zero()), Vec2 { x: 60, y: 0 });
    assert_eq!(time.next(), Some(130));
    // both hops fall within the time simulated: landing at 130, clearing at 142
    time.simulate(&mut space, 142);
    assert_eq!(space.len(), 0);
    assert_eq!(time.len(), 0);
    assert_eq!(time.now(), 142);
}

#[test]
fn an_event_enqueued_during_a_run_waits_for_its_time() {
    let mut space: EntityHeap = HashMap::new();
    let mut time = EventQueue::new();
    time.settle(100);
    let cast = bolt_cast(30, smoke_cast(12));
    cast.cast(&mut space, &mut time, Body::new_frozen(Vec2::zero()), Vec2 { x: 60, y: 0 });
    time.simulate(&mut space, 141);
    assert_eq!(smokes(&space), vec![(0, Vec2 { x: 60, y: 0 })]);
    assert_eq!(time.next(), Some(142));
    time.simulate(&mut space, 142);
    assert_eq!(space.len(), 0);
}

#[test]
fn invoke_next_runs_one_event_at_its_own_time() {
    let mut space: EntityHeap = HashMap::new();
    let mut time = EventQueue::new();
    let first = SmokeCast { shape: circle(1), duration: 10 };
    let second = SmokeCast { shape: circle(2), duration: 4 };
    first.cast(&mut space, &mut time, Body::new_frozen(Vec2::zero()), Vec2::zero());
    second.cast(&mut space, &mut time, Body::new_frozen(Vec2::zero()), Vec2::zero());
    time.invoke_next(&mut space);
    assert_eq!(time.now(), 4);
    assert!(space.contains_key(&0) && !space.contains_key(&1));
    time.invoke_next(&mut space);
    assert_eq!(time.now(), 10);
    assert_eq!(space.len(), 0);
    time.invoke_next(&mut space);
    assert_eq!(time.now(), 10);
    assert_eq!(space.len(), 0);
}

#[test]
fn simulate_leaves_nothing_due_and_sets_the_time() {
    let mut space: EntityHeap = HashMap::new();
    let mut time = EventQueue::new();
    for duration in [5i64, 50, 20, 35, 20, 70] {
        let cast = SmokeCast { shape: circle(1), duration };
        cast.cast(&mut space, &mut time, Body::new_frozen(Vec2::zero()), Vec2::zero());
    }
    time.simulate(&mut space, 35);
    assert_eq!(time.now(), 35);
    assert_eq!(time.next(), Some(50));
    assert_eq!(time.len(), 2);
    assert_eq!(space.len(), 2);
    // an idle stretch: nothing runs, the time still moves
    time.simulate(&mut space, 49);
    assert_eq!(time.now(), 49);
    assert_eq!(time.len(), 2);
    // a time that has passed changes nothing
    time.simulate(&mut space, 10);
    assert_eq!(time.now(), 49);
    assert_eq!(time.len(), 2);
    time.simulate(&mut space, 1000);
    assert_eq!(time.now(), 1000);
    assert_eq!(time.next(), None);
    assert_eq!(space.len(), 0);
}

#[test]
fn simulate_on_an_empty_queue_only_moves_the_time() {
    let mut space: EntityHeap = HashMap::new();
    let mut time = EventQueue::new();
    time.simulate(&mut space, 77);
    assert_eq!(time.now(), 77);
    assert_eq!(space.len(), 0);
}

#[test]
fn cluster_casts_each_of_its_casts_at_once() {
    let mut space: EntityHeap = HashMap::new();
    let mut time = EventQueue::new();
    time.settle(10);
    let frame = Body::new_frozen(Vec2 { x: 40, y: 40 });
    let cluster = ClusterCast {
        actions: vec![
            (Vec2 { x: 10, y: 0 }, smoke_cast(30)),
            (Vec2 { x: -10, y: 0 }, smoke_cast(50)),
        ],
    };
    cluster.cast(&mut space, &mut time, frame, Vec2 { x: 500, y: 500 });
    // two clouds at once, each where the frame is: smoke does not look at its target
    assert_eq!(
        smokes(&space),
        vec![(0, Vec2 { x: 40, y: 40 }), (1, Vec2 { x: 40, y: 40 })]
    );
    assert_eq!(time.now(), 10);
    // each clears when its own duration is over
    time.simulate(&mut space, 39);
    assert_eq!(space.len(), 2);
    time.simulate(&mut space, 40);
    assert_eq!(smokes(&space), vec![(1, Vec2 { x: 40, y: 40 })]);
    time.simulate(&mut space, 59);
    assert_eq!(space.len(), 1);
    time.simulate(&mut space, 60);
    assert_eq!(space.len(), 0);
}

#[test]
fn cluster_moves_the_target_of_each_cast_by_its_offset() {
    let mut space: EntityHeap = HashMap::new();
    let mut time = EventQueue::new();
    let frame = Body::new_frozen(Vec2::zero());
    let target = Vec2 { x: 500, y: 500 };
    let cluster = ClusterCast {
        actions: vec![
            (Vec2 { x: 10, y: 0 }, bolt_cast(10, smoke_cast(30))),
            (Vec2 { x: -10, y: 0 }, bolt_cast(10, smoke_cast(50))),
        ],
    };
    cluster.cast(&mut space, &mut time, frame, target);
    assert_eq!(bolts(&space), 2);
    time.simulate(&mut space, 10);
    // ids are handed out from the count of entities up, so the second cloud got the lower one
    assert_eq!(
        smokes(&space),
        vec![(1, Vec2 { x: 490, y: 500 }), (2, Vec2 { x: 510, y: 500 })]
    );
    time.simulate(&mut space, 40);
    assert_eq!(smokes(&space), vec![(1, Vec2 { x: 490, y: 500 })]);
    time.simulate(&mut space, 60);
    assert_eq!(space.len(), 0);
}

#[test]
fn empty_cluster_casts_nothing() {
    let mut space: EntityHeap = HashMap::new();
    let mut time = EventQueue::new();
    let cluster = Cast::Cluster(ClusterCast { actions: Vec::new() });
    cluster.cast(&mut space, &mut time, Body::new_frozen(Vec2::zero()), Vec2::zero());
    assert_eq!(space.len(), 0);
    assert_eq!(time.len(), 0);
}

#[test]
fn what_a_landed_bolt_casts_starts_where_the_bolt_is_and_aims_at_the_origin() {
    let mut space: EntityHeap = HashMap::new();
    let mut time = EventQueue::new();
    let cast = bolt_cast(10, bolt_cast(10, smoke_cast(5)));
    cast.cast(&mut space, &mut time, Body::new_frozen(Vec2::zero()), Vec2 { x: 100, y: 50 });
    time.simulate(&mut space, 10);
    match space.get(&0) {
        Some(Entity::Bolt(bolt)) => {
            assert_eq!(bolt.body.position(10), Vec2 { x: 100, y: 50 });
            assert_eq!(bolt.body.position(20), Vec2::zero());
        }
        _ => panic!("second bolt expected"),
    }
    time.simulate(&mut space, 20);
    assert_eq!(smokes(&space), vec![(0, Vec2::zero())]);
    time.simulate(&mut space, 25);
    assert_eq!(space.len(), 0);
}

#[test]
fn events_dispatch_to_what_they_stand_for() {
    let mut space: EntityHeap = HashMap::new();
    let mut time = EventQueue::new();
    let uid = new_entity(
        &mut space,
        Smoke { body: Body::new_frozen(Vec2::zero()), shape: circle(1) },
    );
    Event::SmokeClear(SmokeClearEvent { target: uid }).invoke(&mut space, &mut time);
    assert_eq!(space.len(), 0);
    let uid = new_entity(
        &mut space,
        Bolt { body: Body::new_frozen(Vec2 { x: 3, y: 3 }), shape: circle(1), action: smoke_cast(9) },
    );
    Event::BoltLand(BoltLandEvent { target: uid }).invoke(&mut space, &mut time);
    assert_eq!(smokes(&space), vec![(0, Vec2 { x: 3, y: 3 })]);
    assert_eq!(time.next(), Some(9));
}

#[test]
fn preset_effects_have_their_colours() {
    assert_eq!(BoltEffect.color(), [0xFF, 0xFF, 0xFF, 0xFF]);
    assert_eq!(SmokeEffect { col: [1, 2, 3] }.color(), [1, 2, 3, 0xFF]);
}

#[test]
fn preset_grenade_is_a_bolt_that_leaves_smoke() {
    let cast = grenade([0x22, 0x99, 0xFF], 20 * DOT);
    match &*cast {
        Cast::Bolt(bolt) => {
            assert_eq!(bolt.duration, SEC);
            assert_eq!(bolt.shape.radius, 7 * DOT);
            assert_eq!(bolt.shape.color, [0xFF, 0xFF, 0xFF, 0xFF]);
            match &*bolt.action {
                Cast::Smoke(smoke) => {
                    assert_eq!(smoke.duration, 3 * MOMENT);
                    assert_eq!(smoke.shape.radius, 20 * DOT);
                    assert_eq!(smoke.shape.color, [0x22, 0x99, 0xFF, 0xFF]);
                }
                _ => panic!("smoke expected"),
            }
        }
        _ => panic!("bolt expected"),
    }
}

#[test]
fn preset_cluster_grenade_is_a_bolt_that_carries_the_cluster() {
    let first = grenade([1, 1, 1], DOT);
    let cast = cluster_grenade(vec![(Vec2 { x: 1, y: 2 }, first.clone())]);
    match &*cast {
        Cast::Bolt(bolt) => {
            assert_eq!(bolt.duration, SEC);
            match &*bolt.action {
                Cast::Cluster(cluster) => {
                    assert_eq!(cluster.actions.len(), 1);
                    assert_eq!(cluster.actions[0].0, Vec2 { x: 1, y: 2 });
                    assert!(Rc::ptr_eq(&cluster.actions[0].1, &first));
                }
                _ => panic!("cluster expected"),
            }
        }
        _ => panic!("bolt expected"),
    }
}

#[test]
fn cluster_grenade_fans_out_where_it_lands() {
    let mut space: EntityHeap = HashMap::new();
    let mut time = EventQueue::new();
    let sub = grenade([1, 1, 1], DOT);
    let cast = cluster_grenade(vec![
        (Vec2 { x: 10 * DOT, y: 0 }, sub.clone()),
        (Vec2 { x: -10 * DOT, y: 0 }, sub.clone()),
        (Vec2 { x: 0, y: 10 * DOT }, sub),
    ]);
    cast.cast(&mut space, &mut time, Body::new_frozen(Vec2::zero()), Vec2 { x: 300 * DOT, y: 0 });
    assert_eq!(bolts(&space), 1);
    time.simulate(&mut space, SEC);
    assert_eq!(bolts(&space), 3);
    time.simulate(&mut space, 2 * SEC);
    assert_eq!(bolts(&space), 0);
    assert_eq!(
        smokes(&space),
        vec![
            (2, Vec2 { x: 0, y: 10 * DOT }),
            (3, Vec2 { x: 10 * DOT, y: 0 }),
            (4, Vec2 { x: -10 * DOT, y: 0 })
        ]
    );
    time.simulate(&mut space, 2 * SEC + 3 * MOMENT);
    assert_eq!(space.len(), 0);
    assert_eq!(time.len(), 0);
}

#[test]
fn downcast_mut_lets_the_entity_be_changed_in_place() {
    let body = Body::new_frozen(Vec2 { x: 5, y: 6 });
    let mut ent = Entity::Smoke(Smoke { body, shape: circle(9) });
    assert!(<Bolt as AsEntity>::downcast_mut(&mut ent).is_none());
    match <Smoke as AsEntity>::downcast_mut(&mut ent) {
        Some(smoke) => smoke.shape.radius = 10,
        None => panic!("smoke is smoke"),
    }
    match ent {
        Entity::Smoke(smoke) => {
            assert_eq!(smoke.shape.radius, 10);
            assert_eq!(smoke.body, body);
        }
        _ => panic!("smoke stays smoke"),
    }
}
