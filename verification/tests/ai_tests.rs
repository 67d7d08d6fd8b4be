use grid_combat::ai::distance_scorer;
use grid_combat::ai::move_toward_target;
use grid_combat::ai::push_target_in_range;
use grid_combat::ai::remove_target_if_out_of_range;
use grid_combat::ai::update_distance_from_target;
use grid_combat::ai::ActionState;
use grid_combat::ai::Approach;
use grid_combat::ai::Distance;
use grid_combat::ai::EntityPos;
use grid_combat::ai::OrderMovementEvent;
use grid_combat::ai::TargetLock;
use grid_combat::grid::Coordinate;
use grid_combat::maps::EntityGridMap;

#[test]
fn target_lock_is_kept_once_set() {
    let mut distance = Distance::new(3);
    assert!(!distance.has_target());
    distance.set_target(5, 100);
    assert_eq!(distance.state, TargetLock::Locked { target: 5, distance_sq: 100 });
    // A second set does not steal the lock.
    distance.set_target(6, 1);
    assert_eq!(distance.state, TargetLock::Locked { target: 5, distance_sq: 100 });
    // Updating the distance works only for the locked target.
    distance.update_distance(6, 7);
    assert_eq!(distance.state, TargetLock::Locked { target: 5, distance_sq: 100 });
    distance.update_distance(5, 64);
    assert_eq!(distance.state, TargetLock::Locked { target: 5, distance_sq: 64 });
    distance.reset();
    assert!(!distance.has_target());
}

#[test]
fn scan_locks_onto_entity_in_range() {
    let mut map = EntityGridMap::new();
    let actor = 1;
    let prey = 2;
    map.insert((0, 0), actor);
    map.insert((2, 1), prey);
    let positions = vec![
        EntityPos { entity: actor, x: 8, y: 8 },
        EntityPos { entity: prey, x: 40, y: 24 },
    ];
    let mut distance = Distance::new(3);
    let bbox = Coordinate::new(0, 0, 0, 0);
    push_target_in_range(&map, actor, &bbox, 8, 8, &positions, &mut distance);
    // Squared distance from (8, 8) to (40, 24): 32^2 + 16^2.
    assert_eq!(distance.state, TargetLock::Locked { target: prey, distance_sq: 1280 });
}

#[test]
fn scan_ignores_actor_and_unknown_positions() {
    let mut map = EntityGridMap::new();
    let actor = 1;
    let ghost = 2;
    map.insert((0, 0), actor);
    map.insert((1, 1), ghost);
    // No position recorded for the other occupant.
    let positions = vec![EntityPos { entity: actor, x: 8, y: 8 }];
    let mut distance = Distance::new(3);
    let bbox = Coordinate::new(0, 0, 0, 0);
    push_target_in_range(&map, actor, &bbox, 8, 8, &positions, &mut distance);
    assert!(!distance.has_target());
}

#[test]
fn scan_leaves_existing_lock_alone() {
    let mut map = EntityGridMap::new();
    let actor = 1;
    let prey = 2;
    map.insert((1, 0), prey);
    let positions = vec![EntityPos { entity: prey, x: 24, y: 8 }];
    let mut distance = Distance::new(3);
    distance.set_target(99, 5);
    let bbox = Coordinate::new(0, 0, 0, 0);
    push_target_in_range(&map, actor, &bbox, 8, 8, &positions, &mut distance);
    assert_eq!(distance.state, TargetLock::Locked { target: 99, distance_sq: 5 });
}

#[test]
fn distance_refresh_and_loss_of_target() {
    let positions = vec![EntityPos { entity: 4, x: 11, y: 8 }];
    let mut distance = Distance::new(3);
    distance.set_target(4, 1000);
    update_distance_from_target(&mut distance, 8, 8, &positions);
    assert_eq!(distance.state, TargetLock::Locked { target: 4, distance_sq: 9 });
    // The target's position disappears: the lock is dropped.
    let empty: Vec<EntityPos> = Vec::new();
    update_distance_from_target(&mut distance, 8, 8, &empty);
    assert!(!distance.has_target());
}

#[test]
fn target_out_of_range_is_dropped() {
    // range 3 cells of 16 units: reach 48, squared 2304.
    let near = vec![EntityPos { entity: 4, x: 48, y: 0 }];
    let mut distance = Distance::new(3);
    distance.set_target(4, 0);
    remove_target_if_out_of_range(&mut distance, 0, 0, &near);
    assert!(distance.has_target(), "distance 48 is exactly the reach and stays");

    let far = vec![EntityPos { entity: 4, x: 49, y: 0 }];
    remove_target_if_out_of_range(&mut distance, 0, 0, &far);
    assert!(!distance.has_target(), "distance 49 is beyond the reach");
}

#[test]
fn scorer_rates_closeness() {
    let mut distance = Distance::new(3);
    assert_eq!(distance_scorer(&distance), None);
    distance.set_target(4, 0);
    assert_eq!(distance_scorer(&distance), Some(1000));
    // Reach is 48, squared 2304; half the reach squared is 576.
    distance.update_distance(4, 576);
    assert_eq!(distance_scorer(&distance), Some(750));
    distance.update_distance(4, 2304);
    assert_eq!(distance_scorer(&distance), Some(0));
    distance.update_distance(4, 1_000_000);
    assert_eq!(distance_scorer(&distance), Some(0));
}

#[test]
fn pursuit_state_machine_transitions() {
    let approach = Approach { speed: 100 };
    let mut distance = Distance::new(3);
    let mut state = ActionState::Requested;

    // Requested without a target cancels, then settles as failed.
    let order = move_toward_target(&mut state, 7, &distance, &approach);
    assert!(order.is_none());
    assert_eq!(state, ActionState::Cancelled);
    let order = move_toward_target(&mut state, 7, &distance, &approach);
    assert!(order.is_none());
    assert_eq!(state, ActionState::Failure);

    // Requested with a locked target orders movement and executes.
    distance.set_target(4, 10_000);
    state = ActionState::Requested;
    let order = move_toward_target(&mut state, 7, &distance, &approach);
    assert_eq!(order, Some(OrderMovementEvent { mover: 7, target: 4, speed: 100 }));
    assert_eq!(state, ActionState::Executing);

    // Still far: executing re-requests.
    let order = move_toward_target(&mut state, 7, &distance, &approach);
    assert!(order.is_none());
    assert_eq!(state, ActionState::Requested);

    // Close enough: executing succeeds.
    distance.update_distance(4, 63);
    state = ActionState::Executing;
    move_toward_target(&mut state, 7, &distance, &approach);
    assert_eq!(state, ActionState::Success);
}
