use grid_combat::physics::MoveLock;
use grid_combat::physics::Vec2i;
use grid_combat::sprites::change_animation_indices_with_state;
use grid_combat::sprites::change_animation_state_when_move;
use grid_combat::sprites::change_animation_state_with_navigation;
use grid_combat::sprites::set_to_idle_when_stop;
use grid_combat::sprites::AnimationIndices;
use grid_combat::sprites::AnimationState;
use grid_combat::sprites::FaceDirection;
use grid_combat::sprites::Facing;

fn fresh() -> (Facing, AnimationIndices) {
    (Facing::default(), AnimationIndices::default())
}

#[test]
fn moving_turns_and_walks() {
    let unlocked = MoveLock(false);
    let cases = [
        (Vec2i { x: 100, y: 0 }, FaceDirection::Right),
        (Vec2i { x: -100, y: 0 }, FaceDirection::Left),
        (Vec2i { x: 0, y: 100 }, FaceDirection::Up),
        (Vec2i { x: 0, y: -100 }, FaceDirection::Down),
        (Vec2i { x: 30, y: -40 }, FaceDirection::Down),
        (Vec2i { x: -40, y: 30 }, FaceDirection::Left),
        (Vec2i { x: 50, y: 50 }, FaceDirection::Up),
    ];
    for (velocity, expected) in cases {
        let (mut facing, mut indices) = fresh();
        change_animation_state_when_move(velocity, &unlocked, &mut facing, &mut indices);
        assert_eq!(facing.direction, expected, "velocity {:?}", velocity);
        assert_eq!(indices.animation_state, AnimationState::Walk);
    }
}

#[test]
fn locked_or_resting_stays_put() {
    let (mut facing, mut indices) = fresh();
    change_animation_state_when_move(
        Vec2i { x: 100, y: 0 },
        &MoveLock(true),
        &mut facing,
        &mut indices,
    );
    assert_eq!(facing.direction, FaceDirection::Down);
    assert_eq!(indices.animation_state, AnimationState::Idle);

    change_animation_state_when_move(
        Vec2i { x: 0, y: 0 },
        &MoveLock(false),
        &mut facing,
        &mut indices,
    );
    assert_eq!(indices.animation_state, AnimationState::Idle);
}

#[test]
fn navigation_turns_toward_next_point() {
    let (mut facing, mut indices) = fresh();
    change_animation_state_with_navigation(
        Vec2i { x: 5, y: 2 },
        false,
        false,
        &mut facing,
        &mut indices,
    );
    assert_eq!(facing.direction, FaceDirection::Right);
    assert_eq!(indices.animation_state, AnimationState::Walk);

    let (mut facing, mut indices) = fresh();
    change_animation_state_with_navigation(
        Vec2i { x: 5, y: 2 },
        true,
        false,
        &mut facing,
        &mut indices,
    );
    assert_eq!(indices.animation_state, AnimationState::Idle, "a finished navigation is ignored");
}

#[test]
fn stopping_returns_to_idle() {
    let (_, mut indices) = fresh();
    indices.animation_state = AnimationState::Walk;
    set_to_idle_when_stop(Vec2i { x: 0, y: 0 }, &MoveLock(false), &mut indices, Some(false));
    assert_eq!(indices.animation_state, AnimationState::Walk, "still navigating");
    set_to_idle_when_stop(Vec2i { x: 1, y: 0 }, &MoveLock(false), &mut indices, None);
    assert_eq!(indices.animation_state, AnimationState::Walk, "still moving");
    set_to_idle_when_stop(Vec2i { x: 0, y: 0 }, &MoveLock(false), &mut indices, Some(true));
    assert_eq!(indices.animation_state, AnimationState::Idle);
}

#[test]
fn frame_windows_follow_the_animation() {
    let (_, mut indices) = fresh();
    indices.animation_state = AnimationState::Walk;
    change_animation_indices_with_state(&mut indices);
    assert_eq!((indices.first, indices.last), (0, 3));
    indices.animation_state = AnimationState::Attack;
    change_animation_indices_with_state(&mut indices);
    assert_eq!((indices.first, indices.last), (0, 4));
    indices.animation_state = AnimationState::Idle;
    change_animation_indices_with_state(&mut indices);
    assert_eq!((indices.first, indices.last), (0, 0));
}
