//! The animation-facing state the rendering layer reads every frame:
//! which way an entity faces and which animation it is in.  Sprite frame
//! selection itself happens outside this crate.

use vstd::prelude::*;

use crate::physics::MoveLock;
use crate::physics::Vec2i;

verus! {

/// The animation an entity is currently in.
#[derive(Clone, Copy, Debug, PartialEq, Eq, Structural)]
pub enum AnimationState {
    Idle,
    Walk,
    Attack,
    BeHit,
}

impl Default for AnimationState {
    fn default() -> (r: AnimationState)
        ensures
            r == AnimationState::Idle,
    {
        AnimationState::Idle
    }
}

/// The frame window of the current animation and the animation itself.
#[derive(Clone, Copy, Debug, PartialEq, Eq, Structural)]
pub struct AnimationIndices {
    pub first: usize,
    pub last: usize,
    pub current: usize,
    pub animation_state: AnimationState,
}

impl Default for AnimationIndices {
    fn default() -> (r: AnimationIndices)
        ensures
            r == (AnimationIndices {
                first: 0,
                last: 0,
                current: 0,
                animation_state: AnimationState::Idle,
            }),
    {
        AnimationIndices { first: 0, last: 0, current: 0, animation_state: AnimationState::Idle }
    }
}

/// The side an entity faces; read by combat and interaction queries,
/// written by the movement systems.
#[derive(Clone, Copy, Debug, PartialEq, Eq, Structural)]
pub enum FaceDirection {
    Up,
    Down,
    Left,
    Right,
}

impl Default for FaceDirection {
    fn default() -> (r: FaceDirection)
        ensures
            r == FaceDirection::Down,
    {
        FaceDirection::Down
    }
}

/// Wrapper carrying an entity's facing direction.
#[derive(Clone, Copy, Debug, PartialEq, Eq, Structural)]
pub struct Facing {
    pub direction: FaceDirection,
}

impl Default for Facing {
    fn default() -> (r: Facing)
        ensures
            r == (Facing { direction: FaceDirection::Down }),
    {
        Facing { direction: FaceDirection::Down }
    }
}

/// The side a movement vector points to: the axis with the larger
/// magnitude decides, ties fall to the vertical axis, and a
/// non-positive vertical component faces down.
pub open spec fn direction_of_motion(v: Vec2i) -> FaceDirection {
    let ax = if v.x >= 0 {
        v.x as int
    } else {
        -(v.x as int)
    };
    let ay = if v.y >= 0 {
        v.y as int
    } else {
        -(v.y as int)
    };
    if ax > ay {
        if v.x > 0 {
            FaceDirection::Right
        } else {
            FaceDirection::Left
        }
    } else {
        if v.y > 0 {
            FaceDirection::Up
        } else {
            FaceDirection::Down
        }
    }
}

/// Turns a moving, unlocked entity toward its velocity and switches it
/// to the walk animation; a locked or resting entity is left as it is.
pub fn change_animation_state_when_move(
    velocity: Vec2i,
    move_lock: &MoveLock,
    facing: &mut Facing,
    indices: &mut AnimationIndices,
)
    requires
        -1_000_000_000 <= velocity.x <= 1_000_000_000,
        -1_000_000_000 <= velocity.y <= 1_000_000_000,
    ensures
        !move_lock.0 && !(velocity.x == 0 && velocity.y == 0) ==> {
            &&& final(indices).animation_state == AnimationState::Walk
            &&& final(facing).direction == direction_of_motion(velocity)
        },
        move_lock.0 || (velocity.x == 0 && velocity.y == 0) ==> *final(facing) == *old(facing)
            && *final(indices) == *old(indices),
        final(indices).first == old(indices).first,
        final(indices).last == old(indices).last,
        final(indices).current == old(indices).current,
{
    if !move_lock.0 {
        if !(velocity.x == 0 && velocity.y == 0) {
            indices.animation_state = AnimationState::Walk;
            let ax = if velocity.x >= 0 {
                velocity.x
            } else {
                -velocity.x
            };
            let ay = if velocity.y >= 0 {
                velocity.y
            } else {
                -velocity.y
            };
            if ax > ay {
                if velocity.x > 0 {
                    facing.direction = FaceDirection::Right;
                } else {
                    facing.direction = FaceDirection::Left;
                }
            } else {
                if velocity.y > 0 {
                    facing.direction = FaceDirection::Up;
                } else {
                    facing.direction = FaceDirection::Down;
                }
            }
        }
    }
}

/// Turns a navigating entity toward the next point of its path and
/// switches it to the walk animation; a finished navigation, an empty
/// path or an already reached point changes nothing.
pub fn change_animation_state_with_navigation(
    dest_diff: Vec2i,
    nav_done: bool,
    path_empty: bool,
    facing: &mut Facing,
    indices: &mut AnimationIndices,
)
    requires
        -1_000_000_000 <= dest_diff.x <= 1_000_000_000,
        -1_000_000_000 <= dest_diff.y <= 1_000_000_000,
    ensures
        !nav_done && !path_empty && !(dest_diff.x == 0 && dest_diff.y == 0) ==> {
            &&& final(indices).animation_state == AnimationState::Walk
            &&& final(facing).direction == direction_of_motion(dest_diff)
        },
        nav_done || path_empty || (dest_diff.x == 0 && dest_diff.y == 0) ==> *final(facing)
            == *old(facing) && *final(indices) == *old(indices),
{
    if nav_done || path_empty {
        return ;
    }
    let unlocked = MoveLock(false);
    change_animation_state_when_move(dest_diff, &unlocked, facing, indices);
}

/// Switches an unlocked entity back to the idle animation once it
/// rests: no velocity left and no navigation still running.
pub fn set_to_idle_when_stop(
    velocity: Vec2i,
    move_lock: &MoveLock,
    indices: &mut AnimationIndices,
    nav_done: Option<bool>,
)
    ensures
        !move_lock.0 && nav_done != Some(false) && velocity.x == 0 && velocity.y == 0
            ==> *final(indices) == (AnimationIndices {
            animation_state: AnimationState::Idle,
            ..*old(indices)
        }),
        move_lock.0 || nav_done == Some(false) || !(velocity.x == 0 && velocity.y == 0)
            ==> *final(indices) == *old(indices),
{
    if !move_lock.0 {
        if let Some(done) = nav_done {
            if !done {
                return ;
            }
        }
        if velocity.x == 0 && velocity.y == 0 {
            indices.animation_state = AnimationState::Idle;
        }
    }
}

/// Number of frames each animation spans.
pub open spec fn animation_frame_window(state: AnimationState) -> (int, int) {
    match state {
        AnimationState::Walk => (0, 3),
        AnimationState::Attack => (0, 4),
        AnimationState::Idle => (0, 0),
        AnimationState::BeHit => (0, 0),
    }
}

/// Points the frame window at the current animation's frames.
pub fn change_animation_indices_with_state(indices: &mut AnimationIndices)
    ensures
        final(indices).first == animation_frame_window(old(indices).animation_state).0,
        final(indices).last == animation_frame_window(old(indices).animation_state).1,
        final(indices).current == old(indices).current,
        final(indices).animation_state == old(indices).animation_state,
{
    match indices.animation_state {
        AnimationState::Walk => {
            indices.first = 0;
            indices.last = 3;
        },
        AnimationState::Attack => {
            indices.first = 0;
            indices.last = 4;
        },
        _ => {
            indices.first = 0;
            indices.last = 0;
        },
    }
}

} // verus!
