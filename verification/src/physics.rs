//! Movement gating: the lock the attack lifecycle holds while a swing
//! recovers, and the velocity the input keys request while the lock is
//! open.  Velocity integration itself belongs to the physics engine.

use vstd::prelude::*;

verus! {

/// World units per second an unlocked entity moves at.
pub const MOVE_SPEED: i64 = 100;

/// A two-dimensional vector in integer world units.
#[derive(Clone, Copy, Debug, PartialEq, Eq, Structural)]
pub struct Vec2i {
    pub x: i64,
    pub y: i64,
}

impl Vec2i {
    /// The zero vector.
    pub fn zero() -> (r: Vec2i)
        ensures
            r == (Vec2i { x: 0, y: 0 }),
    {
        Vec2i { x: 0, y: 0 }
    }
}

/// While set, movement input is ignored and no new attack may start.
#[derive(Clone, Copy, Debug, PartialEq, Eq, Structural)]
pub struct MoveLock(pub bool);

impl Default for MoveLock {
    fn default() -> (r: MoveLock)
        ensures
            r == MoveLock(false),
    {
        MoveLock(false)
    }
}

/// Notice that an entity moved this tick.
#[derive(Clone, Copy, Debug, PartialEq, Eq, Structural)]
pub struct MovementEvent {
    pub moved_entity: u64,
}

/// The velocity the pressed direction keys request: zero while the
/// movement lock is held, otherwise `MOVE_SPEED` along each axis whose
/// keys disagree.
pub fn movement(move_lock: &MoveLock, right: bool, left: bool, up: bool, down: bool) -> (v: (
    i64,
    i64,
))
    ensures
        move_lock.0 ==> v == (0i64, 0i64),
        !move_lock.0 ==> v.0 == ((if right {
            1int
        } else {
            0int
        }) - (if left {
            1int
        } else {
            0int
        })) * MOVE_SPEED,
        !move_lock.0 ==> v.1 == ((if up {
            1int
        } else {
            0int
        }) - (if down {
            1int
        } else {
            0int
        })) * MOVE_SPEED,
{
    if move_lock.0 {
        (0, 0)
    } else {
        let vx: i64 = (if right { 1i64 } else { 0i64 }) - (if left { 1i64 } else { 0i64 });
        let vy: i64 = (if up { 1i64 } else { 0i64 }) - (if down { 1i64 } else { 0i64 });
        (vx * MOVE_SPEED, vy * MOVE_SPEED)
    }
}

} // verus!
