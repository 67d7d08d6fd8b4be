//! NPC target acquisition and pursuit: an explicit lock on one target
//! with its distance, filled from the spatial index, dropped when the
//! target vanishes or leaves range, and driving a small pursuit action
//! state machine.  Distances are squared, in integer world units.

use vstd::prelude::*;

use crate::grid::Coordinate;
use crate::grid::WORLD_LIMIT;
use crate::grid::GRID_SIZE;
use crate::maps::EntityGridMap;

verus! {

/// An entity's known world position.
#[derive(Clone, Copy, Debug, PartialEq, Eq, Structural)]
pub struct EntityPos {
    pub entity: u64,
    pub x: i64,
    pub y: i64,
}

/// Whether every entry's coordinates are normalized and no entity
/// appears twice.
pub open spec fn positions_wf(positions: Seq<EntityPos>) -> bool {
    &&& forall|i: int|
        0 <= i < positions.len() ==> -WORLD_LIMIT <= (#[trigger] positions[i]).x <= WORLD_LIMIT
            && -WORLD_LIMIT <= positions[i].y <= WORLD_LIMIT
    &&& forall|i: int, j: int|
        0 <= i < positions.len() && 0 <= j < positions.len() && i != j
            ==> (#[trigger] positions[i]).entity != (#[trigger] positions[j]).entity
}

/// Whether some entry records a position for `entity`.
pub open spec fn has_position(positions: Seq<EntityPos>, entity: u64) -> bool {
    exists|i: int| 0 <= i < positions.len() && (#[trigger] positions[i]).entity == entity
}

/// The squared distance between two points.
pub open spec fn dist_sq(ax: int, ay: int, bx: int, by: int) -> int {
    (ax - bx) * (ax - bx) + (ay - by) * (ay - by)
}

/// Computes the squared distance between two normalized positions.
pub fn distance_squared(ax: i64, ay: i64, bx: i64, by: i64) -> (r: u64)
    requires
        -WORLD_LIMIT <= ax <= WORLD_LIMIT,
        -WORLD_LIMIT <= ay <= WORLD_LIMIT,
        -WORLD_LIMIT <= bx <= WORLD_LIMIT,
        -WORLD_LIMIT <= by <= WORLD_LIMIT,
    ensures
        r == dist_sq(ax as int, ay as int, bx as int, by as int),
{
    let dx = ax - bx;
    let dy = ay - by;
    proof {
        assert(0 <= dx * dx <= 400_000_000_000_000 && 0 <= dy * dy <= 400_000_000_000_000)
            by (nonlinear_arith)
            requires
                -20_000_000 <= dx <= 20_000_000,
                -20_000_000 <= dy <= 20_000_000,
        ;
    }
    (dx * dx + dy * dy) as u64
}

/// Finds the recorded position of `entity`, if any.
pub fn find_position(positions: &Vec<EntityPos>, entity: u64) -> (r: Option<(i64, i64)>)
    ensures
        r is Some <==> has_position(positions@, entity),
        r matches Some(p) ==> exists|i: int|
            0 <= i < positions@.len() && #[trigger] positions@[i] == (EntityPos {
                entity,
                x: p.0,
                y: p.1,
            }),
{
    let mut i: usize = 0;
    while i < positions.len()
        invariant
            i <= positions@.len(),
            forall|j: int| 0 <= j < i ==> (#[trigger] positions@[j]).entity != entity,
        decreases positions@.len() - i,
    {
        if positions[i].entity == entity {
            proof {
                assert(positions@[i as int] == (EntityPos {
                    entity,
                    x: positions@[i as int].x,
                    y: positions@[i as int].y,
                }));
            }
            return Some((positions[i].x, positions[i].y));
        }
        i += 1;
    }
    None
}

/// Whether an NPC's pursuit has a target: either none yet, or a locked
/// target together with the squared distance to it.
#[derive(Clone, Copy, Debug, PartialEq, Eq, Structural)]
pub enum TargetLock {
    Unset,
    Locked { target: u64, distance_sq: u64 },
}

/// Target acquisition state of one pursuing entity: how many cells
/// beyond its bounding box it scans, and the lock it currently holds.
#[derive(Clone, Copy, Debug, PartialEq, Eq, Structural)]
pub struct Distance {
    pub range: i32,
    pub state: TargetLock,
}

impl Distance {
    /// A fresh state scanning `range` cells, with no target.
    pub fn new(range: i32) -> (r: Distance)
        ensures
            r == (Distance { range, state: TargetLock::Unset }),
    {
        Distance { range, state: TargetLock::Unset }
    }

    /// Locks onto `target` at `distance_sq` — but only while no target
    /// is held; a held lock is kept until it is reset.
    pub fn set_target(&mut self, target: u64, distance_sq: u64)
        ensures
            (old(self).state is Unset) ==> *final(self) == (Distance {
                range: old(self).range,
                state: TargetLock::Locked { target, distance_sq },
            }),
            !(old(self).state is Unset) ==> *final(self) == *old(self),
    {
        if matches!(self.state, TargetLock::Unset) {
            self.state = TargetLock::Locked { target, distance_sq };
        }
    }

    /// Refreshes the held distance — but only for the entity currently
    /// locked onto.
    pub fn update_distance(&mut self, target: u64, distance_sq: u64)
        ensures
            (old(self).state matches TargetLock::Locked { target: t, .. } && t == target)
                ==> *final(self) == (Distance {
                range: old(self).range,
                state: TargetLock::Locked { target, distance_sq },
            }),
            !(old(self).state matches TargetLock::Locked { target: t, .. } && t == target)
                ==> *final(self) == *old(self),
    {
        match self.state {
            TargetLock::Locked { target: current, .. } => {
                if current == target {
                    self.state = TargetLock::Locked { target, distance_sq };
                }
            },
            TargetLock::Unset => {},
        }
    }

    /// Drops the lock.
    pub fn reset(&mut self)
        ensures
            *final(self) == (Distance { range: old(self).range, state: TargetLock::Unset }),
    {
        self.state = TargetLock::Unset;
    }

    /// Whether a target is held.
    pub fn has_target(&self) -> (r: bool)
        ensures
            r == (self.state is Locked),
    {
        matches!(self.state, TargetLock::Locked { .. })
    }
}

/// An entity the scan around box `c` may lock onto: any occupant of the
/// box grown by `range` cells, other than the actor, whose position is
/// known.
pub open spec fn chase_candidate(
    entity_map: EntityGridMap,
    c: Coordinate,
    range: int,
    actor: u64,
    positions: Seq<EntityPos>,
    f: u64,
) -> bool {
    f != actor && has_position(positions, f) && exists|x: int, y: int| #[trigger]
        entity_map.occupies_cell(x, y, f) && c.min_x - range <= x <= c.max_x + range && c.min_y
        - range <= y <= c.max_y + range
}

/// What a held lock must satisfy after a scan from `(ax, ay)`: the
/// target is a chase candidate and the held distance is the squared
/// distance to its recorded position.
pub open spec fn locked_on_candidate(
    entity_map: EntityGridMap,
    c: Coordinate,
    range: int,
    actor: u64,
    positions: Seq<EntityPos>,
    ax: int,
    ay: int,
    state: TargetLock,
) -> bool {
    state matches TargetLock::Locked { target, distance_sq } ==> chase_candidate(
        entity_map,
        c,
        range,
        actor,
        positions,
        target,
    ) && exists|i: int|
        0 <= i < positions.len() && (#[trigger] positions[i]).entity == target && distance_sq
            == dist_sq(ax, ay, positions[i].x as int, positions[i].y as int)
}

/// Scans the cells within `range` of the actor's bounding box and, if no
/// target is held yet, locks onto the first occupant found there that is
/// not the actor and has a known position, recording the squared
/// distance to it.  A lock already held is left untouched, so a target
/// is kept until it becomes invalid rather than re-chosen every frame.
pub fn push_target_in_range(
    entity_map: &EntityGridMap,
    actor_entity: u64,
    actor_coordinate: &Coordinate,
    actor_x: i64,
    actor_y: i64,
    positions: &Vec<EntityPos>,
    distance: &mut Distance,
)
    requires
        entity_map.wf(),
        actor_coordinate.bounded(),
        0 <= old(distance).range <= 1_000_000,
        positions_wf(positions@),
        -WORLD_LIMIT <= actor_x <= WORLD_LIMIT,
        -WORLD_LIMIT <= actor_y <= WORLD_LIMIT,
    ensures
        final(distance).range == old(distance).range,
        old(distance).state is Locked ==> *final(distance) == *old(distance),
        old(distance).state is Unset ==> locked_on_candidate(
            *entity_map,
            *actor_coordinate,
            old(distance).range as int,
            actor_entity,
            positions@,
            actor_x as int,
            actor_y as int,
            final(distance).state,
        ),
        old(distance).state is Unset && final(distance).state is Unset ==> forall|f: u64|
            !(#[trigger] chase_candidate(
                *entity_map,
                *actor_coordinate,
                old(distance).range as int,
                actor_entity,
                positions@,
                f,
            )),
{
    if distance.has_target() {
        return ;
    }
    let range = distance.range;
    let x_lo = actor_coordinate.min_x - range;
    let x_hi = actor_coordinate.max_x + range;
    let y_lo = actor_coordinate.min_y - range;
    let y_hi = actor_coordinate.max_y + range;
    let ghost c = *actor_coordinate;
    let ghost rg = range as int;
    let mut x = x_lo;
    while x <= x_hi
        invariant
            entity_map.wf(),
            positions_wf(positions@),
            -WORLD_LIMIT <= actor_x <= WORLD_LIMIT,
            -WORLD_LIMIT <= actor_y <= WORLD_LIMIT,
            distance.range == old(distance).range,
            rg == range as int,
            0 <= range <= 1_000_000,
            x_lo == c.min_x - rg,
            x_hi == c.max_x + rg,
            y_lo == c.min_y - rg,
            y_hi == c.max_y + rg,
            -3_000_000 <= x_lo <= 3_000_000,
            -3_000_000 <= x_hi <= 3_000_000,
            -3_000_000 <= y_lo <= 3_000_000,
            -3_000_000 <= y_hi <= 3_000_000,
            x_lo <= x,
            x <= x_hi + 1 || x == x_lo,
            locked_on_candidate(
                *entity_map,
                c,
                rg,
                actor_entity,
                positions@,
                actor_x as int,
                actor_y as int,
                distance.state,
            ),
            distance.state is Unset ==> forall|f: u64, x2: int, y2: int|
                #[trigger] entity_map.occupies_cell(x2, y2, f) && x_lo <= x2 < x && y_lo <= y2
                    <= y_hi && f != actor_entity ==> !has_position(positions@, f),
        decreases x_hi + 1 - x,
    {
        let mut y = y_lo;
        while y <= y_hi
            invariant
                entity_map.wf(),
                positions_wf(positions@),
                -WORLD_LIMIT <= actor_x <= WORLD_LIMIT,
                -WORLD_LIMIT <= actor_y <= WORLD_LIMIT,
                distance.range == old(distance).range,
                rg == range as int,
                0 <= range <= 1_000_000,
                x_lo == c.min_x - rg,
                x_hi == c.max_x + rg,
                y_lo == c.min_y - rg,
                y_hi == c.max_y + rg,
                -3_000_000 <= x_lo <= 3_000_000,
                -3_000_000 <= x_hi <= 3_000_000,
                -3_000_000 <= y_lo <= 3_000_000,
                -3_000_000 <= y_hi <= 3_000_000,
                x_lo <= x <= x_hi,
                y_lo <= y,
                y <= y_hi + 1 || y == y_lo,
                locked_on_candidate(
                    *entity_map,
                    c,
                    rg,
                    actor_entity,
                    positions@,
                    actor_x as int,
                    actor_y as int,
                    distance.state,
                ),
                distance.state is Unset ==> forall|f: u64, x2: int, y2: int|
                    #[trigger] entity_map.occupies_cell(x2, y2, f) && x_lo <= x2 <= x_hi && y_lo
                        <= y2 <= y_hi && f != actor_entity && (x2 < x || (x2 == x && y2 < y))
                        ==> !has_position(positions@, f),
            decreases y_hi + 1 - y,
        {
            if let Some(hit_range) = entity_map.get((x, y)) {
                let ghost cellk = crate::grid::cell_key(x as int, y as int);
                let mut j: usize = 0;
                while j < hit_range.len()
                    invariant
                        entity_map.wf(),
                        positions_wf(positions@),
                        -WORLD_LIMIT <= actor_x <= WORLD_LIMIT,
                        -WORLD_LIMIT <= actor_y <= WORLD_LIMIT,
                        distance.range == old(distance).range,
                        hit_range@ == entity_map.occupants(cellk),
                        entity_map.contains_cell(cellk),
                        cellk == crate::grid::cell_key(x as int, y as int),
                        j <= hit_range@.len(),
                        x_lo <= x <= x_hi,
                        y_lo <= y <= y_hi,
                        x_lo == c.min_x - rg,
                        x_hi == c.max_x + rg,
                        y_lo == c.min_y - rg,
                        y_hi == c.max_y + rg,
                        locked_on_candidate(
                            *entity_map,
                            c,
                            rg,
                            actor_entity,
                            positions@,
                            actor_x as int,
                            actor_y as int,
                            distance.state,
                        ),
                        distance.state is Unset ==> forall|f: u64, x2: int, y2: int|
                            #[trigger] entity_map.occupies_cell(x2, y2, f) && x_lo <= x2 <= x_hi
                                && y_lo <= y2 <= y_hi && f != actor_entity && (x2 < x || (x2 == x
                                && y2 < y)) ==> !has_position(positions@, f),
                        distance.state is Unset ==> forall|jj: int|
                            0 <= jj < j ==> #[trigger] hit_range@[jj] == actor_entity
                                || !has_position(positions@, hit_range@[jj]),
                    decreases hit_range@.len() - j,
                {
                    let occupant = hit_range[j];
                    if occupant != actor_entity && !distance.has_target() {
                        if let Some(p) = find_position(positions, occupant) {
                            let d = distance_squared(actor_x, actor_y, p.0, p.1);
                            distance.set_target(occupant, d);
                            proof {
                                assert(entity_map.occupies_cell(x as int, y as int, occupant)) by {
                                    assert(entity_map.occupants(cellk)[j as int] == occupant);
                                }
                                let i = choose|i: int|
                                    0 <= i < positions@.len() && #[trigger] positions@[i]
                                        == (EntityPos { entity: occupant, x: p.0, y: p.1 });
                                assert(positions@[i].entity == occupant);
                                assert(chase_candidate(
                                    *entity_map,
                                    c,
                                    rg,
                                    actor_entity,
                                    positions@,
                                    occupant,
                                ));
                            }
                        }
                    }
                    j += 1;
                }
                proof {
                    if distance.state is Unset {
                        assert forall|f: u64, x2: int, y2: int|
                            #[trigger] entity_map.occupies_cell(x2, y2, f) && x_lo <= x2 <= x_hi
                            && y_lo <= y2 <= y_hi && f != actor_entity && (x2 < x || (x2 == x && y2
                            < y + 1)) implies !has_position(positions@, f) by {
                            if x2 == x && y2 == y {
                                crate::grid::lemma_cell_key_inverse(x as int, y as int);
                                crate::grid::lemma_cell_key_inverse(x2, y2);
                                assert(entity_map.occupants(cellk).contains(f));
                                let jj = choose|jj: int|
                                    0 <= jj < hit_range@.len() && hit_range@[jj] == f;
                                assert(hit_range@[jj] == actor_entity || !has_position(
                                    positions@,
                                    hit_range@[jj],
                                ));
                            }
                        }
                    }
                }
            } else {
                proof {
                    if distance.state is Unset {
                        assert forall|f: u64, x2: int, y2: int|
                            #[trigger] entity_map.occupies_cell(x2, y2, f) && x_lo <= x2 <= x_hi
                            && y_lo <= y2 <= y_hi && f != actor_entity && (x2 < x || (x2 == x && y2
                            < y + 1)) implies !has_position(positions@, f) by {
                            if x2 == x && y2 == y {
                                assert(!entity_map.contains_cell(
                                    crate::grid::cell_key(x as int, y as int),
                                ));
                            }
                        }
                    }
                }
            }
            y += 1;
        }
        x += 1;
    }
    proof {
        if distance.state is Unset {
            assert forall|f: u64|
                !(#[trigger] chase_candidate(
                    *entity_map,
                    c,
                    rg,
                    actor_entity,
                    positions@,
                    f,
                )) by {
                if chase_candidate(*entity_map, c, rg, actor_entity, positions@, f) {
                    let (x2, y2) = choose|x2: int, y2: int| #[trigger]
                        entity_map.occupies_cell(x2, y2, f) && c.min_x - rg <= x2 <= c.max_x + rg
                            && c.min_y - rg <= y2 <= c.max_y + rg;
                }
            }
        }
    }
}

/// Refreshes the held distance from the target's current position; a
/// target whose position is no longer known is dropped.
pub fn update_distance_from_target(
    distance: &mut Distance,
    actor_x: i64,
    actor_y: i64,
    positions: &Vec<EntityPos>,
)
    requires
        -WORLD_LIMIT <= actor_x <= WORLD_LIMIT,
        -WORLD_LIMIT <= actor_y <= WORLD_LIMIT,
        positions_wf(positions@),
    ensures
        final(distance).range == old(distance).range,
        old(distance).state is Unset ==> *final(distance) == *old(distance),
        old(distance).state matches TargetLock::Locked { target, .. } ==> {
            &&& !has_position(positions@, target) ==> final(distance).state is Unset
            &&& has_position(positions@, target) ==> (final(distance).state matches
                TargetLock::Locked { target: t2, distance_sq: d2 } && t2 == target && exists|i: int|
                0 <= i < positions@.len() && (#[trigger] positions@[i]).entity == target && d2
                    == dist_sq(
                    actor_x as int,
                    actor_y as int,
                    positions@[i].x as int,
                    positions@[i].y as int,
                ))
        },
{
    let target = match distance.state {
        TargetLock::Unset => {
            return ;
        },
        TargetLock::Locked { target, .. } => target,
    };
    match find_position(positions, target) {
        Some(p) => {
            let d = distance_squared(actor_x, actor_y, p.0, p.1);
            distance.update_distance(target, d);
            proof {
                let i = choose|i: int|
                    0 <= i < positions@.len() && #[trigger] positions@[i] == (EntityPos {
                        entity: target,
                        x: p.0,
                        y: p.1,
                    });
                assert(positions@[i].entity == target);
            }
        },
        None => {
            distance.reset();
        },
    }
}

/// Drops the lock once the target leaves the scan range — squared
/// distance beyond `(range * GRID_SIZE)^2` — or its position is no
/// longer known.
pub fn remove_target_if_out_of_range(
    distance: &mut Distance,
    actor_x: i64,
    actor_y: i64,
    positions: &Vec<EntityPos>,
)
    requires
        -WORLD_LIMIT <= actor_x <= WORLD_LIMIT,
        -WORLD_LIMIT <= actor_y <= WORLD_LIMIT,
        positions_wf(positions@),
        0 <= old(distance).range <= 1_000_000,
    ensures
        final(distance).range == old(distance).range,
        old(distance).state is Unset ==> *final(distance) == *old(distance),
        old(distance).state matches TargetLock::Locked { target, .. } ==> {
            &&& !has_position(positions@, target) ==> final(distance).state is Unset
            &&& has_position(positions@, target) ==> (forall|i: int|
                0 <= i < positions@.len() && (#[trigger] positions@[i]).entity == target
                    ==> final(distance).state == if dist_sq(
                    actor_x as int,
                    actor_y as int,
                    positions@[i].x as int,
                    positions@[i].y as int,
                ) > (old(distance).range * GRID_SIZE) * (old(distance).range * GRID_SIZE) {
                    TargetLock::Unset
                } else {
                    old(distance).state
                })
        },
{
    let target = match distance.state {
        TargetLock::Unset => {
            return ;
        },
        TargetLock::Locked { target, .. } => target,
    };
    match find_position(positions, target) {
        Some(p) => {
            let new_distance = distance_squared(actor_x, actor_y, p.0, p.1);
            let reach = (distance.range as i64) * GRID_SIZE;
            proof {
                assert(0 <= reach * reach <= 0x100_0000_0000_0000) by (nonlinear_arith)
                    requires
                        0 <= reach <= 16_000_000,
                ;
            }
            if new_distance > ((reach * reach) as u64) {
                distance.reset();
            }
            proof {
                let iw = choose|i: int|
                    0 <= i < positions@.len() && #[trigger] positions@[i] == (EntityPos {
                        entity: target,
                        x: p.0,
                        y: p.1,
                    });
                assert forall|i: int|
                    0 <= i < positions@.len() && (#[trigger] positions@[i]).entity
                        == target implies positions@[i] == positions@[iw] by {
                    assert(positions@[iw].entity == target);
                }
            }
        },
        None => {
            distance.reset();
        },
    }
}

/// Marks the scorer that rates how close the locked target is.
#[derive(Clone, Copy, Debug, PartialEq, Eq, Structural)]
pub struct DistanceChecker;

/// Rates the held target's closeness in permille: 1000 at distance
/// zero, falling to 0 at the edge of the scan range (by squared
/// distance).  Without a target there is nothing to score.
pub fn distance_scorer(distance: &Distance) -> (score: Option<u32>)
    requires
        1 <= distance.range <= 1_000_000,
    ensures
        score is Some <==> distance.state is Locked,
        distance.state matches TargetLock::Locked { distance_sq, .. } ==> score == Some(
            (1000 - if 1000 * (distance_sq as int) / ((distance.range * GRID_SIZE) * (
            distance.range * GRID_SIZE)) > 1000 {
                1000int
            } else {
                1000 * (distance_sq as int) / ((distance.range * GRID_SIZE) * (distance.range
                    * GRID_SIZE))
            }) as u32,
        ),
{
    let distance_sq = match distance.state {
        TargetLock::Unset => {
            return None;
        },
        TargetLock::Locked { distance_sq, .. } => distance_sq,
    };
    let reach = (distance.range as i64) * GRID_SIZE;
    proof {
        assert(16 <= reach * reach <= 256_000_000_000_000) by (nonlinear_arith)
            requires
                16 <= reach <= 16_000_000,
        ;
    }
    let reach_sq = (reach * reach) as u64;
    let scaled = if distance_sq > 0xFFFF_FFFF_FFFF {
        // Far beyond any reachable range: saturate the ratio.
        1001u64
    } else {
        (1000 * distance_sq) / reach_sq
    };
    proof {
        if distance_sq > 0xFFFF_FFFF_FFFF {
            assert(1000 * (distance_sq as int) >= 1001 * (reach_sq as int)) by (nonlinear_arith)
                requires
                    distance_sq > 0xFFFF_FFFF_FFFF,
                    16 <= reach_sq <= 256_000_000_000_000,
            ;
            vstd::arithmetic::div_mod::lemma_div_is_ordered(
                1001 * (reach_sq as int),
                1000 * (distance_sq as int),
                reach_sq as int,
            );
            vstd::arithmetic::div_mod::lemma_div_multiples_vanish(1001, reach_sq as int);
        } else {
            assert(1000 * (distance_sq as int) <= 0xF_4240_0000_0000_0000) by (nonlinear_arith)
                requires
                    distance_sq <= 0xFFFF_FFFF_FFFF,
            ;
        }
    }
    let capped: u64 = if scaled > 1000 {
        1000
    } else {
        scaled
    };
    Some((1000 - capped) as u32)
}

/// The pursuit action's execution state, as the scheduler sees it.
#[derive(Clone, Copy, Debug, PartialEq, Eq, Structural)]
pub enum ActionState {
    Init,
    Requested,
    Executing,
    Cancelled,
    Success,
    Failure,
}

/// Pursuit parameters: how fast to approach the target.
#[derive(Clone, Copy, Debug, PartialEq, Eq, Structural)]
pub struct Approach {
    pub speed: i64,
}

/// An order for the movement layer: `mover` should path toward
/// `target` at `speed`.
#[derive(Clone, Copy, Debug, PartialEq, Eq, Structural)]
pub struct OrderMovementEvent {
    pub mover: u64,
    pub target: u64,
    pub speed: i64,
}

/// Squared distance below which the approach counts as arrived.
pub const APPROACH_DONE_DISTANCE_SQ: u64 = 64;

/// One step of the pursuit action state machine.  A requested approach
/// orders movement toward the locked target and starts executing; an
/// executing approach succeeds once the target is close, re-requests
/// while it is far, and cancels the moment the lock is gone; a
/// cancelled approach settles as failed.
pub fn move_toward_target(
    state: &mut ActionState,
    actor_entity: u64,
    distance: &Distance,
    approach: &Approach,
) -> (order: Option<OrderMovementEvent>)
    ensures
        *old(state) == ActionState::Requested && distance.state is Unset ==> *final(state)
            == ActionState::Cancelled && order is None,
        *old(state) == ActionState::Requested ==> (distance.state matches TargetLock::Locked {
            target,
            ..
        } ==> *final(state) == ActionState::Executing && order == Some(
            OrderMovementEvent { mover: actor_entity, target, speed: approach.speed },
        )),
        *old(state) == ActionState::Executing ==> order is None && *final(state) == (
        match distance.state {
            TargetLock::Unset => ActionState::Cancelled,
            TargetLock::Locked { distance_sq, .. } => if distance_sq
                < APPROACH_DONE_DISTANCE_SQ {
                ActionState::Success
            } else {
                ActionState::Requested
            },
        }),
        *old(state) == ActionState::Cancelled ==> *final(state) == ActionState::Failure && order
            is None,
        (*old(state) == ActionState::Init || *old(state) == ActionState::Success || *old(state)
            == ActionState::Failure) ==> *final(state) == *old(state) && order is None,
{
    match *state {
        ActionState::Requested => {
            match distance.state {
                TargetLock::Unset => {
                    *state = ActionState::Cancelled;
                    None
                },
                TargetLock::Locked { target, .. } => {
                    *state = ActionState::Executing;
                    Some(
                        OrderMovementEvent {
                            mover: actor_entity,
                            target,
                            speed: approach.speed,
                        },
                    )
                },
            }
        },
        ActionState::Executing => {
            match distance.state {
                TargetLock::Unset => {
                    *state = ActionState::Cancelled;
                },
                TargetLock::Locked { distance_sq, .. } => {
                    if distance_sq < APPROACH_DONE_DISTANCE_SQ {
                        *state = ActionState::Success;
                    } else {
                        *state = ActionState::Requested;
                    }
                },
            }
            None
        },
        ActionState::Cancelled => {
            *state = ActionState::Failure;
            None
        },
        _ => None,
    }
}

} // verus!
