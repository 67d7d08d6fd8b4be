//! The attack lifecycle and its hit resolution: the recovery timer that
//! locks movement during a swing, the directional probe strip a melee
//! swing reaches into, and the damage events one resolution tick emits.

use vstd::prelude::*;

use crate::grid::Coordinate;
use crate::grid::cell_key;
use crate::maps::EntityGridMap;
use crate::sprites::AnimationIndices;
use crate::sprites::AnimationState;
use crate::sprites::FaceDirection;
use crate::sprites::Facing;
use crate::physics::MoveLock;
use crate::physics::Vec2i;
use crate::maps::contains_entity;
use crate::maps::lemma_push_keeps_no_duplicates;

verus! {

broadcast use vstd::seq_lib::lemma_seq_contains_after_push;

/// Microseconds in one second of game time.
pub const MICROS_PER_SECOND: u64 = 1_000_000;

/// How long a swing locks its attacker: one second.
pub const ATTACK_RECOVERY_MICROS: u64 = MICROS_PER_SECOND;

/// Damage one melee swing carries.
pub const MELEE_DAMAGE: i32 = 1;

/// Hitstun a melee swing inflicts: one second.
pub const MELEE_HITSTUN_MICROS: u64 = MICROS_PER_SECOND;

/// A one-shot timer: it accumulates elapsed time up to its duration and
/// is finished once the duration is reached.  Time is counted in
/// microseconds.
#[derive(Clone, Copy, Debug, PartialEq, Eq, Structural)]
pub struct Delay {
    pub elapsed: u64,
    pub duration: u64,
}

impl Delay {
    /// The elapsed count never runs past the duration.
    pub open spec fn inv(self) -> bool {
        self.elapsed <= self.duration
    }

    /// Whether the timer has run its full duration.
    pub open spec fn spec_finished(self) -> bool {
        self.elapsed >= self.duration
    }

    /// The timer after `delta` more microseconds, saturating at the
    /// duration.
    pub open spec fn spec_tick(self, delta: u64) -> Delay {
        if self.duration - self.elapsed <= delta {
            Delay { elapsed: self.duration, duration: self.duration }
        } else {
            Delay { elapsed: (self.elapsed + delta) as u64, duration: self.duration }
        }
    }

    /// A fresh timer that needs `duration` microseconds to finish.
    pub fn new(duration: u64) -> (r: Delay)
        ensures
            r == (Delay { elapsed: 0, duration }),
            r.inv(),
    {
        Delay { elapsed: 0, duration }
    }

    /// Advances the timer by `delta` microseconds.
    pub fn tick(&mut self, delta: u64)
        requires
            old(self).inv(),
        ensures
            *final(self) == old(self).spec_tick(delta),
            final(self).inv(),
            final(self).duration == old(self).duration,
    {
        let room = self.duration - self.elapsed;
        if room <= delta {
            self.elapsed = self.duration;
        } else {
            self.elapsed = self.elapsed + delta;
        }
    }

    /// Whether the timer has finished.
    pub fn finished(&self) -> (r: bool)
        ensures
            r == self.spec_finished(),
    {
        self.elapsed >= self.duration
    }
}

impl Default for Delay {
    /// The default timer has nothing left to run: it is already
    /// finished, so a fresh fighter may act at once.
    fn default() -> (r: Delay)
        ensures
            r == (Delay { elapsed: 0, duration: 0 }),
            r.inv(),
            r.spec_finished(),
    {
        Delay { elapsed: 0, duration: 0 }
    }
}

/// The timer after a whole sequence of ticks, applied left to right.
pub open spec fn spec_tick_all(d: Delay, deltas: Seq<u64>) -> Delay
    decreases deltas.len(),
{
    if deltas.len() == 0 {
        d
    } else {
        spec_tick_all(d, deltas.drop_last()).spec_tick(deltas.last())
    }
}

/// The mathematical sum of a sequence of deltas.
pub open spec fn sum_of(deltas: Seq<u64>) -> int
    decreases deltas.len(),
{
    if deltas.len() == 0 {
        0
    } else {
        sum_of(deltas.drop_last()) + deltas.last()
    }
}

/// Attack lifecycle timing: however the elapsed time is split into
/// ticks, the recovery timer finishes exactly on the first tick where
/// the accumulated time reaches its duration — never before.  Since the
/// movement lock opens exactly when this timer finishes, the lock opens
/// on that tick and on no earlier one.
pub proof fn lemma_attack_lifecycle_timing(d: Delay, deltas: Seq<u64>)
    requires
        d.inv(),
    ensures
        spec_tick_all(d, deltas).inv(),
        spec_tick_all(d, deltas).duration == d.duration,
        spec_tick_all(d, deltas).elapsed == if d.elapsed + sum_of(deltas) >= d.duration {
            d.duration as int
        } else {
            d.elapsed + sum_of(deltas)
        },
        spec_tick_all(d, deltas).spec_finished() <==> d.elapsed + sum_of(deltas) >= d.duration,
    decreases deltas.len(),
{
    if deltas.len() > 0 {
        lemma_attack_lifecycle_timing(d, deltas.drop_last());
    }
}

/// An attack a live swing carries: spawned when the swing starts,
/// despawned when the recovery timer finishes.
#[derive(Clone, Copy, Debug, PartialEq, Eq, Structural)]
pub struct Attack {
    pub damage: i32,
    /// Direction and speed the hit pushes the target in, world units.
    pub pushback: Vec2i,
    /// Microseconds the target is stunned for.
    pub hitstun_duration: u64,
}

/// One hit against one entity, consumed within the tick that emits it.
#[derive(Clone, Copy, Debug, PartialEq, Eq, Structural)]
pub struct DamageEvent {
    pub damage_velocity: Vec2i,
    pub damaging_entity: u64,
    pub damaged_entity: u64,
    pub damage: i32,
    pub hitstun_duration: u64,
}

/// Marks an entity that can be hit.
#[derive(Clone, Copy, Debug, Default, PartialEq, Eq, Structural)]
pub struct Hurtbox;

/// Whether an entity is drawn; a hit hides its target.
#[derive(Clone, Copy, Debug, PartialEq, Eq, Structural)]
pub enum Visibility {
    Visible,
    Hidden,
}

/// The per-entity state damage resolution reads and writes.
#[derive(Clone, Copy, Debug, PartialEq, Eq, Structural)]
pub struct UnitState {
    pub entity: u64,
    pub visibility: Visibility,
}

/// Whether cell `(x, y)` lies in the one-cell-deep strip adjacent to the
/// box `c` on its `facing` side — the reach of a melee swing or an
/// interaction probe.
pub open spec fn in_probe_strip(facing: FaceDirection, c: Coordinate, x: int, y: int) -> bool {
    match facing {
        FaceDirection::Down => c.min_x <= x <= c.max_x && y == c.min_y - 1,
        FaceDirection::Up => c.min_x <= x <= c.max_x && y == c.max_y + 1,
        FaceDirection::Left => x == c.min_x - 1 && c.min_y <= y <= c.max_y,
        FaceDirection::Right => x == c.max_x + 1 && c.min_y <= y <= c.max_y,
    }
}

/// An entity a swing from box `c` toward `facing` may hit: any occupant
/// of the probe strip other than the attacker itself.
pub open spec fn melee_candidate(
    entity_map: EntityGridMap,
    facing: FaceDirection,
    c: Coordinate,
    attacker: u64,
    f: u64,
) -> bool {
    f != attacker && exists|x: int, y: int| #[trigger]
        entity_map.occupies_cell(x, y, f) && in_probe_strip(facing, c, x, y)
}

/// The inclusive cell ranges `((x_lo, x_hi), (y_lo, y_hi))` a probe from
/// box `c` toward `facing` covers: the strip of cells one step beyond
/// the box edge on the facing side, spanning the box on the other axis.
pub fn probe_cells(facing: &Facing, coordinate: &Coordinate) -> (r: ((i32, i32), (i32, i32)))
    requires
        coordinate.bounded(),
    ensures
        facing.direction == FaceDirection::Down ==> r == ((coordinate.min_x, coordinate.max_x), (
            (coordinate.min_y - 1) as i32,
            (coordinate.min_y - 1) as i32,
        )),
        facing.direction == FaceDirection::Up ==> r == ((coordinate.min_x, coordinate.max_x), (
            (coordinate.max_y + 1) as i32,
            (coordinate.max_y + 1) as i32,
        )),
        facing.direction == FaceDirection::Left ==> r == ((
            (coordinate.min_x - 1) as i32,
            (coordinate.min_x - 1) as i32,
        ), (coordinate.min_y, coordinate.max_y)),
        facing.direction == FaceDirection::Right ==> r == ((
            (coordinate.max_x + 1) as i32,
            (coordinate.max_x + 1) as i32,
        ), (coordinate.min_y, coordinate.max_y)),
        forall|x: int, y: int|
            #[trigger] in_probe_strip(facing.direction, *coordinate, x, y) <==> (r.0.0 <= x
                <= r.0.1 && r.1.0 <= y <= r.1.1),
{
    match facing.direction {
        FaceDirection::Down => (
            (coordinate.min_x, coordinate.max_x),
            (coordinate.min_y - 1, coordinate.min_y - 1),
        ),
        FaceDirection::Up => (
            (coordinate.min_x, coordinate.max_x),
            (coordinate.max_y + 1, coordinate.max_y + 1),
        ),
        FaceDirection::Left => (
            (coordinate.min_x - 1, coordinate.min_x - 1),
            (coordinate.min_y, coordinate.max_y),
        ),
        FaceDirection::Right => (
            (coordinate.max_x + 1, coordinate.max_x + 1),
            (coordinate.min_y, coordinate.max_y),
        ),
    }
}

/// Collects the distinct entities occupying the probe strip of
/// `coordinate` toward `facing`, leaving out `exclude` — the prober
/// itself never appears in its own candidate list.
pub fn find_entities_in_range(
    entity_map: &EntityGridMap,
    facing: &Facing,
    coordinate: &Coordinate,
    exclude: u64,
) -> (r: Vec<u64>)
    requires
        entity_map.wf(),
        coordinate.bounded(),
    ensures
        r@.no_duplicates(),
        !r@.contains(exclude),
        forall|f: u64| #[trigger]
            r@.contains(f) <==> (f != exclude && exists|x: int, y: int| #[trigger]
                entity_map.occupies_cell(x, y, f) && in_probe_strip(
                    facing.direction,
                    *coordinate,
                    x,
                    y,
                )),
{
    let ((x_lo, x_hi), (y_lo, y_hi)) = probe_cells(facing, coordinate);
    let mut found: Vec<u64> = Vec::new();
    let mut x = x_lo;
    while x <= x_hi
        invariant
            entity_map.wf(),
            x_lo <= x,
            x <= x_hi + 1 || x == x_lo,
            -COORD_RANGE <= x_lo <= COORD_RANGE,
            -COORD_RANGE <= x_hi <= COORD_RANGE,
            -COORD_RANGE <= y_lo <= COORD_RANGE,
            -COORD_RANGE <= y_hi <= COORD_RANGE,
            found@.no_duplicates(),
            !found@.contains(exclude),
            forall|f: u64| #[trigger]
                found@.contains(f) ==> (f != exclude && exists|x2: int, y2: int| #[trigger]
                    entity_map.occupies_cell(x2, y2, f) && x_lo <= x2 <= x_hi && y_lo <= y2
                        <= y_hi),
            forall|f: u64, x2: int, y2: int|
                #[trigger] entity_map.occupies_cell(x2, y2, f) && x_lo <= x2 < x && y_lo <= y2
                    <= y_hi && f != exclude ==> found@.contains(f),
        decreases x_hi + 1 - x,
    {
        let mut y = y_lo;
        while y <= y_hi
            invariant
                entity_map.wf(),
                x_lo <= x <= x_hi,
                y_lo <= y,
                y <= y_hi + 1 || y == y_lo,
                -COORD_RANGE <= x_lo <= COORD_RANGE,
                -COORD_RANGE <= x_hi <= COORD_RANGE,
                -COORD_RANGE <= y_lo <= COORD_RANGE,
                -COORD_RANGE <= y_hi <= COORD_RANGE,
                found@.no_duplicates(),
                !found@.contains(exclude),
                forall|f: u64| #[trigger]
                    found@.contains(f) ==> (f != exclude && exists|x2: int, y2: int| #[trigger]
                        entity_map.occupies_cell(x2, y2, f) && x_lo <= x2 <= x_hi && y_lo <= y2
                            <= y_hi),
                forall|f: u64, x2: int, y2: int|
                    #[trigger] entity_map.occupies_cell(x2, y2, f) && x_lo <= x2 <= x_hi && y_lo
                        <= y2 <= y_hi && f != exclude && (x2 < x || (x2 == x && y2 < y))
                        ==> found@.contains(f),
            decreases y_hi + 1 - y,
        {
            if let Some(hit_range) = entity_map.get((x, y)) {
                let ghost cellk = cell_key(x as int, y as int);
                let mut j: usize = 0;
                while j < hit_range.len()
                    invariant
                        entity_map.wf(),
                        hit_range@ == entity_map.occupants(cellk),
                        entity_map.contains_cell(cellk),
                        cellk == cell_key(x as int, y as int),
                        j <= hit_range@.len(),
                        found@.no_duplicates(),
                        !found@.contains(exclude),
                        forall|f: u64| #[trigger]
                            found@.contains(f) ==> (f != exclude && exists|x2: int, y2: int|
                                #[trigger] entity_map.occupies_cell(x2, y2, f) && x_lo <= x2
                                    <= x_hi && y_lo <= y2 <= y_hi),
                        x_lo <= x <= x_hi,
                        y_lo <= y <= y_hi,
                        forall|f: u64, x2: int, y2: int|
                            #[trigger] entity_map.occupies_cell(x2, y2, f) && x_lo <= x2 <= x_hi
                                && y_lo <= y2 <= y_hi && f != exclude && (x2 < x || (x2 == x && y2
                                < y)) ==> found@.contains(f),
                        forall|jj: int|
                            0 <= jj < j ==> hit_range@[jj] == exclude || found@.contains(
                                hit_range@[jj],
                            ),
                    decreases hit_range@.len() - j,
                {
                    let occupant = hit_range[j];
                    if occupant != exclude && !contains_entity(&found, occupant) {
                        proof {
                            crate::grid::lemma_cell_key_inverse(x as int, y as int);
                            assert(entity_map.occupies_cell(x as int, y as int, occupant)) by {
                                assert(entity_map.occupants(cellk).contains(occupant)) by {
                                    assert(entity_map.occupants(cellk)[j as int] == occupant);
                                }
                            }
                        }
                        let ghost prev = found@;
                        found.push(occupant);
                        proof {
                            assert(found@ == prev.push(occupant));
                            lemma_push_keeps_no_duplicates(prev, occupant);
                            assert forall|f: u64| #[trigger] found@.contains(f) implies (f
                                != exclude && exists|x2: int, y2: int| #[trigger]
                                entity_map.occupies_cell(x2, y2, f) && x_lo <= x2 <= x_hi && y_lo
                                <= y2 <= y_hi) by {
                                if f == occupant {
                                    assert(entity_map.occupies_cell(x as int, y as int, occupant)
                                        && x_lo <= x as int <= x_hi && y_lo <= y as int <= y_hi);
                                } else {
                                    assert(prev.contains(f));
                                }
                            }
                        }
                    }
                    j += 1;
                }
                proof {
                    assert forall|f: u64, x2: int, y2: int|
                        #[trigger] entity_map.occupies_cell(x2, y2, f) && x_lo <= x2 <= x_hi
                        && y_lo <= y2 <= y_hi && f != exclude && (x2 < x || (x2 == x && y2 < y
                        + 1)) implies found@.contains(f) by {
                        if x2 == x && y2 == y {
                            crate::grid::lemma_cell_key_inverse(x as int, y as int);
                            crate::grid::lemma_cell_key_inverse(x2, y2);
                            assert(entity_map.occupants(cellk).contains(f));
                            let jj = choose|jj: int|
                                0 <= jj < hit_range@.len() && hit_range@[jj] == f;
                            assert(hit_range@[jj] == exclude || found@.contains(hit_range@[jj]));
                        }
                    }
                }
            } else {
                proof {
                    assert forall|f: u64, x2: int, y2: int|
                        #[trigger] entity_map.occupies_cell(x2, y2, f) && x_lo <= x2 <= x_hi
                        && y_lo <= y2 <= y_hi && f != exclude && (x2 < x || (x2 == x && y2 < y
                        + 1)) implies found@.contains(f) by {
                        if x2 == x && y2 == y {
                            assert(!entity_map.contains_cell(cell_key(x as int, y as int)));
                        }
                    }
                }
            }
            y += 1;
        }
        x += 1;
    }
    proof {
        assert forall|f: u64| #[trigger]
            found@.contains(f) implies (f != exclude && exists|x2: int, y2: int| #[trigger]
            entity_map.occupies_cell(x2, y2, f) && in_probe_strip(
                facing.direction,
                *coordinate,
                x2,
                y2,
            )) by {
            let (x2, y2) = choose|x2: int, y2: int| #[trigger]
                entity_map.occupies_cell(x2, y2, f) && x_lo <= x2 <= x_hi && y_lo <= y2 <= y_hi;
            assert(in_probe_strip(facing.direction, *coordinate, x2, y2));
        }
        assert forall|f: u64|
            (f != exclude && exists|x2: int, y2: int| #[trigger] entity_map.occupies_cell(
                x2,
                y2,
                f,
            ) && in_probe_strip(facing.direction, *coordinate, x2, y2)) implies #[trigger]
            found@.contains(f) by {
            let (x2, y2) = choose|x2: int, y2: int| #[trigger]
                entity_map.occupies_cell(x2, y2, f) && in_probe_strip(
                    facing.direction,
                    *coordinate,
                    x2,
                    y2,
                );
            assert(x_lo <= x2 <= x_hi && y_lo <= y2 <= y_hi);
        }
    }
    found
}

/// Bound that keeps probe arithmetic inside `i32`; one step beyond
/// `crate::grid::COORD_LIMIT`.
pub const COORD_RANGE: i32 = 1_000_001;

/// One frame of attack input for a fighter.  The recovery timer always
/// ticks.  While the movement lock is open, pressing attack starts a
/// swing: the animation switches to attack, a fresh `Attack` instance is
/// returned for the caller to attach to the fighter, the recovery timer
/// restarts at `ATTACK_RECOVERY_MICROS`, and the lock closes.
pub fn melee_attack(
    indices: &mut AnimationIndices,
    move_lock: &mut MoveLock,
    delay: &mut Delay,
    attack_pressed: bool,
    delta_micros: u64,
) -> (spawned: Option<Attack>)
    requires
        old(delay).inv(),
    ensures
        final(delay).inv(),
        attack_pressed && !old(move_lock).0 ==> {
            &&& spawned == Some(
                Attack {
                    damage: MELEE_DAMAGE,
                    pushback: Vec2i { x: 0, y: 0 },
                    hitstun_duration: MELEE_HITSTUN_MICROS,
                },
            )
            &&& *final(delay) == (Delay { elapsed: 0, duration: ATTACK_RECOVERY_MICROS })
            &&& final(move_lock).0 == true
            &&& *final(indices) == (AnimationIndices {
                animation_state: AnimationState::Attack,
                ..*old(indices)
            })
        },
        !(attack_pressed && !old(move_lock).0) ==> {
            &&& spawned is None
            &&& *final(delay) == old(delay).spec_tick(delta_micros)
            &&& *final(move_lock) == *old(move_lock)
            &&& *final(indices) == *old(indices)
        },
{
    delay.tick(delta_micros);
    if attack_pressed && !move_lock.0 {
        indices.animation_state = AnimationState::Attack;
        let attack = Attack {
            damage: MELEE_DAMAGE,
            pushback: Vec2i { x: 0, y: 0 },
            hitstun_duration: MELEE_HITSTUN_MICROS,
        };
        *delay = Delay::new(ATTACK_RECOVERY_MICROS);
        move_lock.0 = true;
        Some(attack)
    } else {
        None
    }
}

/// One hit-resolution tick for one live attack: probes the strip the
/// attacker faces, and emits one damage event per distinct entity found
/// there — never against the attacker itself.  This runs every tick the
/// attack instance is alive, so a target that stays in range is hit
/// again each tick.
pub fn melee_attack_system(
    entity_map: &EntityGridMap,
    attacker_entity: u64,
    attacker_facing: &Facing,
    attacker_coordinate: &Coordinate,
    attack: &Attack,
) -> (events: Vec<DamageEvent>)
    requires
        entity_map.wf(),
        attacker_coordinate.bounded(),
    ensures
        forall|i: int|
            0 <= i < events@.len() ==> {
                let ev = #[trigger] events@[i];
                &&& ev.damaging_entity == attacker_entity
                &&& ev.damaged_entity != attacker_entity
                &&& ev.damage == attack.damage
                &&& ev.damage_velocity == attack.pushback
                &&& ev.hitstun_duration == attack.hitstun_duration
                &&& exists|x: int, y: int| #[trigger]
                    entity_map.occupies_cell(x, y, ev.damaged_entity) && in_probe_strip(
                        attacker_facing.direction,
                        *attacker_coordinate,
                        x,
                        y,
                    )
            },
        forall|i: int, j: int|
            0 <= i < events@.len() && 0 <= j < events@.len() && i != j ==> #[trigger] events@[i].damaged_entity
                != #[trigger] events@[j].damaged_entity,
        forall|f: u64|
            #[trigger] melee_candidate(
                *entity_map,
                attacker_facing.direction,
                *attacker_coordinate,
                attacker_entity,
                f,
            ) ==> exists|i: int|
                0 <= i < events@.len() && #[trigger] events@[i].damaged_entity == f,
{
    let hurtbox_vec = find_entities_in_range(
        entity_map,
        attacker_facing,
        attacker_coordinate,
        attacker_entity,
    );
    let mut events: Vec<DamageEvent> = Vec::new();
    let mut i: usize = 0;
    while i < hurtbox_vec.len()
        invariant
            i <= hurtbox_vec@.len(),
            events@.len() == i,
            forall|j: int|
                0 <= j < i ==> #[trigger] events@[j] == (DamageEvent {
                    damaging_entity: attacker_entity,
                    damage_velocity: attack.pushback,
                    damage: attack.damage,
                    damaged_entity: hurtbox_vec@[j],
                    hitstun_duration: attack.hitstun_duration,
                }),
        decreases hurtbox_vec@.len() - i,
    {
        events.push(
            DamageEvent {
                damaging_entity: attacker_entity,
                damage_velocity: attack.pushback,
                damage: attack.damage,
                damaged_entity: hurtbox_vec[i],
                hitstun_duration: attack.hitstun_duration,
            },
        );
        i += 1;
    }
    proof {
        assert forall|i2: int, j2: int|
            0 <= i2 < events@.len() && 0 <= j2 < events@.len() && i2 != j2 implies #[trigger]
            events@[i2].damaged_entity != #[trigger] events@[j2].damaged_entity by {
            assert(events@[i2].damaged_entity == hurtbox_vec@[i2]);
            assert(events@[j2].damaged_entity == hurtbox_vec@[j2]);
        }
        assert forall|i2: int|
            #![trigger events@[i2]]
            0 <= i2 < events@.len() implies exists|x: int, y: int| #[trigger]
            entity_map.occupies_cell(x, y, events@[i2].damaged_entity) && in_probe_strip(
            attacker_facing.direction,
            *attacker_coordinate,
            x,
            y,
        ) by {
            assert(events@[i2].damaged_entity == hurtbox_vec@[i2]);
            assert(hurtbox_vec@.contains(hurtbox_vec@[i2]));
            let (x, y) = choose|x: int, y: int| #[trigger]
                entity_map.occupies_cell(x, y, hurtbox_vec@[i2]) && in_probe_strip(
                    attacker_facing.direction,
                    *attacker_coordinate,
                    x,
                    y,
                );
            assert(entity_map.occupies_cell(x, y, events@[i2].damaged_entity));
        }
        assert forall|f: u64|
            #[trigger] melee_candidate(
                *entity_map,
                attacker_facing.direction,
                *attacker_coordinate,
                attacker_entity,
                f,
            ) implies exists|i2: int|
            0 <= i2 < events@.len() && #[trigger] events@[i2].damaged_entity == f by {
            assert(hurtbox_vec@.contains(f));
            let j = choose|j: int| 0 <= j < hurtbox_vec@.len() && hurtbox_vec@[j] == f;
            assert(events@[j].damaged_entity == f);
        }
    }
    events
}

/// Applies a tick's damage events: every unit a damage event names is
/// hidden — the stand-in defeat effect — and every other unit keeps its
/// visibility.  Hiding an already hidden unit is harmless.
pub fn collect_hit(damage_events: &Vec<DamageEvent>, units: &mut Vec<UnitState>)
    ensures
        final(units)@.len() == old(units)@.len(),
        forall|i: int|
            0 <= i < old(units)@.len() ==> {
                let u0 = old(units)@[i];
                #[trigger] final(units)@[i] == (UnitState {
                    entity: u0.entity,
                    visibility: if exists|j: int|
                        0 <= j < damage_events@.len() && #[trigger] damage_events@[j].damaged_entity
                            == u0.entity {
                        Visibility::Hidden
                    } else {
                        u0.visibility
                    },
                })
            },
{
    let mut i: usize = 0;
    while i < units.len()
        invariant
            i <= units@.len(),
            units@.len() == old(units)@.len(),
            forall|i2: int|
                i <= i2 < units@.len() ==> #[trigger] units@[i2] == old(units)@[i2],
            forall|i2: int|
                0 <= i2 < i ==> {
                    let u0 = old(units)@[i2];
                    #[trigger] units@[i2] == (UnitState {
                        entity: u0.entity,
                        visibility: if exists|j: int|
                            0 <= j < damage_events@.len()
                                && #[trigger] damage_events@[j].damaged_entity == u0.entity {
                            Visibility::Hidden
                        } else {
                            u0.visibility
                        },
                    })
                },
        decreases units@.len() - i,
    {
        let entity = units[i].entity;
        let mut hit = false;
        let mut j: usize = 0;
        while j < damage_events.len()
            invariant
                j <= damage_events@.len(),
                hit == exists|j2: int|
                    0 <= j2 < j && #[trigger] damage_events@[j2].damaged_entity == entity,
            decreases damage_events@.len() - j,
        {
            if damage_events[j].damaged_entity == entity {
                hit = true;
            }
            j += 1;
        }
        if hit {
            units[i] = UnitState { entity, visibility: Visibility::Hidden };
        }
        i += 1;
    }
}

/// One recovery tick for a fighter with a live attack instance: the
/// recovery timer advances, and the instant it finishes the attack
/// instance is destroyed.  Without a live attack nothing happens.
pub fn deactivate_attack(delay: &mut Delay, attack: &mut Option<Attack>, delta_micros: u64)
    requires
        old(delay).inv(),
    ensures
        final(delay).inv(),
        (*old(attack)) is Some ==> {
            &&& *final(delay) == old(delay).spec_tick(delta_micros)
            &&& *final(attack) == if old(delay).spec_tick(delta_micros).spec_finished() {
                None::<Attack>
            } else {
                *old(attack)
            }
        },
        (*old(attack)) is None ==> *final(delay) == *old(delay) && *final(attack) == *old(attack),
{
    if attack.is_some() {
        delay.tick(delta_micros);
        if delay.finished() {
            *attack = None;
        }
    }
}

/// A broken per-entity precondition, surfaced instead of crashing: the
/// offending entity's attack is skipped for the tick and the violation
/// reported to the caller for logging.
#[derive(Clone, Copy, Debug, PartialEq, Eq, Structural)]
pub enum InvariantViolation {
    /// The attacker carries no facing direction.
    MissingFacing,
    /// The attacker carries no tracked bounding box.
    MissingCoordinate,
}

/// Every emitted hit names the attacker, a real candidate, and the
/// attack's damage.
pub open spec fn hits_are_candidates(
    entity_map: EntityGridMap,
    facing: FaceDirection,
    c: Coordinate,
    attacker: u64,
    damage: i32,
    events: Seq<DamageEvent>,
) -> bool {
    forall|i: int|
        0 <= i < events.len() ==> {
            let ev = #[trigger] events[i];
            &&& ev.damaging_entity == attacker
            &&& ev.damaged_entity != attacker
            &&& ev.damage == damage
            &&& melee_candidate(entity_map, facing, c, attacker, ev.damaged_entity)
        }
}

/// Every candidate in the probe strip is named by some emitted hit.
pub open spec fn hits_cover_candidates(
    entity_map: EntityGridMap,
    facing: FaceDirection,
    c: Coordinate,
    attacker: u64,
    events: Seq<DamageEvent>,
) -> bool {
    forall|f: u64|
        #[trigger] melee_candidate(entity_map, facing, c, attacker, f) ==> exists|i: int|
            0 <= i < events.len() && #[trigger] events[i].damaged_entity == f
}

/// Hit resolution guarded against a half-built attacker: with facing
/// and bounding box present it resolves the tick's hits; without
/// either, it reports which piece is missing and emits nothing, so one
/// entity's bad state never stops the frame.
pub fn resolve_attacker_hits(
    entity_map: &EntityGridMap,
    attacker_entity: u64,
    attacker_facing: Option<&Facing>,
    attacker_coordinate: Option<&Coordinate>,
    attack: &Attack,
) -> (r: Result<Vec<DamageEvent>, InvariantViolation>)
    requires
        entity_map.wf(),
        attacker_coordinate matches Some(c) ==> c.bounded(),
    ensures
        attacker_facing is None ==> r == Err::<Vec<DamageEvent>, InvariantViolation>(
            InvariantViolation::MissingFacing,
        ),
        attacker_facing is Some && attacker_coordinate is None ==> r == Err::<
            Vec<DamageEvent>,
            InvariantViolation,
        >(InvariantViolation::MissingCoordinate),
        attacker_facing is Some && attacker_coordinate is Some ==> r is Ok,
        attacker_facing is Some && attacker_coordinate is Some ==> hits_are_candidates(
            *entity_map,
            attacker_facing->Some_0.direction,
            *(attacker_coordinate->Some_0),
            attacker_entity,
            attack.damage,
            r->Ok_0@,
        ),
        attacker_facing is Some && attacker_coordinate is Some ==> hits_cover_candidates(
            *entity_map,
            attacker_facing->Some_0.direction,
            *(attacker_coordinate->Some_0),
            attacker_entity,
            r->Ok_0@,
        ),
{
    let facing = match attacker_facing {
        Some(facing) => facing,
        None => {
            return Err(InvariantViolation::MissingFacing);
        },
    };
    let coordinate = match attacker_coordinate {
        Some(coordinate) => coordinate,
        None => {
            return Err(InvariantViolation::MissingCoordinate);
        },
    };
    let events = melee_attack_system(entity_map, attacker_entity, facing, coordinate, attack);
    proof {
        assert(attacker_facing->Some_0 == facing);
        assert(attacker_coordinate->Some_0 == coordinate);
        assert(hits_are_candidates(
            *entity_map,
            facing.direction,
            *coordinate,
            attacker_entity,
            attack.damage,
            events@,
        )) by {
            assert forall|i: int| 0 <= i < events@.len() implies {
                let ev = #[trigger] events@[i];
                &&& ev.damaging_entity == attacker_entity
                &&& ev.damaged_entity != attacker_entity
                &&& ev.damage == attack.damage
                &&& melee_candidate(
                    *entity_map,
                    facing.direction,
                    *coordinate,
                    attacker_entity,
                    ev.damaged_entity,
                )
            } by {
                let ev = events@[i];
                assert(ev.damaged_entity != attacker_entity);
            }
        }
        assert(hits_cover_candidates(
            *entity_map,
            facing.direction,
            *coordinate,
            attacker_entity,
            events@,
        ));
    }
    Ok(events)
}

/// Resolves one physics collision against one live attack: when the
/// attack's owner is one side of the collision, the other side takes
/// the hit.  A collision not involving the owner resolves to nothing.
/// Used for projectile attacks, whose reach the physics engine decides
/// instead of the grid probe.
pub fn projectile_attack_system(
    collision: (u64, u64),
    attacker_entity: u64,
    attack: &Attack,
) -> (hit: Option<DamageEvent>)
    ensures
        collision.0 == attacker_entity ==> hit == Some(
            DamageEvent {
                damaging_entity: attacker_entity,
                damage_velocity: attack.pushback,
                damage: attack.damage,
                damaged_entity: collision.1,
                hitstun_duration: attack.hitstun_duration,
            },
        ),
        collision.0 != attacker_entity && collision.1 == attacker_entity ==> hit == Some(
            DamageEvent {
                damaging_entity: attacker_entity,
                damage_velocity: attack.pushback,
                damage: attack.damage,
                damaged_entity: collision.0,
                hitstun_duration: attack.hitstun_duration,
            },
        ),
        collision.0 != attacker_entity && collision.1 != attacker_entity ==> hit is None,
{
    let damaged_entity = if collision.0 == attacker_entity {
        collision.1
    } else if collision.1 == attacker_entity {
        collision.0
    } else {
        return None;
    };
    Some(
        DamageEvent {
            damaging_entity: attacker_entity,
            damage_velocity: attack.pushback,
            damage: attack.damage,
            damaged_entity,
            hitstun_duration: attack.hitstun_duration,
        },
    )
}

/// How often one swing may damage the same target.  Hit resolution runs
/// every tick an attack instance is alive, so without a policy a target
/// that stays in range is hit again each tick.
#[derive(Clone, Copy, Debug, PartialEq, Eq, Structural)]
pub enum HitPolicy {
    /// Each target takes at most one hit per swing.
    SingleHitPerSwing,
    /// A target in range takes a hit every tick the swing lasts.
    ContinuousWhileOverlapping,
}

/// Applies the hit policy to one tick's damage events.  Under the
/// continuous policy everything passes and nothing is remembered.
/// Under the single-hit policy, events against targets this swing
/// already hit are dropped, and the targets that do get hit are added
/// to the swing's memory — which the caller resets when a new swing
/// starts.
pub fn filter_repeat_hits(
    events: Vec<DamageEvent>,
    policy: HitPolicy,
    already_hit: &mut Vec<u64>,
) -> (kept: Vec<DamageEvent>)
    requires
        old(already_hit)@.no_duplicates(),
        forall|i: int, j: int|
            0 <= i < events@.len() && 0 <= j < events@.len() && i != j ==> #[trigger] events@[i].damaged_entity
                != #[trigger] events@[j].damaged_entity,
    ensures
        final(already_hit)@.no_duplicates(),
        policy == HitPolicy::ContinuousWhileOverlapping ==> kept@ == events@ && final(already_hit)@
            == old(already_hit)@,
        policy == HitPolicy::SingleHitPerSwing ==> {
            &&& kept@ == events@.filter(
                |ev: DamageEvent| !old(already_hit)@.contains(ev.damaged_entity),
            )
            &&& forall|f: u64|
                #[trigger] final(already_hit)@.contains(f) <==> (old(already_hit)@.contains(f)
                    || exists|j: int|
                    0 <= j < events@.len() && #[trigger] events@[j].damaged_entity == f)
        },
{
    if matches!(policy, HitPolicy::ContinuousWhileOverlapping) {
        return events;
    }
    let ghost pred = |ev: DamageEvent| !old(already_hit)@.contains(ev.damaged_entity);
    let mut kept: Vec<DamageEvent> = Vec::new();
    let mut j: usize = 0;
    while j < events.len()
        invariant
            j <= events@.len(),
            old(already_hit)@.no_duplicates(),
            already_hit@.no_duplicates(),
            kept@ == events@.take(j as int).filter(pred),
            pred == (|ev: DamageEvent| !old(already_hit)@.contains(ev.damaged_entity)),
            forall|i2: int, j2: int|
                0 <= i2 < events@.len() && 0 <= j2 < events@.len() && i2 != j2 ==> #[trigger] events@[i2].damaged_entity
                    != #[trigger] events@[j2].damaged_entity,
            forall|f: u64|
                #[trigger] already_hit@.contains(f) <==> (old(already_hit)@.contains(f) || exists|
                    j2: int,
                |
                    0 <= j2 < j && #[trigger] events@[j2].damaged_entity == f),
        decreases events@.len() - j,
    {
        let ev = events[j];
        proof {
            assert(events@.take(j + 1) =~= events@.take(j as int).push(events@[j as int]));
            events@.take(j as int).lemma_filter_push(events@[j as int], pred);
        }
        let ghost prev = already_hit@;
        if contains_entity(already_hit, ev.damaged_entity) {
            proof {
                // The target was hit before this tick: within one tick all
                // targets are distinct, so the memory entry must be old.
                assert(old(already_hit)@.contains(ev.damaged_entity)) by {
                    if !old(already_hit)@.contains(ev.damaged_entity) {
                        let j2 = choose|j2: int|
                            0 <= j2 < j && #[trigger] events@[j2].damaged_entity
                                == ev.damaged_entity;
                        assert(events@[j2].damaged_entity == events@[j as int].damaged_entity);
                    }
                }
                assert(!pred(events@[j as int]));
            }
        } else {
            proof {
                if old(already_hit)@.contains(ev.damaged_entity) {
                    assert(already_hit@.contains(ev.damaged_entity));
                }
            }
            proof {
                assert(pred(events@[j as int]));
            }
            kept.push(ev);
            already_hit.push(ev.damaged_entity);
            proof {
                lemma_push_keeps_no_duplicates(prev, ev.damaged_entity);
                assert(already_hit@ == prev.push(ev.damaged_entity));
            }
        }
        proof {
            assert forall|f: u64| #[trigger]
                already_hit@.contains(f) implies (old(already_hit)@.contains(f) || exists|j2: int|
                0 <= j2 < j + 1 && #[trigger] events@[j2].damaged_entity == f) by {
                if !prev.contains(f) && already_hit@.contains(f) {
                    assert(events@[j as int].damaged_entity == f);
                }
            }
            assert forall|f: u64|
                (old(already_hit)@.contains(f) || exists|j2: int|
                    0 <= j2 < j + 1 && #[trigger] events@[j2].damaged_entity == f) implies #[trigger]
                already_hit@.contains(f) by {
                if !old(already_hit)@.contains(f) {
                    let j2 = choose|j2: int|
                        0 <= j2 < j + 1 && #[trigger] events@[j2].damaged_entity == f;
                    if j2 == j {
                        if prev.contains(f) {
                        } else {
                            assert(already_hit@.contains(f));
                        }
                    }
                }
            }
        }
        j += 1;
    }
    proof {
        assert(events@.take(events@.len() as int) =~= events@);
    }
    kept
}

/// The combat subsystem: one fighter's whole combat tick, in the order
/// the frame schedule fixes — attack input, then hit resolution against
/// the index updated earlier this tick, then damage application, then
/// recovery.
pub struct CombatPlugin;

impl CombatPlugin {
    /// One combat tick for one fighter.  While an attack instance is
    /// live this tick (carried over or just spawned), hit resolution
    /// runs: exactly the units standing in the fighter's probe strip —
    /// the fighter itself excepted — end up hidden, and everything else
    /// keeps its visibility.  The recovery timer then advances and, when
    /// it finishes, destroys the attack instance.
    pub fn step(
        entity_map: &EntityGridMap,
        attacker_entity: u64,
        facing: &Facing,
        coordinate: &Coordinate,
        indices: &mut AnimationIndices,
        move_lock: &mut MoveLock,
        delay: &mut Delay,
        attack: &mut Option<Attack>,
        units: &mut Vec<UnitState>,
        attack_pressed: bool,
        delta_micros: u64,
    ) -> (events: Vec<DamageEvent>)
        requires
            entity_map.wf(),
            coordinate.bounded(),
            old(delay).inv(),
        ensures
            final(delay).inv(),
            final(units)@.len() == old(units)@.len(),
            ({
                let live = (attack_pressed && !old(move_lock).0) || (*old(attack)) is Some;
                &&& forall|i: int|
                    0 <= i < old(units)@.len() ==> (#[trigger] final(units)@[i]).entity == old(
                        units,
                    )@[i].entity
                &&& forall|i: int|
                    0 <= i < old(units)@.len() ==> ((#[trigger] final(units)@[i]).visibility
                        == Visibility::Hidden <==> (old(units)@[i].visibility == Visibility::Hidden
                        || (live && melee_candidate(
                        *entity_map,
                        facing.direction,
                        *coordinate,
                        attacker_entity,
                        old(units)@[i].entity,
                    ))))
                &&& attack_pressed && !old(move_lock).0 ==> final(move_lock).0
            }),
    {
        let spawned = melee_attack(indices, move_lock, delay, attack_pressed, delta_micros);
        if let Some(new_attack) = spawned {
            *attack = Some(new_attack);
        }
        let current_attack: Option<Attack> = *attack;
        let events = match current_attack {
            Some(live_attack) => melee_attack_system(
                entity_map,
                attacker_entity,
                facing,
                coordinate,
                &live_attack,
            ),
            None => Vec::new(),
        };
        collect_hit(&events, units);
        deactivate_attack(delay, attack, delta_micros);
        proof {
            let live = (attack_pressed && !old(move_lock).0) || (*old(attack)) is Some;
            assert forall|i: int| 0 <= i < old(units)@.len() implies ((#[trigger] units@[i]).visibility
                == Visibility::Hidden <==> (old(units)@[i].visibility == Visibility::Hidden || (
            live && melee_candidate(
                *entity_map,
                facing.direction,
                *coordinate,
                attacker_entity,
                old(units)@[i].entity,
            )))) by {
                let u = old(units)@[i].entity;
                if live {
                    if melee_candidate(
                        *entity_map,
                        facing.direction,
                        *coordinate,
                        attacker_entity,
                        u,
                    ) {
                        let j = choose|j: int|
                            0 <= j < events@.len() && #[trigger] events@[j].damaged_entity == u;
                    } else {
                        assert forall|j: int|
                            0 <= j < events@.len() implies #[trigger] events@[j].damaged_entity
                            != u by {
                            if events@[j].damaged_entity == u {
                                assert(melee_candidate(
                                    *entity_map,
                                    facing.direction,
                                    *coordinate,
                                    attacker_entity,
                                    u,
                                ));
                            }
                        }
                    }
                }
            }
        }
        events
    }
}

} // verus!
