//! The entity spatial index: a mirrored map from grid cells to the
//! entities whose bounding boxes cover them, kept consistent by an
//! incremental diff as boxes move.

use std::collections::HashMap;
use vstd::prelude::*;

use crate::grid::Coordinate;
use crate::grid::cell_key;
use crate::grid::encode_cell;
use crate::grid::key_x;
use crate::grid::key_y;
use crate::grid::lemma_cell_key_inverse;
use crate::grid::lemma_key_roundtrip;
use crate::grid::COORD_LIMIT;

verus! {

broadcast use vstd::std_specs::hash::group_hash_axioms, vstd::seq_lib::lemma_seq_contains_after_push;

/// Appending an element that is not yet present keeps an occupant list
/// free of duplicates.
pub proof fn lemma_push_keeps_no_duplicates(s: Seq<u64>, x: u64)
    requires
        s.no_duplicates(),
        !s.contains(x),
    ensures
        s.push(x).no_duplicates(),
{
    let t = s.push(x);
    assert forall|p: int, q: int| 0 <= p < t.len() && 0 <= q < t.len() && p != q implies t[p]
        != t[q] by {
        if p < s.len() && q < s.len() {
        } else if p == s.len() && q < s.len() {
            assert(s.contains(s[q]));
        } else if q == s.len() && p < s.len() {
            assert(s.contains(s[p]));
        }
    }
}

/// Mirrored map that stores, for every populated grid cell, the entities
/// whose current bounding box covers that cell.  A cell without occupants
/// has no entry at all, so memory follows the active footprint of the
/// world, not its size.
pub struct EntityGridMap {
    pub entity_map: HashMap<u64, Vec<u64>>,
}

impl EntityGridMap {
    /// Whether the cell with key `k` has an entry.
    pub open spec fn contains_cell(self, k: u64) -> bool {
        self.entity_map@.contains_key(k)
    }

    /// The occupant list of the cell with key `k`.
    pub open spec fn occupants(self, k: u64) -> Seq<u64> {
        self.entity_map@[k]@
    }

    /// Whether entity `e` occupies the cell with key `k`.
    pub open spec fn occupies(self, k: u64, e: u64) -> bool {
        self.contains_cell(k) && self.occupants(k).contains(e)
    }

    /// Whether entity `e` occupies the cell `(x, y)`.
    pub open spec fn occupies_cell(self, x: int, y: int, e: u64) -> bool {
        self.occupies(cell_key(x, y), e)
    }

    /// Every entry holds at least one occupant and no occupant twice: an
    /// entity appears at most once per cell, and a cell whose last
    /// occupant leaves is removed entirely.
    pub open spec fn wf(self) -> bool {
        forall|k: u64| #[trigger]
            self.contains_cell(k) ==> self.occupants(k).len() > 0 && self.occupants(
                k,
            ).no_duplicates()
    }

    /// An empty index.
    pub fn new() -> (r: EntityGridMap)
        ensures
            r.wf(),
            forall|k: u64| !(#[trigger] r.contains_cell(k)),
            forall|k: u64, f: u64| !(#[trigger] r.occupies(k, f)),
    {
        EntityGridMap { entity_map: HashMap::new() }
    }

    /// Adds `entity` to the cell `coordinate`, creating the entry if this
    /// is the cell's first occupant.  Idempotent: inserting an entity
    /// that already occupies the cell leaves the index unchanged.
    pub fn insert(&mut self, coordinate: (i32, i32), entity: u64)
        requires
            old(self).wf(),
        ensures
            final(self).wf(),
            forall|k: u64, f: u64|
                #![trigger final(self).occupies(k, f)]
                #![trigger old(self).occupies(k, f)]
                final(self).occupies(k, f) <==> (old(self).occupies(k, f) || (k == cell_key(
                    coordinate.0 as int,
                    coordinate.1 as int,
                ) && f == entity)),
            forall|k: u64|
                #![trigger final(self).contains_cell(k)]
                #![trigger old(self).contains_cell(k)]
                final(self).contains_cell(k) <==> (old(self).contains_cell(k) || k == cell_key(
                    coordinate.0 as int,
                    coordinate.1 as int,
                )),
    {
        let k = encode_cell(coordinate.0, coordinate.1);
        match self.entity_map.remove(&k) {
            Some(mut entity_vec) => {
                proof {
                    assert(old(self).contains_cell(k));
                    assert(entity_vec@ == old(self).occupants(k));
                }
                let ghost prev = entity_vec@;
                if !contains_entity(&entity_vec, entity) {
                    entity_vec.push(entity);
                    proof {
                        lemma_push_keeps_no_duplicates(prev, entity);
                    }
                }
                proof {
                    assert(entity_vec@.no_duplicates());
                    assert(entity_vec@.len() > 0);
                    assert(forall|f: u64| #[trigger]
                        entity_vec@.contains(f) <==> (prev.contains(f) || f == entity));
                }
                self.entity_map.insert(k, entity_vec);
                proof {
                    lemma_delete_frame(*old(self), *self, k);
                    assert(self.occupants(k) == entity_vec@);
                }
            },
            None => {
                let mut entity_vec: Vec<u64> = Vec::new();
                entity_vec.push(entity);
                self.entity_map.insert(k, entity_vec);
                proof {
                    assert(entity_vec@ =~= seq![entity]);
                    assert(forall|f: u64| #[trigger]
                        entity_vec@.contains(f) <==> f == entity) by {
                        assert(entity_vec@[0] == entity);
                    }
                    lemma_delete_frame(*old(self), *self, k);
                    assert(self.occupants(k) == entity_vec@);
                }
            },
        }
    }

    /// Removes `entity` from the cell `coordinate`; if the cell's
    /// occupant list becomes empty, the entry itself is removed.
    /// Deleting an entity that does not occupy the cell is a no-op.
    pub fn delete(&mut self, coordinate: (i32, i32), entity: u64)
        requires
            old(self).wf(),
        ensures
            final(self).wf(),
            forall|k: u64, f: u64|
                #![trigger final(self).occupies(k, f)]
                #![trigger old(self).occupies(k, f)]
                final(self).occupies(k, f) <==> (old(self).occupies(k, f) && !(k == cell_key(
                    coordinate.0 as int,
                    coordinate.1 as int,
                ) && f == entity)),
            forall|k: u64|
                #![trigger final(self).contains_cell(k)]
                #![trigger old(self).contains_cell(k)]
                final(self).contains_cell(k) <==> (old(self).contains_cell(k) && (k != cell_key(
                    coordinate.0 as int,
                    coordinate.1 as int,
                ) || exists|f: u64| f != entity && #[trigger] old(self).occupies(k, f))),
    {
        let k = encode_cell(coordinate.0, coordinate.1);
        match self.entity_map.remove(&k) {
            Some(entity_vec) => {
                proof {
                    assert(old(self).contains_cell(k));
                    assert(entity_vec@ == old(self).occupants(k));
                }
                let remaining = remove_entity(entity_vec, entity);
                if remaining.len() > 0 {
                    self.entity_map.insert(k, remaining);
                    proof {
                        assert(exists|f: u64|
                            f != entity && #[trigger] old(self).occupies(k, f)) by {
                            let f0 = remaining@[0];
                            assert(remaining@.contains(f0));
                            assert(old(self).occupies(k, f0));
                        }
                        lemma_delete_frame(*old(self), *self, k);
                    }
                } else {
                    proof {
                        assert forall|f: u64| !(f != entity && #[trigger] old(self).occupies(
                            k,
                            f,
                        )) by {
                            if f != entity && old(self).occupants(k).contains(f) {
                                assert(remaining@.contains(f));
                            }
                        }
                        lemma_delete_frame(*old(self), *self, k);
                    }
                }
            },
            None => {
                proof {
                    lemma_delete_frame(*old(self), *self, k);
                    assert(!self.contains_cell(k));
                }
            },
        }
    }

    /// Whether `entity` currently occupies the cell `coordinate`.
    pub fn contains(&self, coordinate: (i32, i32), entity: u64) -> (r: bool)
        ensures
            r == self.occupies(cell_key(coordinate.0 as int, coordinate.1 as int), entity),
    {
        let k = encode_cell(coordinate.0, coordinate.1);
        match self.entity_map.get(&k) {
            Some(entity_vec) => contains_entity(entity_vec, entity),
            None => false,
        }
    }

    /// Removes the whole entry of the cell `coordinate`, whatever it
    /// holds.
    pub fn clear(&mut self, coordinate: (i32, i32))
        requires
            old(self).wf(),
        ensures
            final(self).wf(),
            forall|k: u64, f: u64|
                #![trigger final(self).occupies(k, f)]
                #![trigger old(self).occupies(k, f)]
                final(self).occupies(k, f) <==> (old(self).occupies(k, f) && k != cell_key(
                    coordinate.0 as int,
                    coordinate.1 as int,
                )),
            forall|k: u64|
                #![trigger final(self).contains_cell(k)]
                #![trigger old(self).contains_cell(k)]
                final(self).contains_cell(k) <==> (old(self).contains_cell(k) && k != cell_key(
                    coordinate.0 as int,
                    coordinate.1 as int,
                )),
    {
        let k = encode_cell(coordinate.0, coordinate.1);
        self.entity_map.remove(&k);
        proof {
            lemma_delete_frame(*old(self), *self, k);
        }
    }

    /// Read-only lookup of the cell `coordinate`; `None` means no entity
    /// occupies it.
    pub fn get(&self, coordinate: (i32, i32)) -> (r: Option<&Vec<u64>>)
        ensures
            match r {
                Some(v) => self.contains_cell(cell_key(coordinate.0 as int, coordinate.1 as int))
                    && v@ == self.occupants(cell_key(coordinate.0 as int, coordinate.1 as int)),
                None => !self.contains_cell(cell_key(coordinate.0 as int, coordinate.1 as int)),
            },
    {
        let k = encode_cell(coordinate.0, coordinate.1);
        self.entity_map.get(&k)
    }
}

/// Whether the key's cell lies in the inclusive rectangle
/// `[x0, x1] x [y0, y1]`.
pub open spec fn in_rect(k: u64, x0: int, x1: int, y0: int, y1: int) -> bool {
    x0 <= key_x(k) <= x1 && y0 <= key_y(k) <= y1
}

/// The index invariant: entity `entity` occupies exactly the cells its
/// bounding box `c` covers.
pub open spec fn tracks_box(m: EntityGridMap, entity: u64, c: Coordinate) -> bool {
    forall|k: u64| #[trigger] m.occupies(k, entity) <==> c.covers(key_x(k), key_y(k))
}

/// The smaller of two cell coordinates.
fn min_i32(a: i32, b: i32) -> (r: i32)
    ensures
        r == if a < b {
            a as int
        } else {
            b as int
        },
{
    if a < b {
        a
    } else {
        b
    }
}

/// The larger of two cell coordinates.
fn max_i32(a: i32, b: i32) -> (r: i32)
    ensures
        r == if a > b {
            a as int
        } else {
            b as int
        },
{
    if a > b {
        a
    } else {
        b
    }
}

impl EntityGridMap {
    /// Adds `entity` to every cell of the inclusive rectangle
    /// `[x0, x1] x [y0, y1]` (empty when a minimum exceeds its maximum).
    fn insert_rect(&mut self, x0: i32, x1: i32, y0: i32, y1: i32, entity: u64)
        requires
            old(self).wf(),
            -COORD_LIMIT - 1 <= x0 <= COORD_LIMIT + 1,
            -COORD_LIMIT - 1 <= x1 <= COORD_LIMIT + 1,
            -COORD_LIMIT - 1 <= y0 <= COORD_LIMIT + 1,
            -COORD_LIMIT - 1 <= y1 <= COORD_LIMIT + 1,
        ensures
            final(self).wf(),
            forall|k: u64, f: u64|
                #![trigger final(self).occupies(k, f)]
                #![trigger old(self).occupies(k, f)]
                final(self).occupies(k, f) <==> (old(self).occupies(k, f) || (f == entity
                    && in_rect(k, x0 as int, x1 as int, y0 as int, y1 as int))),
    {
        let ghost m0 = *old(self);
        let mut x = x0;
        while x <= x1
            invariant
                self.wf(),
                -COORD_LIMIT - 1 <= x0 <= COORD_LIMIT + 1,
                -COORD_LIMIT - 1 <= x1 <= COORD_LIMIT + 1,
                -COORD_LIMIT - 1 <= y0 <= COORD_LIMIT + 1,
                -COORD_LIMIT - 1 <= y1 <= COORD_LIMIT + 1,
                x0 <= x,
                x <= x1 + 1 || x == x0,
                forall|k: u64, f: u64|
                    #![trigger self.occupies(k, f)]
                    #![trigger m0.occupies(k, f)]
                    self.occupies(k, f) <==> (m0.occupies(k, f) || (f == entity && in_rect(
                        k,
                        x0 as int,
                        x - 1,
                        y0 as int,
                        y1 as int,
                    ))),
            decreases x1 + 1 - x,
        {
            let mut y = y0;
            while y <= y1
                invariant
                    self.wf(),
                    -COORD_LIMIT - 1 <= x0 <= COORD_LIMIT + 1,
                    -COORD_LIMIT - 1 <= x1 <= COORD_LIMIT + 1,
                    -COORD_LIMIT - 1 <= y0 <= COORD_LIMIT + 1,
                    -COORD_LIMIT - 1 <= y1 <= COORD_LIMIT + 1,
                    x0 <= x <= x1,
                    y0 <= y,
                    y <= y1 + 1 || y == y0,
                    forall|k: u64, f: u64|
                        #![trigger self.occupies(k, f)]
                        #![trigger m0.occupies(k, f)]
                        self.occupies(k, f) <==> (m0.occupies(k, f) || (f == entity && (in_rect(
                            k,
                            x0 as int,
                            x - 1,
                            y0 as int,
                            y1 as int,
                        ) || (key_x(k) == x && y0 <= key_y(k) <= y - 1)))),
                decreases y1 + 1 - y,
            {
                let ghost mprev = *self;
                self.insert((x, y), entity);
                proof {
                    lemma_cell_key_inverse(x as int, y as int);
                    assert forall|k: u64, f: u64|
                        #![trigger self.occupies(k, f)]
                        #![trigger m0.occupies(k, f)]
                        self.occupies(k, f) <==> (m0.occupies(k, f) || (f == entity && (in_rect(
                            k,
                            x0 as int,
                            x - 1,
                            y0 as int,
                            y1 as int,
                        ) || (key_x(k) == x && y0 <= key_y(k) <= y as int)))) by {
                        assert(self.occupies(k, f) <==> (mprev.occupies(k, f) || (k == cell_key(
                            x as int,
                            y as int,
                        ) && f == entity)));
                        if k == cell_key(x as int, y as int) {
                        } else {
                            lemma_key_roundtrip(k);
                        }
                    }
                }
                y += 1;
            }
            x += 1;
        }
    }

    /// Removes `entity` from every cell of the inclusive rectangle
    /// `[x0, x1] x [y0, y1]` (empty when a minimum exceeds its maximum).
    fn delete_rect(&mut self, x0: i32, x1: i32, y0: i32, y1: i32, entity: u64)
        requires
            old(self).wf(),
            -COORD_LIMIT - 1 <= x0 <= COORD_LIMIT + 1,
            -COORD_LIMIT - 1 <= x1 <= COORD_LIMIT + 1,
            -COORD_LIMIT - 1 <= y0 <= COORD_LIMIT + 1,
            -COORD_LIMIT - 1 <= y1 <= COORD_LIMIT + 1,
        ensures
            final(self).wf(),
            forall|k: u64, f: u64|
                #![trigger final(self).occupies(k, f)]
                #![trigger old(self).occupies(k, f)]
                final(self).occupies(k, f) <==> (old(self).occupies(k, f) && !(f == entity
                    && in_rect(k, x0 as int, x1 as int, y0 as int, y1 as int))),
    {
        let ghost m0 = *old(self);
        let mut x = x0;
        while x <= x1
            invariant
                self.wf(),
                -COORD_LIMIT - 1 <= x0 <= COORD_LIMIT + 1,
                -COORD_LIMIT - 1 <= x1 <= COORD_LIMIT + 1,
                -COORD_LIMIT - 1 <= y0 <= COORD_LIMIT + 1,
                -COORD_LIMIT - 1 <= y1 <= COORD_LIMIT + 1,
                x0 <= x,
                x <= x1 + 1 || x == x0,
                forall|k: u64, f: u64|
                    #![trigger self.occupies(k, f)]
                    #![trigger m0.occupies(k, f)]
                    self.occupies(k, f) <==> (m0.occupies(k, f) && !(f == entity && in_rect(
                        k,
                        x0 as int,
                        x - 1,
                        y0 as int,
                        y1 as int,
                    ))),
            decreases x1 + 1 - x,
        {
            let mut y = y0;
            while y <= y1
                invariant
                    self.wf(),
                    -COORD_LIMIT - 1 <= x0 <= COORD_LIMIT + 1,
                    -COORD_LIMIT - 1 <= x1 <= COORD_LIMIT + 1,
                    -COORD_LIMIT - 1 <= y0 <= COORD_LIMIT + 1,
                    -COORD_LIMIT - 1 <= y1 <= COORD_LIMIT + 1,
                    x0 <= x <= x1,
                    y0 <= y,
                    y <= y1 + 1 || y == y0,
                    forall|k: u64, f: u64|
                        #![trigger self.occupies(k, f)]
                        #![trigger m0.occupies(k, f)]
                        self.occupies(k, f) <==> (m0.occupies(k, f) && !(f == entity && (in_rect(
                            k,
                            x0 as int,
                            x - 1,
                            y0 as int,
                            y1 as int,
                        ) || (key_x(k) == x && y0 <= key_y(k) <= y - 1)))),
                decreases y1 + 1 - y,
            {
                let ghost mprev = *self;
                self.delete((x, y), entity);
                proof {
                    lemma_cell_key_inverse(x as int, y as int);
                    assert forall|k: u64, f: u64|
                        #![trigger self.occupies(k, f)]
                        #![trigger m0.occupies(k, f)]
                        self.occupies(k, f) <==> (m0.occupies(k, f) && !(f == entity && (in_rect(
                            k,
                            x0 as int,
                            x - 1,
                            y0 as int,
                            y1 as int,
                        ) || (key_x(k) == x && y0 <= key_y(k) <= y as int)))) by {
                        assert(self.occupies(k, f) <==> (mprev.occupies(k, f) && !(k == cell_key(
                            x as int,
                            y as int,
                        ) && f == entity)));
                        if k == cell_key(x as int, y as int) {
                        } else {
                            lemma_key_roundtrip(k);
                        }
                    }
                }
                y += 1;
            }
            x += 1;
        }
    }
}

/// Applies the incremental diff that keeps the index invariant when an
/// entity's bounding box changes from `*old(coordinate)` to
/// `new_coordinate`.  For each of the four box edges, only the band of
/// cells that entered or left coverage is touched — never the full box —
/// so the cost follows the perimeter delta, not the box area.  Cells
/// other entities occupy are untouched.
pub fn change_coordinate_of_moved_entity(
    entity_map: &mut EntityGridMap,
    coordinate: &mut Coordinate,
    new_coordinate: Coordinate,
    entity: u64,
)
    requires
        old(entity_map).wf(),
        old(coordinate).wf(),
        old(coordinate).bounded(),
        new_coordinate.wf(),
        new_coordinate.bounded(),
        tracks_box(*old(entity_map), entity, *old(coordinate)),
    ensures
        final(entity_map).wf(),
        *final(coordinate) == new_coordinate,
        tracks_box(*final(entity_map), entity, new_coordinate),
        forall|k: u64, f: u64|
            f != entity ==> (#[trigger] final(entity_map).occupies(k, f) <==> #[trigger] old(
                entity_map,
            ).occupies(k, f)),
{
    let old_min_x = coordinate.min_x;
    let old_min_y = coordinate.min_y;
    let old_max_x = coordinate.max_x;
    let old_max_y = coordinate.max_y;
    let min_x = new_coordinate.min_x;
    let min_y = new_coordinate.min_y;
    let max_x = new_coordinate.max_x;
    let max_y = new_coordinate.max_y;

    if old_min_x == min_x && old_min_y == min_y && old_max_x == max_x && old_max_y == max_y {
        *coordinate = new_coordinate;
        return ;
    }

    let ghost m0 = *entity_map;

    // Update columns that entered or left coverage on the min-x edge.
    if min_x < old_min_x {
        entity_map.insert_rect(min_x, min_i32(max_x, old_min_x - 1), min_y, max_y, entity);
    } else if min_x > old_min_x {
        entity_map.delete_rect(
            old_min_x,
            min_i32(min_x - 1, old_max_x),
            old_min_y,
            old_max_y,
            entity,
        );
    }
    let ghost m1 = *entity_map;

    // The max-x edge.
    if max_x < old_max_x {
        entity_map.delete_rect(
            max_i32(max_x + 1, old_min_x),
            old_max_x,
            old_min_y,
            old_max_y,
            entity,
        );
    } else if max_x > old_max_x {
        entity_map.insert_rect(max_i32(old_max_x + 1, min_x), max_x, min_y, max_y, entity);
    }
    let ghost m2 = *entity_map;

    // Rows that entered or left coverage on the min-y edge.
    if min_y < old_min_y {
        entity_map.insert_rect(min_x, max_x, min_y, min_i32(max_y, old_min_y - 1), entity);
    } else if min_y > old_min_y {
        entity_map.delete_rect(
            old_min_x,
            old_max_x,
            old_min_y,
            min_i32(min_y - 1, old_max_y),
            entity,
        );
    }
    let ghost m3 = *entity_map;

    // The max-y edge.
    if max_y < old_max_y {
        entity_map.delete_rect(
            old_min_x,
            old_max_x,
            max_i32(max_y + 1, old_min_y),
            old_max_y,
            entity,
        );
    } else if max_y > old_max_y {
        entity_map.insert_rect(min_x, max_x, max_i32(old_max_y + 1, min_y), max_y, entity);
    }

    proof {
        assert forall|k: u64| #[trigger]
            entity_map.occupies(k, entity) <==> new_coordinate.covers(key_x(k), key_y(k)) by {
            assert(m0.occupies(k, entity) <==> old(coordinate).covers(key_x(k), key_y(k)));
            assert(m1.occupies(k, entity) ==> (m0.occupies(k, entity) || m1.occupies(k, entity)));
            assert(m2.occupies(k, entity) ==> (m1.occupies(k, entity) || m2.occupies(k, entity)));
            assert(m3.occupies(k, entity) ==> (m2.occupies(k, entity) || m3.occupies(k, entity)));
        }
        assert forall|k: u64, f: u64| f != entity implies (#[trigger] entity_map.occupies(k, f)
            <==> #[trigger] m0.occupies(k, f)) by {
            assert(m1.occupies(k, f) <==> m0.occupies(k, f));
            assert(m2.occupies(k, f) <==> m1.occupies(k, f));
            assert(m3.occupies(k, f) <==> m2.occupies(k, f));
        }
    }

    *coordinate = new_coordinate;
}

/// The map subsystem: owns the spatial index update that must complete,
/// for a given tick, before any range query of that tick reads the
/// index.
pub struct MapPlugin;

impl MapPlugin {
    /// One tick of coordinate tracking for one entity whose world
    /// position changed: maps the position to its cell box and applies
    /// the incremental index diff.  Runs before any range query of the
    /// same tick.
    pub fn step(
        entity_map: &mut EntityGridMap,
        coordinate: &mut Coordinate,
        entity: u64,
        pos_x: i64,
        pos_y: i64,
        half_w: i64,
        half_h: i64,
    )
        requires
            old(entity_map).wf(),
            old(coordinate).wf(),
            old(coordinate).bounded(),
            tracks_box(*old(entity_map), entity, *old(coordinate)),
            -crate::grid::WORLD_LIMIT <= pos_x <= crate::grid::WORLD_LIMIT,
            -crate::grid::WORLD_LIMIT <= pos_y <= crate::grid::WORLD_LIMIT,
            0 <= half_w <= crate::grid::EXTENT_LIMIT,
            0 <= half_h <= crate::grid::EXTENT_LIMIT,
            2 * half_w + 1 >= crate::grid::GRID_SIZE,
            2 * half_h + 1 >= crate::grid::GRID_SIZE,
        ensures
            final(entity_map).wf(),
            final(coordinate).wf(),
            final(coordinate).bounded(),
            final(coordinate).min_x == crate::grid::ceil_div(
                pos_x - crate::grid::GRID_OFFSET - half_w,
                crate::grid::GRID_SIZE as int,
            ),
            final(coordinate).max_x == crate::grid::floor_div(
                pos_x - crate::grid::GRID_OFFSET + half_w,
                crate::grid::GRID_SIZE as int,
            ),
            final(coordinate).min_y == crate::grid::ceil_div(
                pos_y - crate::grid::GRID_OFFSET - half_h,
                crate::grid::GRID_SIZE as int,
            ),
            final(coordinate).max_y == crate::grid::floor_div(
                pos_y - crate::grid::GRID_OFFSET + half_h,
                crate::grid::GRID_SIZE as int,
            ),
            tracks_box(*final(entity_map), entity, *final(coordinate)),
            forall|k: u64, f: u64|
                f != entity ==> (#[trigger] final(entity_map).occupies(k, f) <==> #[trigger] old(
                    entity_map,
                ).occupies(k, f)),
    {
        let new_coordinate = crate::grid::compute_bbox(pos_x, pos_y, half_w, half_h);
        change_coordinate_of_moved_entity(entity_map, coordinate, new_coordinate, entity);
    }
}

/// Inserting the same entity into the same cell twice changes nothing
/// the second time, and a cell that was empty before holds exactly one
/// occupant afterward — never two copies.  The three maps stand for the
/// index before the first insert, after it, and after the repeat, each
/// related by `insert`'s contract.
pub proof fn lemma_insert_idempotent(
    m0: EntityGridMap,
    m1: EntityGridMap,
    m2: EntityGridMap,
    k: u64,
    e: u64,
)
    requires
        m0.wf(),
        m1.wf(),
        m2.wf(),
        forall|k2: u64, f: u64|
            #![trigger m1.occupies(k2, f)]
            #![trigger m0.occupies(k2, f)]
            m1.occupies(k2, f) <==> (m0.occupies(k2, f) || (k2 == k && f == e)),
        forall|k2: u64, f: u64|
            #![trigger m2.occupies(k2, f)]
            #![trigger m1.occupies(k2, f)]
            m2.occupies(k2, f) <==> (m1.occupies(k2, f) || (k2 == k && f == e)),
    ensures
        forall|k2: u64, f: u64|
            #![trigger m2.occupies(k2, f)]
            #![trigger m1.occupies(k2, f)]
            m2.occupies(k2, f) <==> m1.occupies(k2, f),
        !m0.contains_cell(k) ==> m1.occupants(k).len() == 1 && m1.occupants(k)[0] == e,
        !m0.contains_cell(k) ==> m2.occupants(k).len() == 1 && m2.occupants(k)[0] == e,
{
    if !m0.contains_cell(k) {
        lemma_sole_occupant(m0, m1, k, e);
        assert(m1.occupies(k, e));
        lemma_sole_occupant(m1, m2, k, e);
    }
}

/// After an insert of `e` into a cell whose only possible occupant was
/// `e`, that cell holds exactly the one entry `e`.
proof fn lemma_sole_occupant(pre: EntityGridMap, post: EntityGridMap, k: u64, e: u64)
    requires
        post.wf(),
        forall|k2: u64, f: u64|
            #![trigger post.occupies(k2, f)]
            #![trigger pre.occupies(k2, f)]
            post.occupies(k2, f) <==> (pre.occupies(k2, f) || (k2 == k && f == e)),
        forall|f: u64| pre.occupies(k, f) ==> f == e,
    ensures
        post.occupants(k).len() == 1,
        post.occupants(k)[0] == e,
{
    assert(post.occupies(k, e));
    assert(post.contains_cell(k));
    let occupants = post.occupants(k);
    assert forall|i: int| 0 <= i < occupants.len() implies occupants[i] == e by {
        assert(occupants.contains(occupants[i]));
        assert(post.occupies(k, occupants[i]));
    }
    if occupants.len() > 1 {
        assert(occupants[0] == e && occupants[1] == e);
    }
    assert(occupants.contains(e));
    let i = choose|i: int| 0 <= i < occupants.len() && occupants[i] == e;
}

/// Deleting the last occupant of a cell removes the cell's entry
/// entirely: a lookup afterward finds nothing.  `pre` and `post` are the
/// index before and after the delete of `e` at `k`, related by
/// `delete`'s contract.
pub proof fn lemma_delete_empties_cell(pre: EntityGridMap, post: EntityGridMap, k: u64, e: u64)
    requires
        forall|k2: u64|
            #![trigger post.contains_cell(k2)]
            #![trigger pre.contains_cell(k2)]
            post.contains_cell(k2) <==> (pre.contains_cell(k2) && (k2 != k || exists|f: u64|
                f != e && #[trigger] pre.occupies(k2, f))),
        forall|f: u64| pre.occupies(k, f) ==> f == e,
    ensures
        !post.contains_cell(k),
{
    if post.contains_cell(k) {
        let f = choose|f: u64| f != e && #[trigger] pre.occupies(k, f);
    }
}

/// Terrain classification of one populated tile cell.
#[derive(Clone, Copy, Debug, PartialEq, Eq, Structural)]
pub enum TileType {
    Wall,
    Floor,
}

/// Static map from grid cell to the tile entity standing there and its
/// terrain classification.  Built once as level geometry is discovered;
/// also tracks the largest cell coordinates seen, which size the
/// navigability grid handed to the pathfinding service.
pub struct TileGridMap {
    pub tile_map: HashMap<u64, (u64, TileType)>,
    pub max_x: i32,
    pub max_y: i32,
}

impl TileGridMap {
    /// Whether the cell with key `k` holds a tile.
    pub open spec fn contains_tile(self, k: u64) -> bool {
        self.tile_map@.contains_key(k)
    }

    /// The tile entity and classification at key `k`.
    pub open spec fn tile_at(self, k: u64) -> (u64, TileType) {
        self.tile_map@[k]
    }

    /// The extents never trail a populated cell, and never go negative.
    pub open spec fn wf(self) -> bool {
        &&& self.max_x >= 0
        &&& self.max_y >= 0
        &&& forall|k: u64| #[trigger]
            self.contains_tile(k) ==> key_x(k) <= self.max_x && key_y(k) <= self.max_y
    }

    /// An empty tile map.
    pub fn new() -> (r: TileGridMap)
        ensures
            r.wf(),
            r.tile_map@ == Map::<u64, (u64, TileType)>::empty(),
            r.max_x == 0,
            r.max_y == 0,
    {
        TileGridMap { tile_map: HashMap::new(), max_x: 0, max_y: 0 }
    }

    /// Records the tile at `coordinate`, growing the extents if the cell
    /// lies beyond them.
    pub fn insert(&mut self, coordinate: (i32, i32), entity: u64, tile_type: TileType)
        requires
            old(self).wf(),
        ensures
            final(self).wf(),
            final(self).tile_map@ == old(self).tile_map@.insert(
                cell_key(coordinate.0 as int, coordinate.1 as int),
                (entity, tile_type),
            ),
            final(self).max_x == if coordinate.0 > old(self).max_x {
                coordinate.0 as int
            } else {
                old(self).max_x as int
            },
            final(self).max_y == if coordinate.1 > old(self).max_y {
                coordinate.1 as int
            } else {
                old(self).max_y as int
            },
    {
        if self.max_x < coordinate.0 {
            self.max_x = coordinate.0;
        }
        if self.max_y < coordinate.1 {
            self.max_y = coordinate.1;
        }
        let k = encode_cell(coordinate.0, coordinate.1);
        self.tile_map.insert(k, (entity, tile_type));
        proof {
            lemma_cell_key_inverse(coordinate.0 as int, coordinate.1 as int);
            assert forall|k2: u64| #[trigger]
                self.contains_tile(k2) implies key_x(k2) <= self.max_x && key_y(k2)
                <= self.max_y by {
                if k2 != k {
                    assert(old(self).contains_tile(k2));
                }
            }
        }
    }

    /// Removes the tile entry at `coordinate`; the extents are kept, so
    /// the navigability grid keeps its size.
    pub fn delete(&mut self, coordinate: (i32, i32))
        requires
            old(self).wf(),
        ensures
            final(self).wf(),
            final(self).tile_map@ == old(self).tile_map@.remove(
                cell_key(coordinate.0 as int, coordinate.1 as int),
            ),
            final(self).max_x == old(self).max_x,
            final(self).max_y == old(self).max_y,
    {
        let k = encode_cell(coordinate.0, coordinate.1);
        self.tile_map.remove(&k);
        proof {
            assert forall|k2: u64| #[trigger]
                self.contains_tile(k2) implies key_x(k2) <= self.max_x && key_y(k2)
                <= self.max_y by {
                assert(old(self).contains_tile(k2));
            }
        }
    }

    /// Read-only lookup of the tile at `coordinate`; `None` means the
    /// cell is unpopulated, which tile queries treat as solid.
    pub fn get(&self, coordinate: (i32, i32)) -> (r: Option<&(u64, TileType)>)
        ensures
            match r {
                Some(t) => self.contains_tile(cell_key(coordinate.0 as int, coordinate.1 as int))
                    && *t == self.tile_at(cell_key(coordinate.0 as int, coordinate.1 as int)),
                None => !self.contains_tile(cell_key(coordinate.0 as int, coordinate.1 as int)),
            },
    {
        let k = encode_cell(coordinate.0, coordinate.1);
        self.tile_map.get(&k)
    }

    /// Whether the cell `coordinate` holds a tile.
    pub fn contains(&self, coordinate: (i32, i32)) -> (r: bool)
        ensures
            r == self.contains_tile(cell_key(coordinate.0 as int, coordinate.1 as int)),
    {
        let k = encode_cell(coordinate.0, coordinate.1);
        self.tile_map.contains_key(&k)
    }
}

/// Records a wall tile discovered at world position `(pos_x, pos_y)`:
/// the position maps to the cell holding it, and the cell is classified
/// `Wall`.
pub fn insert_wall(tile_map: &mut TileGridMap, pos_x: i64, pos_y: i64, entity: u64)
    requires
        old(tile_map).wf(),
        -crate::grid::WORLD_LIMIT <= pos_x <= crate::grid::WORLD_LIMIT,
        -crate::grid::WORLD_LIMIT <= pos_y <= crate::grid::WORLD_LIMIT,
    ensures
        final(tile_map).wf(),
        final(tile_map).tile_map@ == old(tile_map).tile_map@.insert(
            cell_key(
                crate::grid::floor_div(pos_x - crate::grid::GRID_OFFSET, crate::grid::GRID_SIZE as int),
                crate::grid::floor_div(pos_y - crate::grid::GRID_OFFSET, crate::grid::GRID_SIZE as int),
            ),
            (entity, TileType::Wall),
        ),
{
    let cell = tile_cell_of_position(pos_x, pos_y);
    tile_map.insert(cell, entity, TileType::Wall);
}

/// Records a floor tile discovered at world position `(pos_x, pos_y)`.
pub fn insert_floor(tile_map: &mut TileGridMap, pos_x: i64, pos_y: i64, entity: u64)
    requires
        old(tile_map).wf(),
        -crate::grid::WORLD_LIMIT <= pos_x <= crate::grid::WORLD_LIMIT,
        -crate::grid::WORLD_LIMIT <= pos_y <= crate::grid::WORLD_LIMIT,
    ensures
        final(tile_map).wf(),
        final(tile_map).tile_map@ == old(tile_map).tile_map@.insert(
            cell_key(
                crate::grid::floor_div(pos_x - crate::grid::GRID_OFFSET, crate::grid::GRID_SIZE as int),
                crate::grid::floor_div(pos_y - crate::grid::GRID_OFFSET, crate::grid::GRID_SIZE as int),
            ),
            (entity, TileType::Floor),
        ),
{
    let cell = tile_cell_of_position(pos_x, pos_y);
    tile_map.insert(cell, entity, TileType::Floor);
}

/// The cell holding the world position `(pos_x, pos_y)`.
fn tile_cell_of_position(pos_x: i64, pos_y: i64) -> (cell: (i32, i32))
    requires
        -crate::grid::WORLD_LIMIT <= pos_x <= crate::grid::WORLD_LIMIT,
        -crate::grid::WORLD_LIMIT <= pos_y <= crate::grid::WORLD_LIMIT,
    ensures
        cell.0 == crate::grid::floor_div(
            pos_x - crate::grid::GRID_OFFSET,
            crate::grid::GRID_SIZE as int,
        ),
        cell.1 == crate::grid::floor_div(
            pos_y - crate::grid::GRID_OFFSET,
            crate::grid::GRID_SIZE as int,
        ),
        -COORD_LIMIT <= cell.0 <= COORD_LIMIT,
        -COORD_LIMIT <= cell.1 <= COORD_LIMIT,
{
    let x = crate::grid::floor_div_i64(pos_x - crate::grid::GRID_OFFSET, crate::grid::GRID_SIZE);
    let y = crate::grid::floor_div_i64(pos_y - crate::grid::GRID_OFFSET, crate::grid::GRID_SIZE);
    proof {
        lemma_tile_cell_bound(pos_x as int);
        lemma_tile_cell_bound(pos_y as int);
    }
    (x as i32, y as i32)
}

/// The mapped tile cell of a normalized position stays within
/// `COORD_LIMIT`.
proof fn lemma_tile_cell_bound(pos: int)
    requires
        -crate::grid::WORLD_LIMIT <= pos <= crate::grid::WORLD_LIMIT,
    ensures
        -COORD_LIMIT <= crate::grid::floor_div(
            pos - crate::grid::GRID_OFFSET,
            crate::grid::GRID_SIZE as int,
        ) <= COORD_LIMIT,
{
    let d = crate::grid::GRID_SIZE as int;
    let n = pos - crate::grid::GRID_OFFSET;
    crate::grid::lemma_floor_div_ordered(-10_000_008, n, d);
    crate::grid::lemma_floor_div_ordered(n, 10_000_000, d);
    assert((-10_000_008int) / 16 == -625001);
    assert(10_000_000int / 16 == 625000);
}

/// Cells other than `k` keep their entry and occupants.
proof fn lemma_delete_frame(pre: EntityGridMap, post: EntityGridMap, k: u64)
    requires
        forall|k2: u64|
            k2 != k ==> (#[trigger] pre.entity_map@.contains_key(k2)
                <==> post.entity_map@.contains_key(k2)),
        forall|k2: u64|
            k2 != k && pre.entity_map@.contains_key(k2) ==> #[trigger] pre.entity_map@[k2]
                == post.entity_map@[k2],
    ensures
        forall|k2: u64, f: u64|
            k2 != k ==> (#[trigger] post.occupies(k2, f) <==> pre.occupies(k2, f)),
        forall|k2: u64|
            k2 != k ==> (#[trigger] post.contains_cell(k2) <==> pre.contains_cell(k2)),
        forall|k2: u64|
            k2 != k && pre.contains_cell(k2) ==> #[trigger] post.occupants(k2) == pre.occupants(
                k2,
            ),
{
    assert forall|k2: u64| k2 != k implies (#[trigger] post.contains_cell(k2)
        <==> pre.contains_cell(k2)) by {
        assert(pre.entity_map@.contains_key(k2) <==> post.entity_map@.contains_key(k2));
    }
    assert forall|k2: u64, f: u64| k2 != k implies (#[trigger] post.occupies(k2, f)
        <==> pre.occupies(k2, f)) by {
        assert(pre.entity_map@.contains_key(k2) <==> post.entity_map@.contains_key(k2));
        if pre.contains_cell(k2) {
            assert(pre.entity_map@[k2] == post.entity_map@[k2]);
            assert(pre.occupants(k2) == post.occupants(k2));
        }
    }
}

/// Whether `entity` occurs in `entity_vec`.
pub fn contains_entity(entity_vec: &Vec<u64>, entity: u64) -> (r: bool)
    ensures
        r == entity_vec@.contains(entity),
{
    let mut i: usize = 0;
    while i < entity_vec.len()
        invariant
            i <= entity_vec@.len(),
            forall|j: int| 0 <= j < i ==> entity_vec@[j] != entity,
        decreases entity_vec@.len() - i,
    {
        if entity_vec[i] == entity {
            return true;
        }
        i += 1;
    }
    false
}

/// The occupant list with every occurrence of `entity` removed, order of
/// the rest preserved.
fn remove_entity(entity_vec: Vec<u64>, entity: u64) -> (r: Vec<u64>)
    requires
        entity_vec@.no_duplicates(),
    ensures
        r@.no_duplicates(),
        forall|f: u64| #[trigger]
            r@.contains(f) <==> (entity_vec@.contains(f) && f != entity),
    {
    let mut out: Vec<u64> = Vec::new();
    let mut i: usize = 0;
    while i < entity_vec.len()
        invariant
            i <= entity_vec@.len(),
            entity_vec@.no_duplicates(),
            out@.no_duplicates(),
            forall|f: u64| #[trigger]
                out@.contains(f) <==> ((exists|j: int|
                    0 <= j < i && entity_vec@[j] == f) && f != entity),
        decreases entity_vec@.len() - i,
    {
        let x = entity_vec[i];
        if x != entity {
            proof {
                if out@.contains(x) {
                    let j = choose|j: int| 0 <= j < i && entity_vec@[j] == x;
                    assert(entity_vec@[j] == entity_vec@[i as int]);
                }
            }
            let ghost prev = out@;
            out.push(x);
            proof {
                assert(out@ == prev.push(x));
                assert forall|f: u64| #[trigger]
                    out@.contains(f) implies ((exists|j: int|
                    0 <= j < i + 1 && entity_vec@[j] == f) && f != entity) by {
                    if f == x {
                        assert(entity_vec@[i as int] == f);
                    } else {
                        let idx = choose|idx: int| 0 <= idx < out@.len() && out@[idx] == f;
                        assert(prev[idx] == f);
                        assert(prev.contains(f));
                    }
                }
                assert forall|f: u64|
                    ((exists|j: int| 0 <= j < i + 1 && entity_vec@[j] == f) && f
                    != entity) implies #[trigger] out@.contains(f) by {
                    let j = choose|j: int| 0 <= j < i + 1 && entity_vec@[j] == f;
                    if j < i {
                        assert(prev.contains(f));
                        let idx = choose|idx: int| 0 <= idx < prev.len() && prev[idx] == f;
                        assert(out@[idx] == f);
                    } else {
                        assert(out@[out@.len() - 1] == f);
                    }
                }
                assert(out@.no_duplicates()) by {
                    assert(!prev.contains(x));
                    assert forall|p: int, q: int|
                        0 <= p < out@.len() && 0 <= q < out@.len() && p != q implies out@[p]
                        != out@[q] by {
                        if p < out@.len() - 1 && q < out@.len() - 1 {
                            assert(prev[p] == out@[p] && prev[q] == out@[q]);
                        } else if p == out@.len() - 1 && q < out@.len() - 1 {
                            assert(prev[q] == out@[q]);
                            assert(prev.contains(prev[q]));
                        } else if q == out@.len() - 1 && p < out@.len() - 1 {
                            assert(prev[p] == out@[p]);
                            assert(prev.contains(prev[p]));
                        }
                    }
                }
            }
        } else {
            proof {
                assert forall|f: u64| #[trigger]
                    out@.contains(f) implies ((exists|j: int|
                    0 <= j < i + 1 && entity_vec@[j] == f) && f != entity) by {}
                assert forall|f: u64|
                    ((exists|j: int| 0 <= j < i + 1 && entity_vec@[j] == f) && f
                    != entity) implies #[trigger] out@.contains(f) by {
                    let j = choose|j: int| 0 <= j < i + 1 && entity_vec@[j] == f;
                    assert(j < i);
                }
            }
        }
        i += 1;
    }
    proof {
        assert forall|f: u64| entity_vec@.contains(f) implies exists|j: int|
            0 <= j < entity_vec@.len() && entity_vec@[j] == f by {}
    }
    out
}

} // verus!
