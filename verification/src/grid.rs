//! The world grid: cell coordinates, the integer bounding box an entity
//! occupies, and the mapper from world positions to cell boxes.

use vstd::prelude::*;

verus! {

/// Width and height of one grid cell, in world units.
pub const GRID_SIZE: i64 = 16;

/// Shift that centers cell `(0, 0)` on the world origin: an entity whose
/// cell box is exactly `(0, 0)` stands at world position `(GRID_OFFSET,
/// GRID_OFFSET)`.
pub const GRID_OFFSET: i64 = 8;

/// Largest magnitude of a cell coordinate the index works with.  Positions
/// are normalized before they reach the grid, so this bound is generous;
/// it keeps the `+ 1` / `- 1` steps of range computations inside `i32`.
pub const COORD_LIMIT: i32 = 1_000_000;

/// Largest magnitude of a world position handed to the mapper.
pub const WORLD_LIMIT: i64 = 10_000_000;

/// Largest half-extent of an entity handed to the mapper.
pub const EXTENT_LIMIT: i64 = 1_000_000;

/// A cell `(x, y)` packed into one `u64` key, shifting each signed
/// coordinate into `[0, 2^32)` first.  The packing is a bijection between
/// pairs of `i32` values and `u64` keys.
pub open spec fn cell_key(x: int, y: int) -> u64 {
    (((x + 0x8000_0000) * 0x1_0000_0000) + (y + 0x8000_0000)) as u64
}

/// The x cell coordinate packed into the key `k`.
pub open spec fn key_x(k: u64) -> int {
    (k as int) / 0x1_0000_0000 - 0x8000_0000
}

/// The y cell coordinate packed into the key `k`.
pub open spec fn key_y(k: u64) -> int {
    (k as int) % 0x1_0000_0000 - 0x8000_0000
}

/// Whether `(x, y)` is representable as a pair of `i32` cell coordinates.
pub open spec fn cell_in_range(x: int, y: int) -> bool {
    &&& i32::MIN <= x <= i32::MAX
    &&& i32::MIN <= y <= i32::MAX
}

/// Packing then unpacking a cell gives the cell back.
pub proof fn lemma_cell_key_inverse(x: int, y: int)
    requires
        cell_in_range(x, y),
    ensures
        key_x(cell_key(x, y)) == x,
        key_y(cell_key(x, y)) == y,
{
    let a = x + 0x8000_0000;
    let b = y + 0x8000_0000;
    assert(0 <= a < 0x1_0000_0000);
    assert(0 <= b < 0x1_0000_0000);
    assert(0 <= a * 0x1_0000_0000 + b < 0x1_0000_0000_0000_0000_0000_0000_0000_0000) by (nonlinear_arith)
        requires
            0 <= a < 0x1_0000_0000,
            0 <= b < 0x1_0000_0000,
    ;
    assert(a * 0x1_0000_0000 + b <= 0xffff_ffff_ffff_ffff) by (nonlinear_arith)
        requires
            0 <= a <= 0xffff_ffff,
            0 <= b <= 0xffff_ffff,
    ;
    assert(cell_key(x, y) as int == a * 0x1_0000_0000 + b);
    assert((a * 0x1_0000_0000 + b) / 0x1_0000_0000 == a && (a * 0x1_0000_0000 + b)
        % 0x1_0000_0000 == b) by (nonlinear_arith)
        requires
            0 <= b < 0x1_0000_0000,
    ;
}

/// Unpacking then packing a key gives the key back, and the unpacked
/// coordinates always lie in `i32` range.
pub proof fn lemma_key_roundtrip(k: u64)
    ensures
        cell_in_range(key_x(k), key_y(k)),
        cell_key(key_x(k), key_y(k)) == k,
{
    let n = k as int;
    assert(n / 0x1_0000_0000 * 0x1_0000_0000 + n % 0x1_0000_0000 == n && 0 <= n % 0x1_0000_0000
        < 0x1_0000_0000 && 0 <= n / 0x1_0000_0000 < 0x1_0000_0000) by (nonlinear_arith)
        requires
            0 <= n < 0x1_0000_0000_0000_0000,
    ;
}

/// Packs the cell `(x, y)` into its `u64` key.
pub fn encode_cell(x: i32, y: i32) -> (k: u64)
    ensures
        k == cell_key(x as int, y as int),
{
    let xs: u64 = ((x as i64) + 0x8000_0000) as u64;
    let ys: u64 = ((y as i64) + 0x8000_0000) as u64;
    proof {
        assert(xs * 0x1_0000_0000 + ys <= 0xffff_ffff_ffff_ffff) by (nonlinear_arith)
            requires
                0 <= xs <= 0xffff_ffff,
                0 <= ys <= 0xffff_ffff,
        ;
    }
    xs * 0x1_0000_0000 + ys
}

/// The axis-aligned box of grid cells an entity occupies, in inclusive
/// cell coordinates.  Owned by the entity it describes and recomputed
/// whenever the entity's world position changes.
#[derive(Clone, Copy, PartialEq, Eq, Structural, Debug)]
pub struct Coordinate {
    pub min_x: i32,
    pub min_y: i32,
    pub max_x: i32,
    pub max_y: i32,
}

impl Coordinate {
    /// A box is well formed when each minimum does not exceed its maximum.
    pub open spec fn wf(self) -> bool {
        self.min_x <= self.max_x && self.min_y <= self.max_y
    }

    /// All four corners lie within `COORD_LIMIT`.
    pub open spec fn bounded(self) -> bool {
        &&& -COORD_LIMIT <= self.min_x <= COORD_LIMIT
        &&& -COORD_LIMIT <= self.min_y <= COORD_LIMIT
        &&& -COORD_LIMIT <= self.max_x <= COORD_LIMIT
        &&& -COORD_LIMIT <= self.max_y <= COORD_LIMIT
    }

    /// Whether the cell `(x, y)` lies inside this box.
    pub open spec fn covers(self, x: int, y: int) -> bool {
        &&& self.min_x <= x <= self.max_x
        &&& self.min_y <= y <= self.max_y
    }

    /// Builds a box from its four corners.
    pub fn new(min_x: i32, min_y: i32, max_x: i32, max_y: i32) -> (c: Coordinate)
        ensures
            c == (Coordinate { min_x, min_y, max_x, max_y }),
    {
        Coordinate { min_x, min_y, max_x, max_y }
    }
}

/// `n / d` rounded toward negative infinity (`d > 0`).
pub open spec fn floor_div(n: int, d: int) -> int {
    n / d
}

/// `n / d` rounded toward positive infinity (`d > 0`).
pub open spec fn ceil_div(n: int, d: int) -> int {
    -((-n) / d)
}

/// Rounding up equals rounding the shifted numerator down (`d > 0`).
pub proof fn lemma_ceil_div_as_floor(n: int, d: int)
    requires
        d > 0,
    ensures
        ceil_div(n, d) == floor_div(n + d - 1, d),
{
    let q = (n + d - 1) / d;
    let r = (n + d - 1) % d;
    vstd::arithmetic::div_mod::lemma_fundamental_div_mod(n + d - 1, d);
    vstd::arithmetic::div_mod::lemma_mod_bound(n + d - 1, d);
    vstd::arithmetic::div_mod::lemma_fundamental_div_mod(-n, d);
    vstd::arithmetic::div_mod::lemma_mod_bound(-n, d);
    assert((-n) / d == -q) by (nonlinear_arith)
        requires
            d > 0,
            0 <= r < d,
            n + d - 1 == q * d + r,
            -n == d * ((-n) / d) + (-n) % d,
            0 <= (-n) % d < d,
    ;
}

/// Dividing a nonpositive number by a positive divisor does not decrease it.
pub proof fn lemma_div_lower_bound(x: int, d: int)
    requires
        x <= 0,
        d >= 1,
    ensures
        x / d >= x,
{
    vstd::arithmetic::div_mod::lemma_fundamental_div_mod(x, d);
    vstd::arithmetic::div_mod::lemma_mod_bound(x, d);
    assert(x / d >= x) by (nonlinear_arith)
        requires
            x <= 0,
            d >= 1,
            x == d * (x / d) + x % d,
            0 <= x % d < d,
    ;
}

/// Floor division by a positive divisor is monotone in the numerator.
pub proof fn lemma_floor_div_ordered(a: int, b: int, d: int)
    requires
        a <= b,
        d > 0,
    ensures
        floor_div(a, d) <= floor_div(b, d),
{
    vstd::arithmetic::div_mod::lemma_div_is_ordered(a, b, d);
}

/// `n / d` rounded toward negative infinity, for numerators up to
/// `WORLD_LIMIT + EXTENT_LIMIT + GRID_SIZE` in magnitude.
pub fn floor_div_i64(n: i64, d: i64) -> (q: i64)
    requires
        0 < d <= 0x1_0000,
        -0x1_0000_0000 <= n <= 0x1_0000_0000,
    ensures
        q == floor_div(n as int, d as int),
{
    let shift: i64 = 0x1_0000_0000;
    let num: u64 = (n + shift * d) as u64;
    let quot: u64 = num / (d as u64);
    proof {
        vstd::arithmetic::div_mod::lemma_hoist_over_denominator(n as int, shift as int, d as nat);
        assert(num as int / d as int == n as int / d as int + shift) by {
            assert(num as int == n + shift * d);
        }
        assert(0 <= n as int / d as int + shift <= 0x2_0000_0000) by {
            vstd::arithmetic::div_mod::lemma_div_is_ordered(-0x1_0000_0000, n as int, d as int);
            vstd::arithmetic::div_mod::lemma_div_is_ordered(n as int, 0x1_0000_0000, d as int);
            lemma_div_lower_bound(-0x1_0000_0000, d as int);
            assert(0x1_0000_0000int / d as int <= 0x1_0000_0000) by (nonlinear_arith)
                requires
                    d >= 1,
            ;
        }
    }
    (quot as i64) - shift
}

/// `n / d` rounded toward positive infinity, under the same bounds.
pub fn ceil_div_i64(n: i64, d: i64) -> (q: i64)
    requires
        0 < d <= 0x1_0000,
        -0x1_0000_0000 <= n,
        n + d <= 0x1_0000_0000,
    ensures
        q == ceil_div(n as int, d as int),
{
    proof {
        lemma_ceil_div_as_floor(n as int, d as int);
    }
    floor_div_i64(n + d - 1, d)
}

/// Maps a world position and half-extents to the box of cells the entity
/// covers:
///
/// * `min = ceil((pos - GRID_OFFSET - half) / GRID_SIZE)`
/// * `max = floor((pos - GRID_OFFSET + half) / GRID_SIZE)`
///
/// on each axis.  Inputs are assumed normalized (`WORLD_LIMIT`,
/// `EXTENT_LIMIT`); no clamping is performed, so far-away positions map to
/// cells outside any populated region.  An entity must span at least one
/// cell (`2 * half + 1 >= GRID_SIZE`), which keeps the box well formed.
pub fn compute_bbox(pos_x: i64, pos_y: i64, half_w: i64, half_h: i64) -> (c: Coordinate)
    requires
        -WORLD_LIMIT <= pos_x <= WORLD_LIMIT,
        -WORLD_LIMIT <= pos_y <= WORLD_LIMIT,
        0 <= half_w <= EXTENT_LIMIT,
        0 <= half_h <= EXTENT_LIMIT,
        2 * half_w + 1 >= GRID_SIZE,
        2 * half_h + 1 >= GRID_SIZE,
    ensures
        c.min_x == ceil_div(pos_x - GRID_OFFSET - half_w, GRID_SIZE as int),
        c.max_x == floor_div(pos_x - GRID_OFFSET + half_w, GRID_SIZE as int),
        c.min_y == ceil_div(pos_y - GRID_OFFSET - half_h, GRID_SIZE as int),
        c.max_y == floor_div(pos_y - GRID_OFFSET + half_h, GRID_SIZE as int),
        c.wf(),
        c.bounded(),
{
    let min_x = ceil_div_i64(pos_x - GRID_OFFSET - half_w, GRID_SIZE);
    let max_x = floor_div_i64(pos_x - GRID_OFFSET + half_w, GRID_SIZE);
    let min_y = ceil_div_i64(pos_y - GRID_OFFSET - half_h, GRID_SIZE);
    let max_y = floor_div_i64(pos_y - GRID_OFFSET + half_h, GRID_SIZE);
    proof {
        lemma_axis_bbox(pos_x as int, half_w as int);
        lemma_axis_bbox(pos_y as int, half_h as int);
    }
    Coordinate { min_x: min_x as i32, min_y: min_y as i32, max_x: max_x as i32, max_y: max_y as i32 }
}

/// On one axis, the mapped minimum does not exceed the mapped maximum and
/// both stay within `COORD_LIMIT`.
proof fn lemma_axis_bbox(pos: int, half: int)
    requires
        -WORLD_LIMIT <= pos <= WORLD_LIMIT,
        0 <= half <= EXTENT_LIMIT,
        2 * half + 1 >= GRID_SIZE,
    ensures
        ceil_div(pos - GRID_OFFSET - half, GRID_SIZE as int) <= floor_div(
            pos - GRID_OFFSET + half,
            GRID_SIZE as int,
        ),
        -COORD_LIMIT <= ceil_div(pos - GRID_OFFSET - half, GRID_SIZE as int) <= COORD_LIMIT,
        -COORD_LIMIT <= floor_div(pos - GRID_OFFSET + half, GRID_SIZE as int) <= COORD_LIMIT,
{
    let d = GRID_SIZE as int;
    let lo = pos - GRID_OFFSET - half;
    let hi = pos - GRID_OFFSET + half;
    lemma_ceil_div_as_floor(lo, d);
    lemma_floor_div_ordered(lo + d - 1, hi, d);
    // Bounds: |lo| and |hi| are at most WORLD_LIMIT + GRID_OFFSET + EXTENT_LIMIT.
    let m = WORLD_LIMIT + GRID_OFFSET + EXTENT_LIMIT;
    lemma_floor_div_ordered(-m, lo + d - 1, d);
    lemma_floor_div_ordered(lo + d - 1, m + d, d);
    lemma_floor_div_ordered(-m, hi, d);
    lemma_floor_div_ordered(hi, m, d);
    assert((-m) / d >= -COORD_LIMIT && (m + d) / d <= COORD_LIMIT && m / d <= COORD_LIMIT);
}

} // verus!
