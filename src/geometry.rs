//! Fixed-point vectors, axis-aligned boxes and conversion to tile indices.
use vstd::prelude::*;

use crate::{SUBDIV, WORLD_LIMIT, HALF_LIMIT, VEL_LIMIT};

verus! {

/// A 2D vector in fixed-point sub-units.
#[derive(Clone, Copy, Debug, PartialEq, Eq, Structural)]
pub struct Vec2i {
    pub x: i64,
    pub y: i64,
}

impl Vec2i {
    pub fn new(x: i64, y: i64) -> (r: Vec2i)
        ensures
            r.x == x,
            r.y == y,
    {
        Vec2i { x, y }
    }
}

/// Largest magnitude accepted by the tile conversions.
pub open spec fn coord_range(v: int) -> bool {
    -0x1_0000_0000 <= v <= 0x1_0000_0000
}

/// Index of the tile column (or row) holding world coordinate `v`.
pub open spec fn floor_tile_spec(v: int) -> int {
    v / (SUBDIV as int)
}

/// Smallest tile index whose lower edge is at or beyond `v`.
pub open spec fn ceil_tile_spec(v: int) -> int {
    -((-v) / (SUBDIV as int))
}

/// Rounds a world coordinate down to a tile index.
pub fn floor_tile(v: i64) -> (r: i32)
    requires
        coord_range(v as int),
    ensures
        r as int == floor_tile_spec(v as int),
{
    if v >= 0 {
        (v / SUBDIV) as i32
    } else {
        let n: i64 = -v;
        let q: i64 = (n + (SUBDIV - 1)) / SUBDIV;
        (-q) as i32
    }
}

/// Rounds a world coordinate up to a tile index.
pub fn ceil_tile(v: i64) -> (r: i32)
    requires
        coord_range(v as int),
    ensures
        r as int == ceil_tile_spec(v as int),
{
    let f: i32 = floor_tile(-v);
    -f
}

/// Lower edge, in sub-units, of tile index `i`.
pub open spec fn tile_edge(i: int) -> int {
    i * SUBDIV as int
}

/// Open intervals `(a0, a1)` and `(b0, b1)` share a point.
pub open spec fn spans_overlap(a0: int, a1: int, b0: int, b1: int) -> bool {
    a0 < b1 && b0 < a1
}

/// A body position with bounded extents and velocity.
pub open spec fn body_ranges(position: Vec2i, velocity: Vec2i, half: Vec2i) -> bool {
    &&& -WORLD_LIMIT <= position.x <= WORLD_LIMIT
    &&& -WORLD_LIMIT <= position.y <= WORLD_LIMIT
    &&& 0 < half.x <= HALF_LIMIT
    &&& 0 < half.y <= HALF_LIMIT
    &&& -VEL_LIMIT <= velocity.x <= VEL_LIMIT
    &&& -VEL_LIMIT <= velocity.y <= VEL_LIMIT
}

pub open spec fn min_int(a: int, b: int) -> int {
    if a <= b { a } else { b }
}

pub open spec fn max_int(a: int, b: int) -> int {
    if a >= b { a } else { b }
}

pub open spec fn abs_int(a: int) -> int {
    if a >= 0 { a } else { -a }
}

pub open spec fn clamp_int(v: int, lo: int, hi: int) -> int {
    if v < lo { lo } else if v > hi { hi } else { v }
}

/// Tile indices of the tiles that a strictly positive overlap with `[a, b]`
/// can touch lie between the floor of `a` and the ceiling of `b`.
pub proof fn lemma_tile_span(a: int, b: int, i: int)
    requires
        spans_overlap(a, b, tile_edge(i), tile_edge(i + 1)),
    ensures
        floor_tile_spec(a) <= i <= ceil_tile_spec(b),
{
    let s = SUBDIV as int;
    assert((i + 1) * s == i * s + s) by (nonlinear_arith);
    let fa = a / s;
    assert(fa * s <= a) by (nonlinear_arith)
        requires fa == a / s, s == 65536;
    if fa > i {
        assert(fa * s >= (i + 1) * s) by (nonlinear_arith)
            requires fa >= i + 1, s == 65536;
    }
    let q = (-b) / s;
    assert(q * s <= -b && -b < q * s + s) by (nonlinear_arith)
        requires q == (-b) / s, s == 65536;
    if -q < i {
        assert(i * s >= (-q + 1) * s) by (nonlinear_arith)
            requires i >= -q + 1, s == 65536;
    }
}

/// Tile indices of coordinates within `2^31` sub-units stay within `2^15`.
pub proof fn lemma_tile_index_bounds(v: int)
    requires
        -0x8000_0000 <= v <= 0x8000_0000,
    ensures
        -0x8000 <= floor_tile_spec(v) <= 0x8000,
        -0x8000 <= ceil_tile_spec(v) <= 0x8000,
{
    assert(-0x8000 <= v / 65536 <= 0x8000) by (nonlinear_arith)
        requires -0x8000_0000 <= v <= 0x8000_0000;
    assert(-0x8000 <= (-v) / 65536 <= 0x8000) by (nonlinear_arith)
        requires -0x8000_0000 <= v <= 0x8000_0000;
}

} // verus!
