//! Narrow-phase collision between a moving body and the solid tiles its
//! path crosses, and ground detection.
use vstd::prelude::*;

use crate::SUBDIV;
use crate::body::{
    PhysicsBody, PhysicsConfig, MoveInput, trunc_div, clamp_length_spec, input_velocity,
    input_direction, input_thrust, len_sq, lemma_square_mono,
    env_velocity, settled_velocity, moved_position,
};
use crate::geometry::{
    Vec2i, lemma_tile_index_bounds, tile_edge, spans_overlap, min_int, max_int, clamp_int, abs_int,
};
use crate::map::{GameMap, tile_spec, bounds_range, lemma_range_coverage_bounds};
use crate::tile::{TileCoord, TileData, coord_lt, in_rect};

verus! {

/// The face of a tile that a body meets.
#[derive(Clone, Copy, Debug, PartialEq, Eq, Structural)]
pub enum ContactSide {
    Left,
    Right,
    Top,
    Bottom,
}

/// One solid tile that a body's path crosses this tick.
#[derive(Clone, Copy, Debug, PartialEq, Eq, Structural)]
pub struct Contact {
    pub coord: TileCoord,
    pub side: ContactSide,
    /// Free distance between the body and that face before the move;
    /// negative when the body is already embedded.
    pub gap: i64,
    /// Whether the contact corrects velocity: false for a tile met only
    /// diagonally, whose box shares no span with the body's on either axis
    /// at the start of the tick.
    pub active: bool,
}

/// Box swept by the body over one tick: the union of its box before and
/// after moving by its velocity.
pub open spec fn swept_x0(b: PhysicsBody) -> int {
    min_int(b.position.x as int, b.position.x + b.velocity.x) - b.half_extents.x
}

pub open spec fn swept_x1(b: PhysicsBody) -> int {
    max_int(b.position.x as int, b.position.x + b.velocity.x) + b.half_extents.x
}

pub open spec fn swept_y0(b: PhysicsBody) -> int {
    min_int(b.position.y as int, b.position.y + b.velocity.y) - b.half_extents.y
}

pub open spec fn swept_y1(b: PhysicsBody) -> int {
    max_int(b.position.y as int, b.position.y + b.velocity.y) + b.half_extents.y
}

/// The swept box and the tile at `c` share interior area.
pub open spec fn crosses(b: PhysicsBody, c: TileCoord) -> bool {
    spans_overlap(swept_x0(b), swept_x1(b), tile_edge(c.x as int), tile_edge(c.x + 1))
        && spans_overlap(swept_y0(b), swept_y1(b), tile_edge(c.y as int), tile_edge(c.y + 1))
}

/// The body's box at centre `p` and the tile at `c` share interior area.
pub open spec fn box_overlaps(p: Vec2i, half: Vec2i, c: TileCoord) -> bool {
    spans_overlap(p.x - half.x, p.x + half.x, tile_edge(c.x as int), tile_edge(c.x + 1))
        && spans_overlap(p.y - half.y, p.y + half.y, tile_edge(c.y as int), tile_edge(c.y + 1))
}

/// Offset from the body's centre to the closest point of the tile's box.
pub open spec fn offset_x(b: PhysicsBody, c: TileCoord) -> int {
    clamp_int(b.position.x as int, tile_edge(c.x as int), tile_edge(c.x + 1)) - b.position.x
}

pub open spec fn offset_y(b: PhysicsBody, c: TileCoord) -> int {
    clamp_int(b.position.y as int, tile_edge(c.y as int), tile_edge(c.y + 1)) - b.position.y
}

/// Contact side: the horizontal offset dominates when it exceeds the
/// vertical one less half the difference of the body's height and width.
pub open spec fn side_of(b: PhysicsBody, c: TileCoord) -> ContactSide {
    let ox = offset_x(b, c);
    let oy = offset_y(b, c);
    if abs_int(ox) + b.half_extents.y > abs_int(oy) + b.half_extents.x {
        if ox < 0 {
            ContactSide::Right
        } else {
            ContactSide::Left
        }
    } else if oy < 0 {
        ContactSide::Top
    } else {
        ContactSide::Bottom
    }
}

/// Distance between the body's box and the given face of the tile.
pub open spec fn gap_of(b: PhysicsBody, c: TileCoord, side: ContactSide) -> int {
    match side {
        ContactSide::Top => (b.position.y - b.half_extents.y) - tile_edge(c.y + 1),
        ContactSide::Bottom => tile_edge(c.y as int) - (b.position.y + b.half_extents.y),
        ContactSide::Left => tile_edge(c.x as int) - (b.position.x + b.half_extents.x),
        ContactSide::Right => (b.position.x - b.half_extents.x) - tile_edge(c.x + 1),
    }
}

/// The body's box and the tile share a span on at least one axis before the
/// move, so the tile lies beside, above, below or inside the body rather
/// than only diagonally from it.
pub open spec fn aligned(b: PhysicsBody, c: TileCoord) -> bool {
    spans_overlap(
        b.position.x - b.half_extents.x,
        b.position.x + b.half_extents.x,
        tile_edge(c.x as int),
        tile_edge(c.x + 1),
    ) || spans_overlap(
        b.position.y - b.half_extents.y,
        b.position.y + b.half_extents.y,
        tile_edge(c.y as int),
        tile_edge(c.y + 1),
    )
}

pub open spec fn contact_of(b: PhysicsBody, c: TileCoord) -> Contact {
    Contact {
        coord: c,
        side: side_of(b, c),
        gap: gap_of(b, c, side_of(b, c)) as i64,
        active: aligned(b, c),
    }
}

/// Coordinates whose edges stay far from overflow.
pub open spec fn coord_small(c: TileCoord) -> bool {
    -0x1_0000 <= c.x <= 0x1_0000 && -0x1_0000 <= c.y <= 0x1_0000
}

fn edge(i: i32) -> (r: i64)
    requires
        -0x1_0001 <= i <= 0x1_0001,
    ensures
        r == tile_edge(i as int),
{
    (i as i64) * SUBDIV
}

/// The contact that the tile at `c` makes with the body.
pub fn classify(b: &PhysicsBody, c: &TileCoord) -> (r: Contact)
    requires
        b.wf(),
        coord_small(*c),
    ensures
        r == contact_of(*b, *c),
{
    let x0 = edge(c.x);
    let x1 = edge(c.x + 1);
    let y0 = edge(c.y);
    let y1 = edge(c.y + 1);
    let px = b.position.x;
    let py = b.position.y;
    let cx = if px < x0 { x0 } else if px > x1 { x1 } else { px };
    let cy = if py < y0 { y0 } else if py > y1 { y1 } else { py };
    let ox = cx - px;
    let oy = cy - py;
    let ax = if ox >= 0 { ox } else { -ox };
    let ay = if oy >= 0 { oy } else { -oy };
    let side = if ax + b.half_extents.y > ay + b.half_extents.x {
        if ox < 0 { ContactSide::Right } else { ContactSide::Left }
    } else if oy < 0 {
        ContactSide::Top
    } else {
        ContactSide::Bottom
    };
    let gap = match side {
        ContactSide::Top => (py - b.half_extents.y) - y1,
        ContactSide::Bottom => y0 - (py + b.half_extents.y),
        ContactSide::Left => x0 - (px + b.half_extents.x),
        ContactSide::Right => (px - b.half_extents.x) - x1,
    };
    let hx = b.half_extents.x;
    let hy = b.half_extents.y;
    let active = (px - hx < x1 && x0 < px + hx) || (py - hy < y1 && y0 < py + hy);
    Contact { coord: *c, side, gap, active }
}

/// Every solid tile that the body's swept box crosses this tick, each once,
/// with its contact side and gap.
pub fn collect_contacts(map: &GameMap, b: &PhysicsBody) -> (r: Vec<Contact>)
    requires
        map.wf(),
        b.wf(),
    ensures
        forall|k: int|
            0 <= k < r@.len() ==> #[trigger] r@[k] == contact_of(*b, r@[k].coord)
                && tile_spec(map@, r@[k].coord).solid && crosses(*b, r@[k].coord),
        forall|c: TileCoord|
            tile_spec(map@, c).solid && crosses(*b, c) ==> exists|k: int|
                0 <= k < r@.len() && #[trigger] r@[k].coord == c,
        forall|j: int, k: int| 0 <= j < k < r@.len() ==> r@[j].coord != r@[k].coord,
{
    let px = b.position.x;
    let py = b.position.y;
    let nx = px + b.velocity.x;
    let ny = py + b.velocity.y;
    let x0 = (if px <= nx { px } else { nx }) - b.half_extents.x;
    let x1 = (if px >= nx { px } else { nx }) + b.half_extents.x;
    let y0 = (if py <= ny { py } else { ny }) - b.half_extents.y;
    let y1 = (if py >= ny { py } else { ny }) + b.half_extents.y;
    let (lo, hi) = bounds_range(x0, y0, x1, y1);
    proof {
        lemma_tile_index_bounds(x0 as int);
        lemma_tile_index_bounds(y0 as int);
        lemma_tile_index_bounds(x1 as int);
        lemma_tile_index_bounds(y1 as int);
    }
    let cands = map.tiles_in_range(&lo, &hi);
    let mut out: Vec<Contact> = Vec::new();
    let ghost mut idx: Seq<int> = Seq::empty();
    let mut i: usize = 0;
    while i < cands.len()
        invariant
            map.wf(),
            b.wf(),
            x0 == swept_x0(*b),
            x1 == swept_x1(*b),
            y0 == swept_y0(*b),
            y1 == swept_y1(*b),
            0 <= i <= cands@.len(),
            -0x8000 <= lo.x && hi.x <= 0x8000 && -0x8000 <= lo.y && hi.y <= 0x8000,
            forall|k: int|
                0 <= k < cands@.len() ==> in_rect(#[trigger] cands@[k].0, lo, hi)
                    && map@.contains_key(cands@[k].0) && map@[cands@[k].0] == cands@[k].1,
            forall|j: int, k: int|
                0 <= j < k < cands@.len() ==> coord_lt(#[trigger] cands@[j].0, #[trigger] cands@[k].0),
            idx.len() == out@.len(),
            forall|k: int|
                0 <= k < idx.len() ==> 0 <= #[trigger] idx[k] < i && out@[k].coord == cands@[idx[k]].0,
            forall|k1: int, k2: int| 0 <= k1 < k2 < idx.len() ==> #[trigger] idx[k1] < #[trigger] idx[k2],
            forall|k: int|
                0 <= k < out@.len() ==> #[trigger] out@[k] == contact_of(*b, out@[k].coord)
                    && tile_spec(map@, out@[k].coord).solid && crosses(*b, out@[k].coord),
            forall|m: int|
                0 <= m < i && tile_spec(map@, (#[trigger] cands@[m]).0).solid && crosses(*b, cands@[m].0)
                    ==> exists|k: int| 0 <= k < idx.len() && idx[k] == m,
        decreases cands@.len() - i,
    {
        let (c, t) = cands[i];
        let ghost prev = idx;
        proof {
            assert(in_rect(cands@[i as int].0, lo, hi));
        }
        if t.solid {
            let tx0 = edge(c.x);
            let tx1 = edge(c.x + 1);
            let ty0 = edge(c.y);
            let ty1 = edge(c.y + 1);
            if x0 < tx1 && tx0 < x1 && y0 < ty1 && ty0 < y1 {
                let contact = classify(b, &c);
                out.push(contact);
                proof {
                    idx = idx.push(i as int);
                }
            }
        }
        proof {
            assert forall|m: int|
                0 <= m < i + 1 && tile_spec(map@, (#[trigger] cands@[m]).0).solid && crosses(*b, cands@[m].0)
                implies exists|k: int| 0 <= k < idx.len() && idx[k] == m by {
                if m < i {
                    let k = choose|k: int| 0 <= k < prev.len() && prev[k] == m;
                    assert(idx[k] == m);
                } else {
                    assert(idx[idx.len() - 1] == m);
                }
            }
        }
        i = i + 1;
    }
    proof {
        assert forall|c: TileCoord|
            tile_spec(map@, c).solid && crosses(*b, c) implies exists|k: int|
            0 <= k < out@.len() && #[trigger] out@[k].coord == c by {
            lemma_range_coverage_bounds(x0 as int, y0 as int, x1 as int, y1 as int, c);
            assert(map@.contains_key(c));
            let m = choose|m: int| 0 <= m < cands@.len() && #[trigger] cands@[m].0 == c;
            let k = choose|k: int| 0 <= k < idx.len() && idx[k] == m;
            assert(out@[k].coord == c);
        }
        assert forall|j: int, k: int| 0 <= j < k < out@.len() implies out@[j].coord != out@[k].coord by {
            assert(idx[j] < idx[k]);
            assert(coord_lt(cands@[idx[j]].0, cands@[idx[k]].0));
        }
    }
    out
}

/// Smallest gap among the active contacts on `side`, if any.
pub open spec fn min_gap(cs: Seq<Contact>, side: ContactSide) -> Option<int>
    decreases cs.len(),
{
    if cs.len() == 0 {
        None
    } else {
        let rest = min_gap(cs.drop_last(), side);
        let c = cs.last();
        if c.side != side || !c.active {
            rest
        } else {
            match rest {
                None => Some(c.gap as int),
                Some(g) => Some(min_int(g, c.gap as int)),
            }
        }
    }
}

/// New value of one velocity component, given the smallest gap of the
/// faces it moves toward: a free approach stops exactly at the nearest face;
/// an embedded body has the component reversed and damped.
pub open spec fn axis_response(v: int, gap: Option<int>, cfg: PhysicsConfig) -> int {
    match gap {
        None => v,
        Some(g) => if g >= 0 {
            if v < 0 { max_int(v, -g) } else { min_int(v, g) }
        } else {
            trunc_div(-v * cfg.damping_num, cfg.damping_den as int)
        },
    }
}

/// Velocity after the active contacts of one tick.  Moving left meets Right faces,
/// moving right meets Left faces, falling meets Top faces and rising meets
/// Bottom faces; each axis is corrected on its own, independently of the
/// order of the contacts.
pub open spec fn resolved_velocity(v: Vec2i, cs: Seq<Contact>, cfg: PhysicsConfig) -> Vec2i {
    let gx = if v.x < 0 {
        min_gap(cs, ContactSide::Right)
    } else if v.x > 0 {
        min_gap(cs, ContactSide::Left)
    } else {
        None
    };
    let gy = if v.y < 0 {
        min_gap(cs, ContactSide::Top)
    } else if v.y > 0 {
        min_gap(cs, ContactSide::Bottom)
    } else {
        None
    };
    Vec2i { x: axis_response(v.x as int, gx, cfg) as i64, y: axis_response(v.y as int, gy, cfg) as i64 }
}

fn fold_gap(acc: Option<i64>, c: &Contact, side: ContactSide) -> (r: Option<i64>)
    ensures
        c.side != side || !c.active ==> r == acc,
        c.side == side && c.active ==> r == (match acc {
            None => Some(c.gap),
            Some(g) => Some(if g <= c.gap { g } else { c.gap }),
        }),
{
    if c.side != side || !c.active {
        acc
    } else {
        match acc {
            None => Some(c.gap),
            Some(g) => Some(if g <= c.gap { g } else { c.gap }),
        }
    }
}

pub open spec fn opt_int(o: Option<i64>) -> Option<int> {
    match o {
        None => None,
        Some(g) => Some(g as int),
    }
}

/// One velocity component corrected against the smallest gap ahead.
fn respond_axis(v: i64, gap: Option<i64>, cfg: &PhysicsConfig) -> (r: i64)
    requires
        cfg.wf(),
        -0x40_0000 <= v <= 0x40_0000,
    ensures
        r == axis_response(v as int, opt_int(gap), *cfg),
        -0x40_0000 <= r <= 0x40_0000,
        v >= 0 ==> -v <= r <= v,
        v <= 0 ==> v <= r <= -v,
{
    match gap {
        None => v,
        Some(g) => if g >= 0 {
            if v < 0 {
                if v >= -g { v } else { -g }
            } else {
                if v <= g { v } else { g }
            }
        } else {
            let neg = -v;
            let d = if neg >= 0 {
                proof {
                    assert(0 <= neg * cfg.damping_num <= neg * cfg.damping_den) by (nonlinear_arith)
                        requires 0 <= neg, 0 <= cfg.damping_num <= cfg.damping_den;
                    assert(neg * cfg.damping_num / (cfg.damping_den as int) <= neg) by (nonlinear_arith)
                        requires 0 <= neg * cfg.damping_num <= neg * cfg.damping_den, cfg.damping_den > 0;
                    assert(neg * cfg.damping_num <= 0x40_0000 * 0x100) by (nonlinear_arith)
                        requires 0 <= neg <= 0x40_0000, 0 <= cfg.damping_num <= 0x100;
                }
                (neg * cfg.damping_num) / cfg.damping_den
            } else {
                let pos = v;
                proof {
                    assert(0 <= pos * cfg.damping_num <= pos * cfg.damping_den) by (nonlinear_arith)
                        requires 0 <= pos, 0 <= cfg.damping_num <= cfg.damping_den;
                    assert(pos * cfg.damping_num / (cfg.damping_den as int) <= pos) by (nonlinear_arith)
                        requires 0 <= pos * cfg.damping_num <= pos * cfg.damping_den, cfg.damping_den > 0;
                    assert(pos * cfg.damping_num <= 0x40_0000 * 0x100) by (nonlinear_arith)
                        requires 0 <= pos <= 0x40_0000, 0 <= cfg.damping_num <= 0x100;
                    assert(-(neg * cfg.damping_num) == pos * cfg.damping_num) by (nonlinear_arith)
                        requires neg == -pos;
                }
                -((pos * cfg.damping_num) / cfg.damping_den)
            };
            d
        },
    }
}

/// Corrects a velocity against this tick's contacts.
pub fn resolve_velocity(v: Vec2i, cs: &Vec<Contact>, cfg: &PhysicsConfig) -> (r: Vec2i)
    requires
        cfg.wf(),
        -0x40_0000 <= v.x <= 0x40_0000,
        -0x40_0000 <= v.y <= 0x40_0000,
    ensures
        r == resolved_velocity(v, cs@, *cfg),
        v.x >= 0 ==> -v.x <= r.x <= v.x,
        v.x <= 0 ==> v.x <= r.x <= -v.x,
        v.y >= 0 ==> -v.y <= r.y <= v.y,
        v.y <= 0 ==> v.y <= r.y <= -v.y,
        -0x40_0000 <= r.x <= 0x40_0000,
        -0x40_0000 <= r.y <= 0x40_0000,
{
    let mut left: Option<i64> = None;
    let mut right: Option<i64> = None;
    let mut top: Option<i64> = None;
    let mut bottom: Option<i64> = None;
    let mut i: usize = 0;
    while i < cs.len()
        invariant
            0 <= i <= cs@.len(),
            opt_int(left) == min_gap(cs@.take(i as int), ContactSide::Left),
            opt_int(right) == min_gap(cs@.take(i as int), ContactSide::Right),
            opt_int(top) == min_gap(cs@.take(i as int), ContactSide::Top),
            opt_int(bottom) == min_gap(cs@.take(i as int), ContactSide::Bottom),
        decreases cs@.len() - i,
    {
        let c = &cs[i];
        proof {
            assert(cs@.take(i + 1).drop_last() =~= cs@.take(i as int));
            assert(cs@.take(i + 1).last() == cs@[i as int]);
        }
        left = fold_gap(left, c, ContactSide::Left);
        right = fold_gap(right, c, ContactSide::Right);
        top = fold_gap(top, c, ContactSide::Top);
        bottom = fold_gap(bottom, c, ContactSide::Bottom);
        i = i + 1;
    }
    proof {
        assert(cs@.take(cs@.len() as int) =~= cs@);
    }
    let gx = if v.x < 0 { right } else if v.x > 0 { left } else { None };
    let gy = if v.y < 0 { top } else if v.y > 0 { bottom } else { None };
    let rx = respond_axis(v.x, gx, cfg);
    let ry = respond_axis(v.y, gy, cfg);
    Vec2i { x: rx, y: ry }
}

/// A body whose box overlaps a tile at any point of its path this tick,
/// start and end included, crosses that tile; `collect_contacts` then
/// reports it, so no solid tile is passed through.
pub proof fn lemma_no_tunneling(b: PhysicsBody, q: Vec2i, c: TileCoord)
    requires
        b.wf(),
        min_int(b.position.x as int, b.position.x + b.velocity.x) <= q.x,
        q.x <= max_int(b.position.x as int, b.position.x + b.velocity.x),
        min_int(b.position.y as int, b.position.y + b.velocity.y) <= q.y,
        q.y <= max_int(b.position.y as int, b.position.y + b.velocity.y),
        box_overlaps(q, b.half_extents, c),
    ensures
        crosses(b, c),
{
}

/// Approaching an isolated tile from directly above, below, left or right
/// gives a Top, Bottom, Left or Right contact.
pub proof fn lemma_contact_sides(b: PhysicsBody, c: TileCoord)
    requires
        b.wf(),
    ensures
        tile_edge(c.x as int) <= b.position.x <= tile_edge(c.x + 1)
            && b.position.y - b.half_extents.y >= tile_edge(c.y + 1) ==> side_of(b, c)
            == ContactSide::Top,
        tile_edge(c.x as int) <= b.position.x <= tile_edge(c.x + 1)
            && b.position.y + b.half_extents.y <= tile_edge(c.y as int) ==> side_of(b, c)
            == ContactSide::Bottom,
        tile_edge(c.y as int) <= b.position.y <= tile_edge(c.y + 1)
            && b.position.x + b.half_extents.x <= tile_edge(c.x as int) ==> side_of(b, c)
            == ContactSide::Left,
        tile_edge(c.y as int) <= b.position.y <= tile_edge(c.y + 1)
            && b.position.x - b.half_extents.x >= tile_edge(c.x + 1) ==> side_of(b, c)
            == ContactSide::Right,
{
    assert(tile_edge(c.x + 1) == tile_edge(c.x as int) + 65536) by (nonlinear_arith);
    assert(tile_edge(c.y + 1) == tile_edge(c.y as int) + 65536) by (nonlinear_arith);
}

/// The tile at `c` reaches into the strip of depth `probe` just below the
/// body's base.
pub open spec fn probe_hits(b: PhysicsBody, c: TileCoord, probe: int) -> bool {
    spans_overlap(
        b.position.x - b.half_extents.x,
        b.position.x + b.half_extents.x,
        tile_edge(c.x as int),
        tile_edge(c.x + 1),
    ) && spans_overlap(
        b.position.y - b.half_extents.y - probe,
        b.position.y - b.half_extents.y,
        tile_edge(c.y as int),
        tile_edge(c.y + 1),
    )
}

/// Grounded: some solid tile lies in the probe strip below the base, so the
/// surface met is an upward-facing one.
pub open spec fn on_ground(m: Map<TileCoord, TileData>, b: PhysicsBody, probe: int) -> bool {
    exists|c: TileCoord| #[trigger] tile_spec(m, c).solid && probe_hits(b, c, probe)
}

/// Probes downward from the body's base for solid ground.
pub fn is_grounded(map: &GameMap, b: &PhysicsBody, cfg: &PhysicsConfig) -> (r: bool)
    requires
        map.wf(),
        b.wf(),
        cfg.wf(),
    ensures
        r == on_ground(map@, *b, cfg.ground_probe as int),
{
    let x0 = b.position.x - b.half_extents.x;
    let x1 = b.position.x + b.half_extents.x;
    let y1 = b.position.y - b.half_extents.y;
    let y0 = y1 - cfg.ground_probe;
    let (lo, hi) = bounds_range(x0, y0, x1, y1);
    proof {
        lemma_tile_index_bounds(x0 as int);
        lemma_tile_index_bounds(y0 as int);
        lemma_tile_index_bounds(x1 as int);
        lemma_tile_index_bounds(y1 as int);
    }
    let cands = map.tiles_in_range(&lo, &hi);
    let mut i: usize = 0;
    while i < cands.len()
        invariant
            map.wf(),
            0 <= i <= cands@.len(),
            -0x8000 <= lo.x && hi.x <= 0x8000 && -0x8000 <= lo.y && hi.y <= 0x8000,
            x0 == b.position.x - b.half_extents.x,
            x1 == b.position.x + b.half_extents.x,
            y1 == b.position.y - b.half_extents.y,
            y0 == y1 - cfg.ground_probe,
            forall|k: int|
                0 <= k < cands@.len() ==> in_rect(#[trigger] cands@[k].0, lo, hi)
                    && map@.contains_key(cands@[k].0) && map@[cands@[k].0] == cands@[k].1,
            forall|m: int|
                0 <= m < i ==> !(tile_spec(map@, (#[trigger] cands@[m]).0).solid && probe_hits(
                    *b,
                    cands@[m].0,
                    cfg.ground_probe as int,
                )),
        decreases cands@.len() - i,
    {
        let (c, t) = cands[i];
        proof {
            assert(in_rect(cands@[i as int].0, lo, hi));
        }
        if t.solid {
            let tx0 = edge(c.x);
            let tx1 = edge(c.x + 1);
            let ty0 = edge(c.y);
            let ty1 = edge(c.y + 1);
            if x0 < tx1 && tx0 < x1 && y0 < ty1 && ty0 < y1 {
                assert(tile_spec(map@, c).solid && probe_hits(*b, c, cfg.ground_probe as int));
                return true;
            }
        }
        i = i + 1;
    }
    proof {
        assert forall|c: TileCoord| !(#[trigger] tile_spec(map@, c).solid && probe_hits(
            *b,
            c,
            cfg.ground_probe as int,
        )) by {
            if tile_spec(map@, c).solid && probe_hits(*b, c, cfg.ground_probe as int) {
                lemma_range_coverage_bounds(x0 as int, y0 as int, x1 as int, y1 as int, c);
                assert(map@.contains_key(c));
                let m = choose|m: int| 0 <= m < cands@.len() && #[trigger] cands@[m].0 == c;
                assert(cands@[m].0 == c);
            }
        }
    }
    false
}

/// Velocity after the acceleration stages of a tick, before contacts:
/// drag and gravity, then input, then the speed cap.
pub open spec fn driven_velocity(v: Vec2i, input: MoveInput, grounded: bool, cfg: PhysicsConfig) -> Vec2i {
    clamp_length_spec(input_velocity(env_velocity(v, cfg), input, grounded, cfg), cfg.velocity_max as int)
}

/// Runs one fixed tick for a body, in order: drag and gravity, input,
/// speed cap, settling of slow components, collision correction against the
/// contacts of its swept path, and position integration.  Returns the
/// contacts that were met.
pub fn fixed_step(
    map: &GameMap,
    body: &mut PhysicsBody,
    input: &MoveInput,
    grounded: bool,
    cfg: &PhysicsConfig,
) -> (r: Vec<Contact>)
    requires
        map.wf(),
        old(body).wf(),
        cfg.wf(),
    ensures
        final(body).wf(),
        final(body).half_extents == old(body).half_extents,
        ({
            let moving = PhysicsBody {
                velocity: settled_velocity(
                    driven_velocity(old(body).velocity, *input, grounded, *cfg),
                    *input,
                    *cfg,
                ),
                ..*old(body)
            };
            &&& forall|k: int|
                0 <= k < r@.len() ==> #[trigger] r@[k] == contact_of(moving, r@[k].coord)
                    && tile_spec(map@, r@[k].coord).solid && crosses(moving, r@[k].coord)
            &&& forall|c: TileCoord|
                tile_spec(map@, c).solid && crosses(moving, c) ==> exists|k: int|
                    0 <= k < r@.len() && #[trigger] r@[k].coord == c
            &&& forall|j: int, k: int| 0 <= j < k < r@.len() ==> r@[j].coord != r@[k].coord
            &&& final(body).velocity == resolved_velocity(moving.velocity, r@, *cfg)
            &&& final(body).position == moved_position(old(body).position, final(body).velocity)
        }),
{
    body.accel_env(cfg);
    body.accel_input(input, grounded, cfg);
    body.velocity_cap(cfg);
    body.settle(input, cfg);
    let contacts = collect_contacts(map, body);
    let v = resolve_velocity(body.velocity, &contacts, cfg);
    body.velocity = v;
    body.position_update();
    contacts
}

/// A purely horizontal approach gets no vertical correction, whatever the
/// contacts: only the axis that moves toward a face is corrected.
pub proof fn lemma_axis_independent(v: Vec2i, cs: Seq<Contact>, cfg: PhysicsConfig)
    ensures
        v.y == 0 ==> resolved_velocity(v, cs, cfg).y == 0,
        v.x == 0 ==> resolved_velocity(v, cs, cfg).x == 0,
{
}

/// No movement key and no jump is held.
pub open spec fn idle_input(input: MoveInput) -> bool {
    !input.left && !input.right && !input.up && !input.down && !input.jump
}

proof fn lemma_min_top_gap(cs: Seq<Contact>)
    requires
        forall|k: int|
            0 <= k < cs.len() && (#[trigger] cs[k]).side == ContactSide::Top && cs[k].active
                ==> cs[k].gap >= 0,
    ensures
        min_gap(cs, ContactSide::Top) matches Some(g) ==> g >= 0,
        (exists|k: int|
            0 <= k < cs.len() && (#[trigger] cs[k]).side == ContactSide::Top && cs[k].active
                && cs[k].gap == 0) ==> min_gap(cs, ContactSide::Top) == Some(0int),
    decreases cs.len(),
{
    if cs.len() > 0 {
        let rest = cs.drop_last();
        assert forall|k: int|
            0 <= k < rest.len() && (#[trigger] rest[k]).side == ContactSide::Top && rest[k].active
                implies rest[k].gap >= 0 by {
            assert(rest[k] == cs[k]);
        }
        lemma_min_top_gap(rest);
        if exists|k: int|
            0 <= k < cs.len() && (#[trigger] cs[k]).side == ContactSide::Top && cs[k].active
                && cs[k].gap == 0 {
            let k = choose|k: int|
                0 <= k < cs.len() && (#[trigger] cs[k]).side == ContactSide::Top && cs[k].active
                    && cs[k].gap == 0;
            if k < cs.len() - 1 {
                assert(rest[k] == cs[k]);
            }
        }
    }
}

/// A body at rest on top of a solid tile, touching it but overlapping no
/// solid tile, with no key held, stays where it is with zero velocity over
/// a tick: the contacts of the tick stop gravity exactly at the surface.
pub proof fn lemma_resting_body_stays(
    m: Map<TileCoord, TileData>,
    b: PhysicsBody,
    c: TileCoord,
    cs: Seq<Contact>,
    input: MoveInput,
    grounded: bool,
    cfg: PhysicsConfig,
)
    requires
        b.wf(),
        cfg.wf(),
        cfg.gravity <= cfg.velocity_max,
        b.velocity == (Vec2i { x: 0, y: 0 }),
        idle_input(input),
        tile_spec(m, c).solid,
        spans_overlap(
            b.position.x - b.half_extents.x,
            b.position.x + b.half_extents.x,
            tile_edge(c.x as int),
            tile_edge(c.x + 1),
        ),
        b.position.y - b.half_extents.y == tile_edge(c.y + 1),
        forall|d: TileCoord| #[trigger] tile_spec(m, d).solid ==> !box_overlaps(b.position, b.half_extents, d),
        ({
            let moving = PhysicsBody {
                velocity: settled_velocity(driven_velocity(b.velocity, input, grounded, cfg), input, cfg),
                ..b
            };
            &&& forall|k: int|
                0 <= k < cs.len() ==> #[trigger] cs[k] == contact_of(moving, cs[k].coord)
                    && tile_spec(m, cs[k].coord).solid && crosses(moving, cs[k].coord)
            &&& forall|d: TileCoord|
                tile_spec(m, d).solid && crosses(moving, d) ==> exists|k: int|
                    0 <= k < cs.len() && #[trigger] cs[k].coord == d
        }),
    ensures
        ({
            let moving = PhysicsBody {
                velocity: settled_velocity(driven_velocity(b.velocity, input, grounded, cfg), input, cfg),
                ..b
            };
            let v = resolved_velocity(moving.velocity, cs, cfg);
            &&& v == (Vec2i { x: 0, y: 0 })
            &&& moved_position(b.position, v) == b.position
        }),
{
    let g = cfg.gravity as int;
    let zero = Vec2i { x: 0, y: 0 };
    assert(trunc_div(0, cfg.drag_divisor as int) == 0);
    assert(env_velocity(zero, cfg) == (Vec2i { x: 0, y: (-g) as i64 }));
    assert(input_direction(input) == zero);
    assert(cfg.input_accel * cfg.input_accel >= 0) by (nonlinear_arith);
    assert(len_sq(zero) == 0) by (nonlinear_arith)
        requires zero.x == 0, zero.y == 0;
    assert(input_thrust(input, cfg) == zero);
    let falling = Vec2i { x: 0, y: (-g) as i64 };
    assert(input_velocity(env_velocity(zero, cfg), input, grounded, cfg) == falling);
    lemma_square_mono(g, cfg.velocity_max as int);
    assert(len_sq(falling) == g * g) by (nonlinear_arith)
        requires falling.x == 0, falling.y == -g;
    assert(driven_velocity(b.velocity, input, grounded, cfg) == falling);
    let moving = PhysicsBody {
        velocity: settled_velocity(falling, input, cfg),
        ..b
    };
    if moving.velocity.y != 0 {
        assert(moving.velocity == falling);
        assert(g > 0);
        assert(tile_edge(c.y + 1) == tile_edge(c.y as int) + 65536) by (nonlinear_arith);
        assert(tile_edge(c.x + 1) == tile_edge(c.x as int) + 65536) by (nonlinear_arith);
        assert(crosses(moving, c));
        let k0 = choose|k: int| 0 <= k < cs.len() && #[trigger] cs[k].coord == c;
        assert(cs[k0] == contact_of(moving, c));
        assert(side_of(moving, c) == ContactSide::Top);
        assert(cs[k0].side == ContactSide::Top && cs[k0].active && cs[k0].gap == 0);
        assert forall|k: int|
            0 <= k < cs.len() && (#[trigger] cs[k]).side == ContactSide::Top && cs[k].active
                implies cs[k].gap >= 0 by {
            let d = cs[k].coord;
            assert(cs[k] == contact_of(moving, d));
            assert(tile_spec(m, d).solid);
            assert(!box_overlaps(b.position, b.half_extents, d));
            assert(tile_edge(d.y + 1) == tile_edge(d.y as int) + 65536) by (nonlinear_arith);
            assert(tile_edge(d.x + 1) == tile_edge(d.x as int) + 65536) by (nonlinear_arith);
        }
        lemma_min_top_gap(cs);
    }
}

} // verus!
