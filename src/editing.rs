//! Edits of the map through world-space interaction: time-gated breaking
//! and placement.
use vstd::prelude::*;

use crate::body::PhysicsConfig;
use crate::geometry::{Vec2i, floor_tile_spec};
use crate::map::{GameMap, tile_spec, with_tile, entries_valid, point_in_range, point_tile};
use crate::tile::{TileCoord, TileData, DEFAULT_MATERIAL};

verus! {

/// A tile partway through being broken: its coordinate and the ticks of
/// destruction held on it since the first one.
#[derive(Clone, Copy, Debug, PartialEq, Eq, Structural)]
pub struct BreakProgress {
    pub coord: TileCoord,
    pub elapsed: u32,
}

/// Progress never runs past the threshold that commits it.
pub open spec fn progress_valid(p: Option<BreakProgress>, threshold: int) -> bool {
    match p {
        None => true,
        Some(bp) => bp.elapsed <= threshold,
    }
}

/// What a broken tile becomes: no block, background kept.
pub open spec fn broken(t: TileData) -> TileData {
    TileData { fg_id: 0, bg_id: t.bg_id, solid: false }
}

/// One tick of destruction aimed at `c`: the new map, the new progress and
/// the material picked up, if the tile broke.  Empty space cannot be
/// broken; a new target starts from zero; the same target advances by one
/// tick and breaks once the threshold is reached.
pub open spec fn destroy_spec(
    m: Map<TileCoord, TileData>,
    p: Option<BreakProgress>,
    c: TileCoord,
    threshold: int,
) -> (Map<TileCoord, TileData>, Option<BreakProgress>, Option<u16>) {
    let t = tile_spec(m, c);
    if !t.solid {
        (m, None, None)
    } else {
        match p {
            Some(bp) => if bp.coord == c {
                if bp.elapsed + 1 >= threshold {
                    (with_tile(m, c, broken(t)), None, Some(t.fg_id))
                } else {
                    (m, Some(BreakProgress { coord: c, elapsed: (bp.elapsed + 1) as u32 }), None)
                }
            } else {
                (m, Some(BreakProgress { coord: c, elapsed: 0 }), None)
            },
            None => (m, Some(BreakProgress { coord: c, elapsed: 0 }), None),
        }
    }
}

/// Placement at `c`: the default material fills an empty cell, keeping its
/// background; an occupied cell is left alone.
pub open spec fn place_spec(m: Map<TileCoord, TileData>, c: TileCoord) -> Map<TileCoord, TileData> {
    let t = tile_spec(m, c);
    if t.solid {
        m
    } else {
        with_tile(m, c, TileData { fg_id: DEFAULT_MATERIAL, bg_id: t.bg_id, solid: true })
    }
}

/// Applies one tick of destruction aimed at `c`.  Returns the material of
/// the tile when it breaks.
pub fn tile_destruction(
    map: &mut GameMap,
    progress: &mut Option<BreakProgress>,
    c: &TileCoord,
    cfg: &PhysicsConfig,
) -> (r: Option<u16>)
    requires
        old(map).wf(),
        cfg.wf(),
        progress_valid(*old(progress), cfg.break_ticks as int),
    ensures
        final(map).wf(),
        (final(map)@, *final(progress), r) == destroy_spec(
            old(map)@,
            *old(progress),
            *c,
            cfg.break_ticks as int,
        ),
        progress_valid(*final(progress), cfg.break_ticks as int),
{
    let t = map.tile_at(c);
    if !t.is_solid() {
        *progress = None;
        return None;
    }
    match *progress {
        Some(bp) => {
            if bp.coord == *c {
                if bp.elapsed + 1 >= cfg.break_ticks {
                    proof {
                        map.lemma_tiles_consistent();
                    }
                    map.set_tile(c, TileData::with_materials(0, t.bg_id));
                    *progress = None;
                    Some(t.fg_id)
                } else {
                    *progress = Some(BreakProgress { coord: *c, elapsed: bp.elapsed + 1 });
                    None
                }
            } else {
                *progress = Some(BreakProgress { coord: *c, elapsed: 0 });
                None
            }
        },
        None => {
            *progress = Some(BreakProgress { coord: *c, elapsed: 0 });
            None
        },
    }
}

/// Places the default material at `c` when the cell is empty.  Returns
/// whether a tile was placed.
pub fn tile_placement(map: &mut GameMap, c: &TileCoord) -> (r: bool)
    requires
        old(map).wf(),
    ensures
        final(map).wf(),
        final(map)@ == place_spec(old(map)@, *c),
        r == !tile_spec(old(map)@, *c).solid,
{
    let t = map.tile_at(c);
    if t.is_solid() {
        return false;
    }
    map.set_tile(c, TileData::with_materials(DEFAULT_MATERIAL, t.bg_id));
    true
}

/// One tick of pointer interaction at world point `point`: the cell under
/// it (rounded down on both axes) is broken while `destroy` is held and
/// filled when `place` is held.  Releasing destruction drops any progress.
/// Returns the material picked up, if a tile broke.
pub fn tile_interaction(
    map: &mut GameMap,
    progress: &mut Option<BreakProgress>,
    point: &Vec2i,
    destroy: bool,
    place: bool,
    cfg: &PhysicsConfig,
) -> (r: Option<u16>)
    requires
        old(map).wf(),
        cfg.wf(),
        progress_valid(*old(progress), cfg.break_ticks as int),
        point_in_range(*point),
    ensures
        final(map).wf(),
        progress_valid(*final(progress), cfg.break_ticks as int),
        ({
            let c = TileCoord {
                x: floor_tile_spec(point.x as int) as i32,
                y: floor_tile_spec(point.y as int) as i32,
            };
            let d = destroy_spec(old(map)@, *old(progress), c, cfg.break_ticks as int);
            &&& destroy ==> *final(progress) == d.1 && r == d.2 && final(map)@ == (if place {
                place_spec(d.0, c)
            } else {
                d.0
            })
            &&& !destroy ==> *final(progress) == None::<BreakProgress> && r == None::<u16>
                && final(map)@ == (if place {
                place_spec(old(map)@, c)
            } else {
                old(map)@
            })
        }),
{
    let c = point_tile(point);
    let mut picked: Option<u16> = None;
    if destroy {
        picked = tile_destruction(map, progress, &c, cfg);
    } else {
        *progress = None;
    }
    if place {
        tile_placement(map, &c);
    }
    picked
}

/// `k` ticks of destruction held on `c`, one after another: the final map,
/// the final progress, and the materials picked up in order.
pub open spec fn hold_spec(
    m: Map<TileCoord, TileData>,
    p: Option<BreakProgress>,
    c: TileCoord,
    k: nat,
    threshold: int,
) -> (Map<TileCoord, TileData>, Option<BreakProgress>, Seq<u16>)
    decreases k,
{
    if k == 0 {
        (m, p, Seq::empty())
    } else {
        let s = destroy_spec(m, p, c, threshold);
        let rest = hold_spec(s.0, s.1, c, (k - 1) as nat, threshold);
        let first = match s.2 {
            Some(id) => seq![id],
            None => Seq::empty(),
        };
        (rest.0, rest.1, first + rest.2)
    }
}

proof fn lemma_hold_empty(m: Map<TileCoord, TileData>, c: TileCoord, k: nat, threshold: int)
    requires
        !tile_spec(m, c).solid,
    ensures
        hold_spec(m, None, c, k, threshold) == (m, None::<BreakProgress>, Seq::<u16>::empty()),
    decreases k,
{
    if k > 0 {
        lemma_hold_empty(m, c, (k - 1) as nat, threshold);
        assert(Seq::<u16>::empty() + Seq::<u16>::empty() =~= Seq::<u16>::empty());
    }
}

proof fn lemma_hold_progress(
    m: Map<TileCoord, TileData>,
    c: TileCoord,
    e: int,
    k: nat,
    threshold: int,
)
    requires
        tile_spec(m, c).solid,
        tile_spec(m, c).wf(),
        0 <= e <= threshold,
        threshold <= 0x10_0000,
    ensures
        e + k < threshold ==> hold_spec(m, Some(BreakProgress { coord: c, elapsed: e as u32 }), c, k, threshold)
            == (m, Some(BreakProgress { coord: c, elapsed: (e + k) as u32 }), Seq::<u16>::empty()),
        e + k >= threshold && k >= 1 ==> hold_spec(
            m,
            Some(BreakProgress { coord: c, elapsed: e as u32 }),
            c,
            k,
            threshold,
        ) == (with_tile(m, c, broken(tile_spec(m, c))), None::<BreakProgress>, seq![tile_spec(m, c).fg_id]),
    decreases k,
{
    let p = Some(BreakProgress { coord: c, elapsed: e as u32 });
    if k == 0 {
    } else if e + 1 >= threshold {
        let m2 = with_tile(m, c, broken(tile_spec(m, c)));
        assert(!tile_spec(m2, c).solid);
        lemma_hold_empty(m2, c, (k - 1) as nat, threshold);
        assert(seq![tile_spec(m, c).fg_id] + Seq::<u16>::empty() =~= seq![tile_spec(m, c).fg_id]);
    } else {
        lemma_hold_progress(m, c, e + 1, (k - 1) as nat, threshold);
        if e + k < threshold {
            assert(Seq::<u16>::empty() + Seq::<u16>::empty() =~= Seq::<u16>::empty());
        } else {
            assert(Seq::<u16>::empty() + seq![tile_spec(m, c).fg_id] =~= seq![tile_spec(m, c).fg_id]);
        }
    }
}

/// Holding destruction on a solid tile from idle for `n` ticks: with fewer
/// than `threshold` ticks elapsed after the first, nothing breaks and
/// nothing is picked up; once `threshold` ticks have elapsed the tile has
/// broken exactly once and exactly its material was picked up, and further
/// ticks change nothing.
pub proof fn lemma_break_commit_exact(
    m: Map<TileCoord, TileData>,
    c: TileCoord,
    n: nat,
    threshold: int,
)
    requires
        tile_spec(m, c).solid,
        tile_spec(m, c).wf(),
        1 <= threshold <= 0x10_0000,
        n >= 1,
    ensures
        n - 1 < threshold ==> hold_spec(m, None, c, n, threshold) == (
            m,
            Some(BreakProgress { coord: c, elapsed: (n - 1) as u32 }),
            Seq::<u16>::empty(),
        ),
        n - 1 >= threshold ==> hold_spec(m, None, c, n, threshold) == (
            with_tile(m, c, broken(tile_spec(m, c))),
            None::<BreakProgress>,
            seq![tile_spec(m, c).fg_id],
        ),
{
    let p0 = Some(BreakProgress { coord: c, elapsed: 0 });
    assert(destroy_spec(m, None, c, threshold) == (m, p0, None::<u16>));
    lemma_hold_progress(m, c, 0, (n - 1) as nat, threshold);
    if n - 1 < threshold {
        assert(Seq::<u16>::empty() + Seq::<u16>::empty() =~= Seq::<u16>::empty());
    } else {
        assert(Seq::<u16>::empty() + seq![tile_spec(m, c).fg_id] =~= seq![tile_spec(m, c).fg_id]);
    }
}

/// A map edit: one tick of destruction, or a placement, at a cell.
#[derive(Clone, Copy, Debug, PartialEq, Eq, Structural)]
pub enum Edit {
    Destroy(TileCoord),
    Place(TileCoord),
}

/// The map and progress after a sequence of edits, in order.
pub open spec fn apply_edits(
    m: Map<TileCoord, TileData>,
    p: Option<BreakProgress>,
    edits: Seq<Edit>,
    threshold: int,
) -> (Map<TileCoord, TileData>, Option<BreakProgress>)
    decreases edits.len(),
{
    if edits.len() == 0 {
        (m, p)
    } else {
        let before = apply_edits(m, p, edits.drop_last(), threshold);
        match edits.last() {
            Edit::Destroy(c) => {
                let d = destroy_spec(before.0, before.1, c, threshold);
                (d.0, d.1)
            },
            Edit::Place(c) => (place_spec(before.0, c), before.1),
        }
    }
}

proof fn lemma_with_tile_valid(m: Map<TileCoord, TileData>, c: TileCoord, t: TileData)
    requires
        entries_valid(m),
        t.wf(),
    ensures
        entries_valid(with_tile(m, c, t)),
{
}

/// After any sequence of placements and destructions, every cell of the
/// map is solid exactly when it holds a foreground block.
pub proof fn lemma_edits_keep_tiles_consistent(
    m: Map<TileCoord, TileData>,
    p: Option<BreakProgress>,
    edits: Seq<Edit>,
    threshold: int,
)
    requires
        entries_valid(m),
    ensures
        entries_valid(apply_edits(m, p, edits, threshold).0),
        forall|c: TileCoord| #[trigger] tile_spec(apply_edits(m, p, edits, threshold).0, c).wf(),
    decreases edits.len(),
{
    if edits.len() > 0 {
        lemma_edits_keep_tiles_consistent(m, p, edits.drop_last(), threshold);
        let before = apply_edits(m, p, edits.drop_last(), threshold);
        match edits.last() {
            Edit::Destroy(c) => {
                let t = tile_spec(before.0, c);
                lemma_with_tile_valid(before.0, c, broken(t));
            },
            Edit::Place(c) => {
                let t = tile_spec(before.0, c);
                lemma_with_tile_valid(
                    before.0,
                    c,
                    TileData { fg_id: DEFAULT_MATERIAL, bg_id: t.bg_id, solid: true },
                );
            },
        }
    }
    let after = apply_edits(m, p, edits, threshold).0;
    assert forall|c: TileCoord| #[trigger] tile_spec(after, c).wf() by {
        if after.contains_key(c) {
        }
    }
}

} // verus!
