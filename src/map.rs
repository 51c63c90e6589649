//! The sparse tile map and its spatial queries.
use vstd::prelude::*;

use crate::geometry::{
    Vec2i, floor_tile, ceil_tile, floor_tile_spec, ceil_tile_spec, tile_edge, spans_overlap,
    coord_range,
    lemma_tile_span,
};
use crate::tile::{TileCoord, TileData, coord_lt, coord_less, in_rect};

verus! {

/// The tile a map shows at `c`: its entry, or the blank tile where it has none.
pub open spec fn tile_spec(m: Map<TileCoord, TileData>, c: TileCoord) -> TileData {
    if m.contains_key(c) {
        m[c]
    } else {
        TileData::blank()
    }
}

/// The map after writing `t` at `c`: a blank tile leaves no entry.
pub open spec fn with_tile(m: Map<TileCoord, TileData>, c: TileCoord, t: TileData) -> Map<
    TileCoord,
    TileData,
> {
    if t.is_blank() {
        m.remove(c)
    } else {
        m.insert(c, t)
    }
}

/// Every stored tile is consistent and differs from the blank tile.
pub open spec fn entries_valid(m: Map<TileCoord, TileData>) -> bool {
    forall|c: TileCoord| #[trigger] m.contains_key(c) ==> m[c].wf() && !m[c].is_blank()
}

/// The sparse map: entries kept strictly sorted by coordinate, one per
/// coordinate, and none for a blank cell.  A sorted vector rather than a
/// hash map, because the spatial query scans a contiguous key range: one
/// binary search finds the lower corner of the rectangle and the scan stops
/// past the upper corner, visiting stored entries only and in a fixed order,
/// where a hash map would have to probe every cell of the rectangle.
pub struct GameMap {
    entries: Vec<(TileCoord, TileData)>,
    tiles: Ghost<Map<TileCoord, TileData>>,
}

impl View for GameMap {
    type V = Map<TileCoord, TileData>;

    closed spec fn view(&self) -> Map<TileCoord, TileData> {
        self.tiles@
    }
}

impl GameMap {
    pub closed spec fn wf(&self) -> bool {
        &&& forall|i: int, j: int|
            0 <= i < j < self.entries@.len() ==> coord_lt(
                #[trigger] self.entries@[i].0,
                #[trigger] self.entries@[j].0,
            )
        &&& forall|i: int|
            0 <= i < self.entries@.len() ==> #[trigger] self.tiles@.contains_key(
                self.entries@[i].0,
            ) && self.tiles@[self.entries@[i].0] == self.entries@[i].1
        &&& forall|c: TileCoord| #[trigger]
            self.tiles@.contains_key(c) ==> exists|i: int|
                0 <= i < self.entries@.len() && #[trigger] self.entries@[i].0 == c
        &&& entries_valid(self.tiles@)
    }

    /// Every tile of a well-formed map, present or implied, is consistent.
    pub proof fn lemma_tiles_consistent(&self)
        requires
            self.wf(),
        ensures
            entries_valid(self@),
            forall|c: TileCoord| #[trigger] tile_spec(self@, c).wf(),
    {
        assert forall|c: TileCoord| #[trigger] tile_spec(self@, c).wf() by {
            if self@.contains_key(c) {
            }
        }
    }

    /// A map with no entries: every cell is blank.
    pub fn new() -> (r: GameMap)
        ensures
            r.wf(),
            r@ == Map::<TileCoord, TileData>::empty(),
    {
        GameMap { entries: Vec::new(), tiles: Ghost(Map::empty()) }
    }

    /// Number of stored (non-blank) entries.
    pub fn len(&self) -> (r: usize)
        requires
            self.wf(),
        ensures
            r == self@.len(),
    {
        proof {
            self.lemma_len();
        }
        self.entries.len()
    }

    proof fn lemma_len(&self)
        requires
            self.wf(),
        ensures
            self@.len() == self.entries@.len(),
            self@.dom().finite(),
    {
        let keys = self.entries@.map_values(|e: (TileCoord, TileData)| e.0);
        assert(keys.no_duplicates()) by {
            assert forall|i: int, j: int|
                0 <= i < keys.len() && 0 <= j < keys.len() && i != j implies keys[i]
                != keys[j] by {
                if i < j {
                    assert(coord_lt(self.entries@[i].0, self.entries@[j].0));
                } else {
                    assert(coord_lt(self.entries@[j].0, self.entries@[i].0));
                }
            }
        }
        assert(keys.to_set() =~= self@.dom()) by {
            assert forall|c: TileCoord| keys.to_set().contains(c) <==> self@.dom().contains(c) by {
                if self@.dom().contains(c) {
                    let i = choose|i: int|
                        0 <= i < self.entries@.len() && #[trigger] self.entries@[i].0 == c;
                    assert(keys[i] == c);
                }
                if keys.to_set().contains(c) {
                    let i = choose|i: int| 0 <= i < keys.len() && keys[i] == c;
                    assert(self.tiles@.contains_key(self.entries@[i].0));
                }
            }
        }
        keys.unique_seq_to_set();
    }

    /// Index of the first entry whose coordinate is not below `c`.
    fn lower_bound(&self, c: &TileCoord) -> (r: usize)
        requires
            self.wf(),
        ensures
            r <= self.entries@.len(),
            forall|j: int| 0 <= j < r ==> coord_lt(#[trigger] self.entries@[j].0, *c),
            forall|j: int|
                r <= j < self.entries@.len() ==> !coord_lt(#[trigger] self.entries@[j].0, *c),
    {
        let mut lo: usize = 0;
        let mut hi: usize = self.entries.len();
        while lo < hi
            invariant
                self.wf(),
                0 <= lo <= hi <= self.entries@.len(),
                forall|j: int| 0 <= j < lo ==> coord_lt(#[trigger] self.entries@[j].0, *c),
                forall|j: int|
                    hi <= j < self.entries@.len() ==> !coord_lt(
                        #[trigger] self.entries@[j].0,
                        *c,
                    ),
            decreases hi - lo,
        {
            let mid: usize = lo + (hi - lo) / 2;
            if coord_less(&self.entries[mid].0, c) {
                assert forall|j: int| 0 <= j < mid + 1 implies coord_lt(
                    #[trigger] self.entries@[j].0,
                    *c,
                ) by {
                    if j < mid {
                        assert(coord_lt(self.entries@[j].0, self.entries@[mid as int].0));
                    }
                }
                lo = mid + 1;
            } else {
                assert forall|j: int| mid <= j < self.entries@.len() implies !coord_lt(
                    #[trigger] self.entries@[j].0,
                    *c,
                ) by {
                    if j > mid {
                        assert(coord_lt(self.entries@[mid as int].0, self.entries@[j].0));
                    }
                }
                hi = mid;
            }
        }
        lo
    }

    /// The tile at `c`; the blank tile where the map has no entry.
    pub fn tile_at(&self, c: &TileCoord) -> (r: TileData)
        requires
            self.wf(),
        ensures
            r == tile_spec(self@, *c),
    {
        let i = self.lower_bound(c);
        if i < self.entries.len() && self.entries[i].0 == *c {
            self.entries[i].1
        } else {
            proof {
                if self@.contains_key(*c) {
                    let k = choose|k: int|
                        0 <= k < self.entries@.len() && #[trigger] self.entries@[k].0 == *c;
                    if k < i {
                    } else if k > i {
                        assert(coord_lt(self.entries@[i as int].0, self.entries@[k].0));
                    }
                }
            }
            TileData::default()
        }
    }
    /// Overwrites the cell at `c` with `t`.  A blank `t` removes the entry, so
    /// the map keeps entries only for cells that differ from the blank tile.
    pub fn set_tile(&mut self, c: &TileCoord, t: TileData)
        requires
            old(self).wf(),
            t.wf(),
        ensures
            final(self).wf(),
            final(self)@ == with_tile(old(self)@, *c, t),
    {
        let i = self.lower_bound(c);
        let found = i < self.entries.len() && self.entries[i].0 == *c;
        let blank = t.is_blank_tile();
        let ghost pre = self.entries@;
        if found {
            if blank {
                self.entries.remove(i);
                self.tiles = Ghost(self.tiles@.remove(*c));
                assert forall|j: int, k: int|
                    0 <= j < k < self.entries@.len() implies coord_lt(
                    #[trigger] self.entries@[j].0,
                    #[trigger] self.entries@[k].0,
                ) by {
                    let jj = if j < i { j } else { j + 1 };
                    let kk = if k < i { k } else { k + 1 };
                    assert(self.entries@[j] == pre[jj]);
                    assert(self.entries@[k] == pre[kk]);
                    assert(coord_lt(pre[jj].0, pre[kk].0));
                }
                assert forall|j: int| 0 <= j < self.entries@.len() implies #[trigger]
                    self.tiles@.contains_key(self.entries@[j].0) && self.tiles@[self.entries@[j].0]
                    == self.entries@[j].1 by {
                    let jj = if j < i { j } else { j + 1 };
                    assert(self.entries@[j] == pre[jj]);
                    assert(old(self).tiles@.contains_key(old(self).entries@[jj].0));
                    if jj < i {
                        assert(coord_lt(pre[jj].0, pre[i as int].0));
                    } else {
                        assert(coord_lt(pre[i as int].0, pre[jj].0));
                    }
                }
                assert forall|d: TileCoord| #[trigger] self.tiles@.contains_key(d) implies exists|
                    j: int,
                | 0 <= j < self.entries@.len() && #[trigger] self.entries@[j].0 == d by {
                    let k = choose|k: int| 0 <= k < pre.len() && #[trigger] pre[k].0 == d;
                    if k < i {
                        assert(self.entries@[k].0 == d);
                    } else {
                        assert(k != i);
                        assert(self.entries@[k - 1].0 == d);
                    }
                }
            } else {
                self.entries.set(i, (*c, t));
                self.tiles = Ghost(self.tiles@.insert(*c, t));
                assert forall|j: int, k: int|
                    0 <= j < k < self.entries@.len() implies coord_lt(
                    #[trigger] self.entries@[j].0,
                    #[trigger] self.entries@[k].0,
                ) by {
                    assert(coord_lt(pre[j].0, pre[k].0));
                }
                assert forall|j: int| 0 <= j < self.entries@.len() implies #[trigger]
                    self.tiles@.contains_key(self.entries@[j].0) && self.tiles@[self.entries@[j].0]
                    == self.entries@[j].1 by {
                    if j < i {
                        assert(coord_lt(pre[j].0, pre[i as int].0));
                    } else if j > i {
                        assert(coord_lt(pre[i as int].0, pre[j].0));
                    }
                }
                assert forall|d: TileCoord| #[trigger] self.tiles@.contains_key(d) implies exists|
                    j: int,
                | 0 <= j < self.entries@.len() && #[trigger] self.entries@[j].0 == d by {
                    if d == *c {
                        assert(self.entries@[i as int].0 == d);
                    } else {
                        let k = choose|k: int| 0 <= k < pre.len() && #[trigger] pre[k].0 == d;
                        assert(self.entries@[k].0 == d);
                    }
                }
            }
        } else {
            proof {
                assert(!old(self)@.contains_key(*c)) by {
                    if old(self)@.contains_key(*c) {
                        let k = choose|k: int| 0 <= k < pre.len() && #[trigger] pre[k].0 == *c;
                        if k > i {
                            assert(coord_lt(pre[i as int].0, pre[k].0));
                        }
                    }
                }
            }
            if blank {
                assert(old(self)@.remove(*c) =~= old(self)@);
            } else {
                self.entries.insert(i, (*c, t));
                self.tiles = Ghost(self.tiles@.insert(*c, t));
                assert forall|j: int, k: int|
                    0 <= j < k < self.entries@.len() implies coord_lt(
                    #[trigger] self.entries@[j].0,
                    #[trigger] self.entries@[k].0,
                ) by {
                    if k < i {
                        assert(coord_lt(pre[j].0, pre[k].0));
                    } else if k == i {
                    } else if j < i {
                        assert(self.entries@[k] == pre[k - 1]);
                        assert(!coord_lt(pre[k - 1].0, *c));
                    } else if j == i {
                        assert(self.entries@[k] == pre[k - 1]);
                        assert(!coord_lt(pre[k - 1].0, *c));
                    } else {
                        assert(self.entries@[k] == pre[k - 1]);
                        assert(self.entries@[j] == pre[j - 1]);
                        assert(coord_lt(pre[j - 1].0, pre[k - 1].0));
                    }
                }
                assert forall|j: int| 0 <= j < self.entries@.len() implies #[trigger]
                    self.tiles@.contains_key(self.entries@[j].0) && self.tiles@[self.entries@[j].0]
                    == self.entries@[j].1 by {
                    if j < i {
                        assert(self.entries@[j] == pre[j]);
                        assert(old(self).tiles@.contains_key(old(self).entries@[j].0));
                    } else if j > i {
                        assert(self.entries@[j] == pre[j - 1]);
                        assert(old(self).tiles@.contains_key(old(self).entries@[j - 1].0));
                        if j - 1 > i {
                            assert(coord_lt(pre[i as int].0, pre[j - 1].0));
                        }
                    }
                }
                assert forall|d: TileCoord| #[trigger] self.tiles@.contains_key(d) implies exists|
                    j: int,
                | 0 <= j < self.entries@.len() && #[trigger] self.entries@[j].0 == d by {
                    if d == *c {
                        assert(self.entries@[i as int].0 == d);
                    } else {
                        let k = choose|k: int| 0 <= k < pre.len() && #[trigger] pre[k].0 == d;
                        if k < i {
                            assert(self.entries@[k].0 == d);
                        } else {
                            assert(self.entries@[k + 1].0 == d);
                        }
                    }
                }
            }
        }
    }
    /// The stored entries whose coordinates lie in the inclusive rectangle
    /// `lo..=hi`, in coordinate order.  Only stored entries are visited: the
    /// scan starts at the first entry not below `lo` and stops at the first
    /// entry beyond `hi`.
    pub fn tiles_in_range(&self, lo: &TileCoord, hi: &TileCoord) -> (r: Vec<(TileCoord, TileData)>)
        requires
            self.wf(),
        ensures
            forall|k: int|
                0 <= k < r@.len() ==> in_rect(#[trigger] r@[k].0, *lo, *hi) && self@.contains_key(
                    r@[k].0,
                ) && self@[r@[k].0] == r@[k].1,
            forall|c: TileCoord|
                in_rect(c, *lo, *hi) && #[trigger] self@.contains_key(c) ==> exists|k: int|
                    0 <= k < r@.len() && #[trigger] r@[k].0 == c,
            forall|j: int, k: int| 0 <= j < k < r@.len() ==> coord_lt(#[trigger] r@[j].0, #[trigger] r@[k].0),
    {
        let start = self.lower_bound(lo);
        let mut out: Vec<(TileCoord, TileData)> = Vec::new();
        let ghost mut idx: Seq<int> = Seq::empty();
        let mut i: usize = start;
        while i < self.entries.len() && !coord_less(hi, &self.entries[i].0)
            invariant
                self.wf(),
                start <= i <= self.entries@.len(),
                forall|j: int| 0 <= j < start ==> coord_lt(#[trigger] self.entries@[j].0, *lo),
                idx.len() == out@.len(),
                forall|k: int|
                    0 <= k < idx.len() ==> start <= #[trigger] idx[k] < i && out@[k]
                        == self.entries@[idx[k]] && in_rect(out@[k].0, *lo, *hi),
                forall|k1: int, k2: int| 0 <= k1 < k2 < idx.len() ==> #[trigger] idx[k1] < #[trigger] idx[k2],
                forall|m: int|
                    start <= m < i && in_rect(#[trigger] self.entries@[m].0, *lo, *hi) ==> exists|
                        k: int,
                    | 0 <= k < idx.len() && idx[k] == m,
            decreases self.entries@.len() - i,
        {
            let e = self.entries[i];
            let ghost prev = idx;
            if lo.x <= e.0.x && e.0.x <= hi.x && lo.y <= e.0.y && e.0.y <= hi.y {
                out.push(e);
                proof {
                    idx = idx.push(i as int);
                    assert(idx[idx.len() - 1] == i);
                }
            }
            proof {
                assert forall|m: int|
                    start <= m < i + 1 && in_rect(#[trigger] self.entries@[m].0, *lo, *hi) implies exists|
                    k: int,
                | 0 <= k < idx.len() && idx[k] == m by {
                    if m < i {
                        let k = choose|k: int| 0 <= k < prev.len() && prev[k] == m;
                        assert(idx[k] == m);
                    } else {
                        assert(idx[idx.len() - 1] == m);
                    }
                }
            }
            i = i + 1;
        }
        proof {
            assert forall|k: int|
                0 <= k < out@.len() implies in_rect(#[trigger] out@[k].0, *lo, *hi)
                && self@.contains_key(out@[k].0) && self@[out@[k].0] == out@[k].1 by {
                assert(self.tiles@.contains_key(self.entries@[idx[k]].0));
            }
            assert forall|c: TileCoord|
                in_rect(c, *lo, *hi) && #[trigger] self@.contains_key(c) implies exists|k: int|
                0 <= k < out@.len() && #[trigger] out@[k].0 == c by {
                let m = choose|m: int| 0 <= m < self.entries@.len() && #[trigger] self.entries@[m].0 == c;
                if m < start {
                    assert(coord_lt(self.entries@[m].0, *lo));
                }
                if m >= i {
                    assert(coord_lt(*hi, self.entries@[i as int].0));
                    if m > i {
                        assert(coord_lt(self.entries@[i as int].0, self.entries@[m].0));
                    }
                }
                let k = choose|k: int| 0 <= k < idx.len() && idx[k] == m;
                assert(out@[k].0 == c);
            }
            assert forall|j: int, k: int| 0 <= j < k < out@.len() implies coord_lt(
                #[trigger] out@[j].0,
                #[trigger] out@[k].0,
            ) by {
                assert(idx[j] < idx[k]);
                assert(coord_lt(self.entries@[idx[j]].0, self.entries@[idx[k]].0));
            }
        }
        out
    }

    /// The cell holding world point `p` (each axis rounded down) and its tile.
    pub fn tile_under(&self, p: &Vec2i) -> (r: (TileCoord, TileData))
        requires
            self.wf(),
            point_in_range(*p),
        ensures
            r.0.x == floor_tile_spec(p.x as int),
            r.0.y == floor_tile_spec(p.y as int),
            r.1 == tile_spec(self@, r.0),
    {
        let c = point_tile(p);
        let t = self.tile_at(&c);
        (c, t)
    }
}

/// Points that the tile conversions accept.
pub open spec fn point_in_range(p: Vec2i) -> bool {
    -0x8000_0000 <= p.x <= 0x8000_0000 && -0x8000_0000 <= p.y <= 0x8000_0000
}

/// The cell holding world point `p`, rounding down on both axes.
pub fn point_tile(p: &Vec2i) -> (r: TileCoord)
    requires
        point_in_range(*p),
    ensures
        r.x == floor_tile_spec(p.x as int),
        r.y == floor_tile_spec(p.y as int),
{
    TileCoord { x: floor_tile(p.x), y: floor_tile(p.y) }
}

/// Boxes whose tile range can be computed: centre and half extents bounded.
pub open spec fn box_in_range(center: Vec2i, half: Vec2i) -> bool {
    &&& point_in_range(center)
    &&& 0 <= half.x <= 0x8000_0000
    &&& 0 <= half.y <= 0x8000_0000
}

/// The inclusive rectangle of tile coordinates that the box with the given
/// centre and half extents covers: lower corner rounded down, upper corner
/// rounded up, per axis.
pub fn occupied_range(center: &Vec2i, half: &Vec2i) -> (r: (TileCoord, TileCoord))
    requires
        box_in_range(*center, *half),
    ensures
        r.0.x == floor_tile_spec(center.x - half.x),
        r.0.y == floor_tile_spec(center.y - half.y),
        r.1.x == ceil_tile_spec(center.x + half.x),
        r.1.y == ceil_tile_spec(center.y + half.y),
{
    bounds_range(center.x - half.x, center.y - half.y, center.x + half.x, center.y + half.y)
}

/// The inclusive rectangle of tile coordinates for the box with corners
/// `(x0, y0)` and `(x1, y1)`: lower corner rounded down, upper rounded up.
pub fn bounds_range(x0: i64, y0: i64, x1: i64, y1: i64) -> (r: (TileCoord, TileCoord))
    requires
        coord_range(x0 as int),
        coord_range(y0 as int),
        coord_range(x1 as int),
        coord_range(y1 as int),
    ensures
        r.0.x == floor_tile_spec(x0 as int),
        r.0.y == floor_tile_spec(y0 as int),
        r.1.x == ceil_tile_spec(x1 as int),
        r.1.y == ceil_tile_spec(y1 as int),
{
    let lo = TileCoord { x: floor_tile(x0), y: floor_tile(y0) };
    let hi = TileCoord { x: ceil_tile(x1), y: ceil_tile(y1) };
    (lo, hi)
}

/// Every tile that shares interior area with a box lies in the box's
/// occupied range, grid-aligned edges included.
pub proof fn lemma_range_coverage(center: Vec2i, half: Vec2i, t: TileCoord)
    requires
        box_in_range(center, half),
        spans_overlap(
            center.x - half.x,
            center.x + half.x,
            tile_edge(t.x as int),
            tile_edge(t.x + 1),
        ),
        spans_overlap(
            center.y - half.y,
            center.y + half.y,
            tile_edge(t.y as int),
            tile_edge(t.y + 1),
        ),
    ensures
        floor_tile_spec(center.x - half.x) <= t.x <= ceil_tile_spec(center.x + half.x),
        floor_tile_spec(center.y - half.y) <= t.y <= ceil_tile_spec(center.y + half.y),
{
    lemma_tile_span(center.x - half.x, center.x + half.x, t.x as int);
    lemma_tile_span(center.y - half.y, center.y + half.y, t.y as int);
}

/// Every tile that shares interior area with the box with corners
/// `(x0, y0)` and `(x1, y1)` lies in that box's tile range.
pub proof fn lemma_range_coverage_bounds(x0: int, y0: int, x1: int, y1: int, t: TileCoord)
    requires
        spans_overlap(x0, x1, tile_edge(t.x as int), tile_edge(t.x + 1)),
        spans_overlap(y0, y1, tile_edge(t.y as int), tile_edge(t.y + 1)),
    ensures
        in_rect(
            t,
            TileCoord { x: floor_tile_spec(x0) as i32, y: floor_tile_spec(y0) as i32 },
            TileCoord { x: ceil_tile_spec(x1) as i32, y: ceil_tile_spec(y1) as i32 },
        ) || !(coord_range(x0) && coord_range(y0) && coord_range(x1) && coord_range(y1)),
{
    lemma_tile_span(x0, x1, t.x as int);
    lemma_tile_span(y0, y1, t.y as int);
}

} // verus!
