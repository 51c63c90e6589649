//! Procedural terrain: ground offsets, hills, and rasterisation of the
//! column profile into the tile map.
use vstd::prelude::*;

use crate::geometry::{abs_int, clamp_int, min_int, max_int};
use crate::map::{GameMap, tile_spec};
use crate::tile::{TileCoord, TileData};

verus! {

/// Relies on `rand::random_range` over an inclusive range: the value drawn
/// lies in the range.  It panics only on an empty range, which `requires`
/// excludes.
#[verifier::external_body]
fn random_between(lo: i64, hi: i64) -> (r: i64)
    requires
        lo <= hi,
    ensures
        lo <= r <= hi,
{
    rand::random_range(lo..=hi)
}

/// Relies on `rand::random_ratio`: true with chance
/// `numerator / denominator`, always when the two are equal and never when
/// the numerator is zero.  It panics when the denominator is zero or below
/// the numerator, which `requires` excludes.
#[verifier::external_body]
fn random_ratio(numerator: u32, denominator: u32) -> (r: bool)
    requires
        0 < denominator,
        numerator <= denominator,
    ensures
        numerator == denominator ==> r,
        numerator == 0 ==> !r,
{
    rand::random_ratio(numerator, denominator)
}

/// Map generation settings.
#[derive(Clone, Copy, Debug)]
pub struct MapParameters {
    pub map_width: usize,
    pub map_height: usize,
    pub sky_height: i16,
    pub offsets_shift_limit: i16,
    pub offsets_run_min: usize,
    pub offsets_run_max: usize,
    pub hill_min_width: i16,
    pub hill_max_width: i16,
    pub hill_min_height: i16,
    pub hill_max_height: i16,
    pub hill_map_edge_margin: i16,
    pub hill_max_overlap: i16,
    pub hill_map_width_per: usize,
    pub dirt_thickness: i16,
    pub right_edge: i16,
    pub left_edge: i16,
    pub top_edge: i16,
    pub bottom_edge: i16,
}

impl MapParameters {
    /// Settings that generation accepts: edges derived from width, height
    /// and sky height, and every range non-empty.
    pub open spec fn wf(self) -> bool {
        &&& 1 <= self.map_width <= 0x2000
        &&& 1 <= self.map_height <= 0x2000
        &&& -0x1000 <= self.sky_height <= 0x1000
        &&& 1 <= self.offsets_shift_limit <= 0x100
        &&& 1 <= self.offsets_run_min <= self.offsets_run_max <= 0x100
        &&& 1 <= self.hill_min_width <= self.hill_max_width <= 0x1000
        &&& 1 <= self.hill_min_height <= self.hill_max_height <= 0x1000
        &&& 0 <= self.hill_map_edge_margin
        &&& self.left_edge + self.hill_map_edge_margin <= self.right_edge - self.hill_map_edge_margin
        &&& 1 <= self.hill_map_width_per
        &&& 0 <= self.dirt_thickness <= 0x100
        &&& self.right_edge == self.map_width / 2
        &&& self.left_edge == -(self.map_width / 2) - 1
        &&& self.top_edge == self.sky_height
        &&& self.bottom_edge == self.sky_height - self.map_height + 1
    }
}

impl Default for MapParameters {
    /// A 300 x 50 map with 15 rows of sky, offsets within 4 in runs of 5 to
    /// 10 columns, one hill per 50 columns, and 5 rows of dirt.
    fn default() -> (r: MapParameters)
        ensures
            r.wf(),
            r.map_width == 300,
            r.map_height == 50,
            r.sky_height == 15,
            r.offsets_shift_limit == 4,
            r.offsets_run_min == 5,
            r.offsets_run_max == 10,
            r.hill_min_width == 20,
            r.hill_max_width == 40,
            r.hill_min_height == 5,
            r.hill_max_height == 10,
            r.hill_map_edge_margin == 10,
            r.hill_max_overlap == 10,
            r.hill_map_width_per == 50,
            r.dirt_thickness == 5,
            r.right_edge == 150,
            r.left_edge == -151,
            r.top_edge == 15,
            r.bottom_edge == -34,
    {
        let map_width: usize = 300;
        let map_height: usize = 50;
        let sky_height: i16 = 15;
        MapParameters {
            map_width,
            map_height,
            sky_height,
            offsets_shift_limit: 4,
            offsets_run_min: 5,
            offsets_run_max: 10,
            hill_min_width: 20,
            hill_max_width: 40,
            hill_min_height: 5,
            hill_max_height: 10,
            hill_map_edge_margin: 10,
            hill_max_overlap: 10,
            hill_map_width_per: 50,
            dirt_thickness: 5,
            right_edge: (map_width / 2) as i16,
            left_edge: -((map_width / 2) as i16) - 1,
            top_edge: sky_height,
            bottom_edge: sky_height - (map_height as i16) + 1,
        }
    }
}

/// Candidate hills drawn before generation gives up on placing more.
pub const MAX_ATTEMPTS: usize = 50;

/// A triangular hill: centre column, peak height and base width.
#[derive(Clone, Copy, Debug, PartialEq, Eq, Structural)]
pub struct HillParameters {
    pub x: i16,
    pub height: i16,
    pub width: i16,
}

/// Horizontal overlap of the two hills' spans; negative for a gap.
pub open spec fn hill_overlap(a: HillParameters, b: HillParameters) -> int {
    min_int(a.x + a.width / 2, b.x + b.width / 2) - max_int(a.x - a.width / 2, b.x - b.width / 2)
}

/// Height that a hill adds at column `x`: falling linearly from its peak,
/// never below zero and never above one less than its height.
pub open spec fn hill_height_at(h: HillParameters, x: int) -> int {
    clamp_int(h.height - h.height * abs_int(h.x - x) / (h.width as int), 0, h.height - 1)
}

impl HillParameters {
    pub open spec fn wf(self) -> bool {
        1 <= self.height && 1 <= self.width
    }

    /// A random hill within the settings' ranges, away from the map edges.
    pub fn new(params: &MapParameters) -> (r: HillParameters)
        requires
            params.wf(),
        ensures
            hill_in_bounds(r, *params),
    {
        let x = random_between(
            (params.left_edge + params.hill_map_edge_margin) as i64,
            (params.right_edge - params.hill_map_edge_margin) as i64,
        ) as i16;
        let height = random_between(params.hill_min_height as i64, params.hill_max_height as i64) as i16;
        let width = random_between(params.hill_min_width as i64, params.hill_max_width as i64) as i16;
        HillParameters { x, height, width }
    }

    /// Overlap between this hill's span and another's; negative values are
    /// a gap.
    pub fn get_overlap(&self, other: &HillParameters) -> (r: i32)
        requires
            self.wf(),
            other.wf(),
        ensures
            r == hill_overlap(*self, *other),
    {
        let a0 = self.x as i32 - self.width as i32 / 2;
        let b0 = other.x as i32 - other.width as i32 / 2;
        let a1 = self.x as i32 + self.width as i32 / 2;
        let b1 = other.x as i32 + other.width as i32 / 2;
        let left = if a0 >= b0 { a0 } else { b0 };
        let right = if a1 <= b1 { a1 } else { b1 };
        right - left
    }

    /// Extra ground height this hill gives at column `x`.
    pub fn height_at(&self, x: i16) -> (r: i16)
        requires
            self.wf(),
        ensures
            r == hill_height_at(*self, x as int),
            0 <= r < self.height,
    {
        let d: i64 = self.x as i64 - x as i64;
        let dist: i64 = if d >= 0 { d } else { -d };
        let h: i64 = self.height as i64;
        proof {
            assert(0 <= h * dist <= 0x8000 * 0x1_0000) by (nonlinear_arith)
                requires 0 <= h <= 0x8000, 0 <= dist <= 0x1_0000;
            assert(0 <= h * dist / (self.width as int)) by (nonlinear_arith)
                requires 0 <= h * dist, self.width >= 1;
        }
        let raw: i64 = h - h * dist / (self.width as i64);
        let r: i64 = if raw < 0 { 0 } else if raw > h - 1 { h - 1 } else { raw };
        r as i16
    }
}

/// A hill whose centre, height and width lie in the settings' ranges.
pub open spec fn hill_in_bounds(h: HillParameters, params: MapParameters) -> bool {
    &&& params.left_edge + params.hill_map_edge_margin <= h.x <= params.right_edge
        - params.hill_map_edge_margin
    &&& params.hill_min_height <= h.height <= params.hill_max_height
    &&& params.hill_min_width <= h.width <= params.hill_max_width
}

/// Number of columns that rasterisation fills: left edge to right edge.
pub open spec fn column_count(params: MapParameters) -> int {
    params.right_edge - params.left_edge + 1
}

/// `o` splits at the indices in `starts` into runs of one value, each
/// between `min` and `max` long.
pub open spec fn split_into_runs(o: Seq<i16>, starts: Seq<int>, min: int, max: int) -> bool {
    &&& starts.len() >= 1
    &&& starts[0] == 0
    &&& starts.last() == o.len()
    &&& forall|k: int|
        0 <= k < starts.len() - 1 ==> min <= #[trigger] starts[k + 1] - starts[k] <= max
    &&& forall|k: int, i: int|
        #![trigger o[i], starts[k]]
        0 <= k < starts.len() - 1 && starts[k] <= i < starts[k + 1] ==> o[i] == o[starts[k]]
}

/// Ground offsets that generation may produce: one for every column at
/// least, each within the shift limit, neighbours differing by at most one,
/// made of runs of one value whose lengths lie in the run range.
pub open spec fn offsets_valid(o: Seq<i16>, params: MapParameters) -> bool {
    &&& o.len() >= column_count(params)
    &&& forall|i: int|
        0 <= i < o.len() ==> -params.offsets_shift_limit <= #[trigger] o[i] <= params.offsets_shift_limit
    &&& forall|i: int| 0 < i < o.len() ==> -1 <= #[trigger] o[i] - o[i - 1] <= 1
    &&& exists|starts: Seq<int>|
        split_into_runs(o, starts, params.offsets_run_min as int, params.offsets_run_max as int)
}

/// The offset after a run: one up or one down, kept within the limit.
pub open spec fn next_offset(current: int, up: bool, limit: int) -> int {
    clamp_int(if up { current + 1 } else { current - 1 }, -limit, limit)
}

/// Appends a run of `run` copies of `current`, then returns the offset that
/// the next run starts from: one up when `up`, else one down, clamped to
/// `-limit..=limit`.
pub fn extend_offsets(offsets: &mut Vec<i16>, current: i16, run: usize, up: bool, limit: i16) -> (r: i16)
    requires
        1 <= limit <= 0x100,
        -limit <= current <= limit,
        old(offsets)@.len() + run <= usize::MAX,
    ensures
        final(offsets)@ == old(offsets)@ + Seq::new(run as nat, |_i: int| current),
        r == next_offset(current as int, up, limit as int),
{
    let mut k: usize = 0;
    while k < run
        invariant
            k <= run,
            old(offsets)@.len() + run <= usize::MAX,
            offsets@ == old(offsets)@ + Seq::new(k as nat, |_i: int| current),
        decreases run - k,
    {
        offsets.push(current);
        k = k + 1;
        assert(offsets@ =~= old(offsets)@ + Seq::new(k as nat, |_i: int| current));
    }
    let stepped: i16 = if up { current + 1 } else { current - 1 };
    if stepped < -limit {
        -limit
    } else if stepped > limit {
        limit
    } else {
        stepped
    }
}

/// Random ground offsets, one for every column at least: runs of equal
/// offsets whose length is drawn from the run range; between runs the
/// offset steps up or down by one, stepping up with chance
/// `(limit - offset) / (2 * limit)` so that it drifts back toward zero.
pub fn generate_terrain_offsets(params: &MapParameters) -> (r: Vec<i16>)
    requires
        params.wf(),
    ensures
        offsets_valid(r@, *params),
        r@.len() < column_count(*params) + params.offsets_run_max,
{
    let limit: i16 = params.offsets_shift_limit;
    let columns: usize = (params.right_edge as i32 - params.left_edge as i32 + 1) as usize;
    let min: usize = params.offsets_run_min;
    let max: usize = params.offsets_run_max;
    let mut offsets: Vec<i16> = Vec::new();
    let ghost mut starts: Seq<int> = seq![0int];
    let mut current: i16 = random_between(-(limit as i64), limit as i64) as i16;
    while offsets.len() < columns
        invariant
            params.wf(),
            limit == params.offsets_shift_limit,
            columns == column_count(*params),
            min == params.offsets_run_min,
            max == params.offsets_run_max,
            -limit <= current <= limit,
            offsets@.len() < columns + max,
            forall|i: int| 0 <= i < offsets@.len() ==> -limit <= #[trigger] offsets@[i] <= limit,
            forall|i: int| 0 < i < offsets@.len() ==> -1 <= #[trigger] offsets@[i] - offsets@[i - 1] <= 1,
            offsets@.len() > 0 ==> -1 <= current - offsets@.last() <= 1,
            split_into_runs(offsets@, starts, min as int, max as int),
            forall|k: int| 0 <= k < starts.len() ==> 0 <= #[trigger] starts[k] <= offsets@.len(),
        decreases columns + max - offsets@.len(),
    {
        let run = random_between(min as i64, max as i64) as usize;
        let up = random_ratio((limit - current) as u32, (2 * limit) as u32);
        let ghost before = offsets@;
        let ghost value = current;
        current = extend_offsets(&mut offsets, current, run, up, limit);
        proof {
            let n = before.len();
            assert forall|i: int| 0 <= i < offsets@.len() implies -limit <= #[trigger] offsets@[i] <= limit by {
                if i >= n {
                    assert(offsets@[i] == value);
                } else {
                    assert(offsets@[i] == before[i]);
                }
            }
            assert forall|i: int| 0 < i < offsets@.len() implies -1 <= #[trigger] offsets@[i] - offsets@[i - 1] <= 1 by {
                if i > n {
                    assert(offsets@[i] == value && offsets@[i - 1] == value);
                } else if i == n {
                    assert(offsets@[i] == value && offsets@[i - 1] == before.last());
                } else {
                    assert(offsets@[i] == before[i] && offsets@[i - 1] == before[i - 1]);
                }
            }
            assert(offsets@.last() == value);
            let old_starts = starts;
            starts = starts.push(offsets@.len() as int);
            assert(starts[old_starts.len() - 1] == n);
            assert forall|k: int| 0 <= k < starts.len() implies 0 <= #[trigger] starts[k] <= offsets@.len() by {
                if k < old_starts.len() {
                    assert(starts[k] == old_starts[k]);
                }
            }
            assert forall|k: int| 0 <= k < starts.len() - 1 implies min <= #[trigger] starts[k + 1] - starts[k] <= max by {
                if k < old_starts.len() - 1 {
                    assert(starts[k + 1] == old_starts[k + 1] && starts[k] == old_starts[k]);
                }
            }
            assert forall|k: int, i: int|
                #![trigger offsets@[i], starts[k]]
                0 <= k < starts.len() - 1 && starts[k] <= i < starts[k + 1] implies offsets@[i] == offsets@[starts[k]] by {
                if k < old_starts.len() - 1 {
                    assert(starts[k + 1] == old_starts[k + 1] && starts[k] == old_starts[k]);
                    assert(old_starts[k + 1] <= n && 0 <= old_starts[k]);
                    assert(before[i] == before[old_starts[k]]);
                    assert(offsets@[i] == before[i]);
                    assert(offsets@[old_starts[k]] == before[old_starts[k]]);
                } else {
                    assert(offsets@[i] == value);
                    assert(offsets@[n as int] == value);
                }
            }
        }
    }
    proof {
        assert(split_into_runs(offsets@, starts, min as int, max as int));
    }
    offsets
}

/// Spans of every two distinct hills overlap by at most the settings'
/// allowance.
pub open spec fn hills_spread(h: Seq<HillParameters>, max_overlap: int) -> bool {
    forall|i: int, j: int|
        0 <= i < h.len() && 0 <= j < h.len() && i != j ==> hill_overlap(#[trigger] h[i], #[trigger] h[j])
            <= max_overlap
}

/// Hills ordered by centre, then height, then width.
pub open spec fn hill_le(a: HillParameters, b: HillParameters) -> bool {
    a.x < b.x || (a.x == b.x && (a.height < b.height || (a.height == b.height && a.width <= b.width)))
}

pub open spec fn hills_sorted(h: Seq<HillParameters>) -> bool {
    forall|i: int, j: int| 0 <= i < j < h.len() ==> hill_le(#[trigger] h[i], #[trigger] h[j])
}

fn hill_before(a: &HillParameters, b: &HillParameters) -> (r: bool)
    ensures
        r == hill_le(*a, *b),
{
    a.x < b.x || (a.x == b.x && (a.height < b.height || (a.height == b.height && a.width <= b.width)))
}

/// Random hills, one per `hill_map_width_per` columns at most: candidates
/// that overlap an accepted hill by more than the allowance are dropped,
/// and drawing stops after a fixed number of candidates.  The result is in
/// left-to-right order.
pub fn generate_hills(params: &MapParameters) -> (r: Vec<HillParameters>)
    requires
        params.wf(),
    ensures
        r@.len() <= params.map_width / params.hill_map_width_per,
        r@.len() <= MAX_ATTEMPTS,
        forall|i: int| 0 <= i < r@.len() ==> hill_in_bounds(#[trigger] r@[i], *params),
        hills_spread(r@, params.hill_max_overlap as int),
        hills_sorted(r@),
{
    let hill_count = params.map_width / params.hill_map_width_per;
    let mut hills: Vec<HillParameters> = Vec::new();
    let mut attempts: usize = 0;
    while hills.len() < hill_count && attempts < MAX_ATTEMPTS
        invariant
            params.wf(),
            hill_count == params.map_width / params.hill_map_width_per,
            hills@.len() <= hill_count,
            hills@.len() <= attempts <= MAX_ATTEMPTS,
            forall|i: int| 0 <= i < hills@.len() ==> hill_in_bounds(#[trigger] hills@[i], *params),
            hills_spread(hills@, params.hill_max_overlap as int),
            hills_sorted(hills@),
        decreases MAX_ATTEMPTS - attempts,
    {
        let candidate = HillParameters::new(params);
        attempts = attempts + 1;
        let mut fits = true;
        let mut pos: usize = 0;
        let mut j: usize = 0;
        while j < hills.len()
            invariant
                params.wf(),
                hill_in_bounds(candidate, *params),
                forall|i: int| 0 <= i < hills@.len() ==> hill_in_bounds(#[trigger] hills@[i], *params),
                0 <= j <= hills@.len(),
                pos <= j,
                fits ==> forall|i: int| 0 <= i < j ==> hill_overlap(candidate, #[trigger] hills@[i]) <= params.hill_max_overlap,
                forall|i: int| 0 <= i < pos ==> hill_le(#[trigger] hills@[i], candidate),
                forall|i: int| pos <= i < j ==> !hill_le(#[trigger] hills@[i], candidate),
                hills_sorted(hills@),
            decreases hills@.len() - j,
        {
            let h = hills[j];
            if candidate.get_overlap(&h) > params.hill_max_overlap as i32 {
                fits = false;
            }
            if hill_before(&h, &candidate) {
                if pos < j {
                    assert(hill_le(hills@[pos as int], hills@[j as int]));
                    assert(!hill_le(hills@[pos as int], candidate));
                }
                pos = j + 1;
            }
            j = j + 1;
        }
        if fits {
            let ghost old_hills = hills@;
            hills.insert(pos, candidate);
            proof {
                assert forall|i: int, k: int|
                    0 <= i < hills@.len() && 0 <= k < hills@.len() && i != k implies hill_overlap(
                    #[trigger] hills@[i],
                    #[trigger] hills@[k],
                ) <= params.hill_max_overlap by {
                    let ii = if i < pos { i } else if i == pos { -1 } else { i - 1 };
                    let kk = if k < pos { k } else if k == pos { -1 } else { k - 1 };
                    if ii >= 0 && kk >= 0 {
                        assert(hills@[i] == old_hills[ii]);
                        assert(hills@[k] == old_hills[kk]);
                        assert(hill_overlap(old_hills[ii], old_hills[kk]) <= params.hill_max_overlap);
                    } else if ii >= 0 {
                        assert(hills@[i] == old_hills[ii]);
                        assert(hill_overlap(candidate, old_hills[ii]) <= params.hill_max_overlap);
                    } else if kk >= 0 {
                        assert(hills@[k] == old_hills[kk]);
                        assert(hill_overlap(candidate, old_hills[kk]) <= params.hill_max_overlap);
                    }
                }
                assert forall|i: int, k: int| 0 <= i < k < hills@.len() implies hill_le(
                    #[trigger] hills@[i],
                    #[trigger] hills@[k],
                ) by {
                    if k < pos {
                        assert(hill_le(old_hills[i], old_hills[k]));
                    } else if k == pos {
                        assert(hill_le(old_hills[i], candidate));
                    } else if i < pos {
                        assert(hills@[k] == old_hills[k - 1]);
                        assert(hill_le(old_hills[i], candidate));
                        assert(!hill_le(old_hills[k - 1], candidate));
                    } else if i == pos {
                        assert(hills@[k] == old_hills[k - 1]);
                        assert(!hill_le(old_hills[k - 1], candidate));
                    } else {
                        assert(hills@[k] == old_hills[k - 1]);
                        assert(hills@[i] == old_hills[i - 1]);
                        assert(hill_le(old_hills[i - 1], old_hills[k - 1]));
                    }
                }
                assert forall|i: int| 0 <= i < hills@.len() implies hill_in_bounds(#[trigger] hills@[i], *params) by {
                    if i < pos {
                        assert(hills@[i] == old_hills[i]);
                    } else if i > pos {
                        assert(hills@[i] == old_hills[i - 1]);
                    }
                }
            }
        }
    }
    hills
}

/// Grass tops each column; dirt lies under it; stone fills the rest down to
/// the bottom edge.
pub open spec fn grass_tile() -> TileData {
    TileData { fg_id: 2, bg_id: 1, solid: true }
}

pub open spec fn dirt_tile() -> TileData {
    TileData { fg_id: 1, bg_id: 1, solid: true }
}

pub open spec fn stone_tile() -> TileData {
    TileData { fg_id: 3, bg_id: 3, solid: true }
}

/// Total height that the hills add at column `x`.
pub open spec fn hills_height(hills: Seq<HillParameters>, x: int) -> int
    decreases hills.len(),
{
    if hills.len() == 0 {
        0
    } else {
        hills_height(hills.drop_last(), x) + hill_height_at(hills.last(), x)
    }
}

/// Ground level of column `x`: its offset plus the hills' heights there.
pub open spec fn column_level(params: MapParameters, offsets: Seq<i16>, hills: Seq<HillParameters>, x: int) -> int {
    offsets[x - params.left_edge] as int + hills_height(hills, x)
}

/// The tile that a column with ground at `level` holds in row `y`.
pub open spec fn column_tile(params: MapParameters, level: int, y: int) -> TileData {
    if y == level {
        grass_tile()
    } else if level - params.dirt_thickness <= y < level {
        dirt_tile()
    } else if params.bottom_edge <= y < level - params.dirt_thickness {
        stone_tile()
    } else {
        TileData::blank()
    }
}

/// The generated map at `c`: columns between the left and right edges
/// follow their level; everything else is empty.
pub open spec fn terrain_tile(
    params: MapParameters,
    offsets: Seq<i16>,
    hills: Seq<HillParameters>,
    c: TileCoord,
) -> TileData {
    if params.left_edge <= c.x <= params.right_edge {
        column_tile(params, column_level(params, offsets, hills, c.x as int), c.y as int)
    } else {
        TileData::blank()
    }
}

/// Generation could not build a consistent map: there were fewer ground
/// offsets than columns.
#[derive(Clone, Copy, Debug, PartialEq, Eq, Structural)]
pub struct TerrainGenerationError {
    pub offsets_len: usize,
    pub columns: usize,
}

proof fn lemma_hills_height_bounds(hills: Seq<HillParameters>, x: int)
    requires
        forall|i: int| 0 <= i < hills.len() ==> (#[trigger] hills[i]).wf(),
    ensures
        0 <= hills_height(hills, x) <= hills.len() * 0x8000,
    decreases hills.len(),
{
    if hills.len() > 0 {
        lemma_hills_height_bounds(hills.drop_last(), x);
        assert(hills.last().wf());
    }
}

/// Bakes offsets and hills into a map: for each column from the left edge
/// to the right edge, grass at its level, `dirt_thickness` rows of dirt
/// under it, and stone from the bottom edge up to the dirt.  Fails when
/// there are fewer offsets than the map is wide.
pub fn rasterize_canvas(
    params: &MapParameters,
    offsets: &Vec<i16>,
    hills: &Vec<HillParameters>,
) -> (r: Result<GameMap, TerrainGenerationError>)
    requires
        params.wf(),
        hills@.len() <= 0x1000,
        forall|i: int| 0 <= i < hills@.len() ==> (#[trigger] hills@[i]).wf(),
    ensures
        offsets@.len() < column_count(*params) <==> r is Err,
        r matches Err(e) ==> e == (TerrainGenerationError {
            offsets_len: offsets.len(),
            columns: column_count(*params) as usize,
        }),
        r matches Ok(m) ==> m.wf() && forall|c: TileCoord|
            #[trigger] tile_spec(m@, c) == terrain_tile(*params, offsets@, hills@, c),
        r matches Ok(m) ==> forall|c: TileCoord|
            #[trigger] m@.contains_key(c) ==> m@[c].solid && m@[c].fg_id != 0,
{
    let columns: usize = (params.right_edge as i32 - params.left_edge as i32 + 1) as usize;
    if offsets.len() < columns {
        return Err(TerrainGenerationError { offsets_len: offsets.len(), columns });
    }
    let mut map = GameMap::new();
    let left: i32 = params.left_edge as i32;
    let right: i32 = params.right_edge as i32;
    let d: i32 = params.dirt_thickness as i32;
    let bottom: i32 = params.bottom_edge as i32;
    let mut x: i32 = left;
    while x <= right
        invariant
            params.wf(),
            hills@.len() <= 0x1000,
            forall|i: int| 0 <= i < hills@.len() ==> (#[trigger] hills@[i]).wf(),
            left == params.left_edge,
            right == params.right_edge,
            d == params.dirt_thickness,
            bottom == params.bottom_edge,
            left <= x <= right + 1,
            offsets@.len() >= column_count(*params),
            map.wf(),
            forall|c: TileCoord|
                #[trigger] tile_spec(map@, c) == (if c.x < x {
                    terrain_tile(*params, offsets@, hills@, c)
                } else {
                    TileData::blank()
                }),
        decreases right + 1 - x,
    {
        let i: usize = (x - left) as usize;
        let mut level: i64 = offsets[i] as i64;
        let ghost base = level;
        let mut k: usize = 0;
        while k < hills.len()
            invariant
                forall|j: int| 0 <= j < hills@.len() ==> (#[trigger] hills@[j]).wf(),
                hills@.len() <= 0x1000,
                0 <= k <= hills@.len(),
                -0x8000 <= base <= 0x8000,
                params.wf(),
                left == params.left_edge,
                right == params.right_edge,
                left <= x <= right,
                level == base + hills_height(hills@.take(k as int), x as int),
            decreases hills@.len() - k,
        {
            proof {
                assert(hills@.take(k + 1).drop_last() =~= hills@.take(k as int));
                assert(hills@.take(k + 1).last() == hills@[k as int]);
                lemma_hills_height_bounds(hills@.take(k as int), x as int);
            }
            let h = hills[k].height_at(x as i16);
            level = level + h as i64;
            k = k + 1;
        }
        proof {
            assert(hills@.take(hills@.len() as int) =~= hills@);
            lemma_hills_height_bounds(hills@, x as int);
            assert(level == column_level(*params, offsets@, hills@, x as int));
        }
        proof {
            assert(hills@.len() * 0x8000 <= 0x1000 * 0x8000) by (nonlinear_arith)
                requires hills@.len() <= 0x1000;
        }
        let lv: i32 = level as i32;
        let dirt_start: i32 = lv - d;
        let mut y: i32 = bottom;
        while y < dirt_start
            invariant
                map.wf(),
                dirt_start == lv - d,
                bottom <= y,
                y <= dirt_start || y == bottom,
                forall|c: TileCoord|
                    #[trigger] tile_spec(map@, c) == (if c.x < x {
                        terrain_tile(*params, offsets@, hills@, c)
                    } else if c.x == x && bottom <= c.y < y {
                        stone_tile()
                    } else {
                        TileData::blank()
                    }),
            decreases dirt_start - y,
        {
            let ghost pre = map@;
            let cur = TileCoord { x, y };
            map.set_tile(&cur, TileData::with_materials(3, 3));
            proof {
                assert forall|c: TileCoord| #[trigger] tile_spec(map@, c) == (if c == cur {
                    stone_tile()
                } else {
                    tile_spec(pre, c)
                }) by {
                    if c == cur {
                    }
                }
            }
            y = y + 1;
        }
        let mut y: i32 = dirt_start;
        while y < lv
            invariant
                map.wf(),
                dirt_start == lv - d,
                lv - d <= y <= lv,
                forall|c: TileCoord|
                    #[trigger] tile_spec(map@, c) == (if c.x < x {
                        terrain_tile(*params, offsets@, hills@, c)
                    } else if c.x == x && lv - d <= c.y < y {
                        dirt_tile()
                    } else if c.x == x && bottom <= c.y < lv - d {
                        stone_tile()
                    } else {
                        TileData::blank()
                    }),
            decreases lv - y,
        {
            let ghost pre = map@;
            let cur = TileCoord { x, y };
            map.set_tile(&cur, TileData::with_materials(1, 1));
            proof {
                assert forall|c: TileCoord| #[trigger] tile_spec(map@, c) == (if c == cur {
                    dirt_tile()
                } else {
                    tile_spec(pre, c)
                }) by {
                    if c == cur {
                    }
                }
            }
            y = y + 1;
        }
        let ghost pre = map@;
        let cur = TileCoord { x, y: lv };
        map.set_tile(&cur, TileData::with_materials(2, 1));
        proof {
            assert forall|c: TileCoord| #[trigger] tile_spec(map@, c) == (if c.x < x + 1 {
                terrain_tile(*params, offsets@, hills@, c)
            } else {
                TileData::blank()
            }) by {
                if c == cur {
                } else {
                    assert(tile_spec(map@, c) == tile_spec(pre, c));
                }
            }
        }
        x = x + 1;
    }
    proof {
        assert forall|c: TileCoord| #[trigger] map@.contains_key(c) implies map@[c].solid
            && map@[c].fg_id != 0 by {
            assert(tile_spec(map@, c) == terrain_tile(*params, offsets@, hills@, c));
            map.lemma_tiles_consistent();
        }
    }
    Ok(map)
}

/// Builds a random map from the settings: ground offsets, hills, then
/// rasterisation.  The offsets always cover the width, so this cannot fail.
pub fn generate_map(params: &MapParameters) -> (r: GameMap)
    requires
        params.wf(),
    ensures
        r.wf(),
        exists|o: Seq<i16>, h: Seq<HillParameters>|
            offsets_valid(o, *params) && hills_spread(h, params.hill_max_overlap as int)
                && (forall|i: int| 0 <= i < h.len() ==> hill_in_bounds(#[trigger] h[i], *params))
                && (forall|c: TileCoord| #[trigger] tile_spec(r@, c) == terrain_tile(*params, o, h, c)),
{
    let offsets = generate_terrain_offsets(params);
    let hills = generate_hills(params);
    match rasterize_canvas(params, &offsets, &hills) {
        Ok(map) => map,
        Err(_) => {
            proof {
                assert(false);
            }
            GameMap::new()
        },
    }
}

/// Half the side of the flat square world.
pub const FLAT_HALF_SIZE: i32 = 40;

/// The flat world at `c`: within the square, grass on row 0, dirt on the
/// ten rows under it, stone below, and air above.
pub open spec fn flat_tile(c: TileCoord) -> TileData {
    if -FLAT_HALF_SIZE <= c.x < FLAT_HALF_SIZE && -FLAT_HALF_SIZE <= c.y < FLAT_HALF_SIZE {
        if c.y >= 1 {
            TileData::blank()
        } else if c.y == 0 {
            grass_tile()
        } else if c.y >= -10 {
            dirt_tile()
        } else {
            stone_tile()
        }
    } else {
        TileData::blank()
    }
}

/// Builds the fixed flat world: an 80 x 80 square of cells centred on the
/// origin with the ground surface on row 0.
pub fn build_terrain() -> (r: GameMap)
    ensures
        r.wf(),
        forall|c: TileCoord| #[trigger] tile_spec(r@, c) == flat_tile(c),
{
    let mut map = GameMap::new();
    let mut i: i32 = -FLAT_HALF_SIZE;
    while i < FLAT_HALF_SIZE
        invariant
            -FLAT_HALF_SIZE <= i <= FLAT_HALF_SIZE,
            map.wf(),
            forall|c: TileCoord|
                #[trigger] tile_spec(map@, c) == (if c.x < i { flat_tile(c) } else { TileData::blank() }),
        decreases FLAT_HALF_SIZE - i,
    {
        let mut j: i32 = -FLAT_HALF_SIZE;
        while j < 1
            invariant
                -FLAT_HALF_SIZE <= i < FLAT_HALF_SIZE,
                -FLAT_HALF_SIZE <= j <= 1,
                map.wf(),
                forall|c: TileCoord|
                    #[trigger] tile_spec(map@, c) == (if c.x < i || (c.x == i && c.y < j) {
                        flat_tile(c)
                    } else {
                        TileData::blank()
                    }),
            decreases 1 - j,
        {
            let t = if j == 0 {
                TileData::with_materials(2, 1)
            } else if j >= -10 {
                TileData::with_materials(1, 1)
            } else {
                TileData::with_materials(3, 3)
            };
            let ghost pre = map@;
            let cur = TileCoord { x: i, y: j };
            map.set_tile(&cur, t);
            proof {
                assert forall|c: TileCoord| #[trigger] tile_spec(map@, c) == (if c.x < i || (c.x == i && c.y < j + 1) {
                    flat_tile(c)
                } else {
                    TileData::blank()
                }) by {
                    if c == cur {
                    } else {
                        assert(tile_spec(map@, c) == tile_spec(pre, c));
                    }
                }
            }
            j = j + 1;
        }
        proof {
            assert forall|c: TileCoord| #[trigger] tile_spec(map@, c) == (if c.x < i + 1 {
                flat_tile(c)
            } else {
                TileData::blank()
            }) by {
                if c.x == i && c.y >= 1 {
                    assert(tile_spec(map@, c) == TileData::blank());
                }
            }
        }
        i = i + 1;
    }
    map
}

} // verus!
