//! Tile coordinates and tile contents.
use vstd::prelude::*;

verus! {

/// Material id that placement puts into an empty cell.
pub const DEFAULT_MATERIAL: u16 = 1;

/// Integer coordinates of one grid cell.
#[derive(Clone, Copy, Debug, PartialEq, Eq, Structural)]
pub struct TileCoord {
    pub x: i32,
    pub y: i32,
}

impl TileCoord {
    pub fn new(x: i32, y: i32) -> (r: TileCoord)
        ensures
            r.x == x,
            r.y == y,
    {
        TileCoord { x, y }
    }
}

/// Row-major order on coordinates: by column, then by row.
pub open spec fn coord_lt(a: TileCoord, b: TileCoord) -> bool {
    a.x < b.x || (a.x == b.x && a.y < b.y)
}

/// `c` lies in the inclusive rectangle spanned by `lo` and `hi`.
pub open spec fn in_rect(c: TileCoord, lo: TileCoord, hi: TileCoord) -> bool {
    lo.x <= c.x <= hi.x && lo.y <= c.y <= hi.y
}

pub fn coord_less(a: &TileCoord, b: &TileCoord) -> (r: bool)
    ensures
        r == coord_lt(*a, *b),
{
    a.x < b.x || (a.x == b.x && a.y < b.y)
}

/// The contents of one grid cell.
#[derive(Clone, Copy, Debug, PartialEq, Eq, Structural)]
pub struct TileData {
    /// Foreground material id; `0` is no block.
    pub fg_id: u16,
    /// Background material id, cosmetic only.
    pub bg_id: u16,
    /// Whether bodies collide with the tile.
    pub solid: bool,
}

impl TileData {
    /// A tile is consistent when it is solid exactly when it holds a block.
    pub open spec fn wf(self) -> bool {
        self.solid == (self.fg_id != 0)
    }

    /// The canonical empty tile, which an absent map entry stands for.
    pub open spec fn blank() -> TileData {
        TileData { fg_id: 0, bg_id: 0, solid: false }
    }

    pub open spec fn is_blank(self) -> bool {
        self == TileData::blank()
    }

    /// A consistent tile with the given materials.
    pub fn with_materials(fg_id: u16, bg_id: u16) -> (r: TileData)
        ensures
            r.fg_id == fg_id,
            r.bg_id == bg_id,
            r.wf(),
    {
        TileData { fg_id, bg_id, solid: fg_id != 0 }
    }

    pub fn is_solid(&self) -> (r: bool)
        ensures
            r == self.solid,
    {
        self.solid
    }

    pub fn is_blank_tile(&self) -> (r: bool)
        ensures
            r == self.is_blank(),
    {
        self.fg_id == 0 && self.bg_id == 0 && !self.solid
    }
}

impl Default for TileData {
    fn default() -> (r: TileData)
        ensures
            r == TileData::blank(),
    {
        TileData { fg_id: 0, bg_id: 0, solid: false }
    }
}

} // verus!
