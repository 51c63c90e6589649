use terrustia::geometry::{ceil_tile, floor_tile, Vec2i};
use terrustia::map::{occupied_range, GameMap};
use terrustia::tile::{TileCoord, TileData};

const S: i64 = 65536;

fn c(x: i32, y: i32) -> TileCoord {
    TileCoord::new(x, y)
}

#[test]
fn empty_map_reads_blank() {
    let map = GameMap::new();
    let t = map.tile_at(&c(3, -7));
    assert_eq!(t, TileData::default());
    assert!(!t.is_solid());
    assert_eq!(map.len(), 0);
}

#[test]
fn set_then_read_and_remove() {
    let mut map = GameMap::new();
    map.set_tile(&c(1, 2), TileData::with_materials(3, 1));
    map.set_tile(&c(-1, 2), TileData::with_materials(0, 2));
    assert_eq!(map.len(), 2);
    let t = map.tile_at(&c(1, 2));
    assert_eq!((t.fg_id, t.bg_id, t.solid), (3, 1, true));
    let b = map.tile_at(&c(-1, 2));
    assert_eq!((b.fg_id, b.bg_id, b.solid), (0, 2, false));
    map.set_tile(&c(1, 2), TileData::with_materials(0, 0));
    assert_eq!(map.len(), 1);
    assert_eq!(map.tile_at(&c(1, 2)), TileData::default());
    map.set_tile(&c(-1, 2), TileData::with_materials(5, 2));
    assert_eq!(map.len(), 1);
    assert_eq!(map.tile_at(&c(-1, 2)).fg_id, 5);
}

#[test]
fn tiles_in_range_lists_only_stored_cells_inside() {
    let mut map = GameMap::new();
    for x in -3..4 {
        for y in -3..4 {
            if (x + y) % 2 == 0 {
                map.set_tile(&c(x, y), TileData::with_materials(1, 1));
            }
        }
    }
    let found = map.tiles_in_range(&c(-1, 0), &c(1, 2));
    let coords: Vec<(i32, i32)> = found.iter().map(|e| (e.0.x, e.0.y)).collect();
    assert_eq!(coords, vec![(-1, 1), (0, 0), (0, 2), (1, 1)]);
    assert!(found.iter().all(|e| e.1.solid && e.1.fg_id == 1));
    let none = map.tiles_in_range(&c(10, 10), &c(20, 20));
    assert!(none.is_empty());
}

#[test]
fn tile_conversions_round_each_way() {
    assert_eq!(floor_tile(0), 0);
    assert_eq!(floor_tile(-1), -1);
    assert_eq!(floor_tile(S), 1);
    assert_eq!(floor_tile(-S), -1);
    assert_eq!(floor_tile(-S - 1), -2);
    assert_eq!(ceil_tile(1), 1);
    assert_eq!(ceil_tile(S), 1);
    assert_eq!(ceil_tile(-S), -1);
    assert_eq!(ceil_tile(-S + 1), 0);
}

#[test]
fn occupied_range_grid_aligned() {
    let (lo, hi) = occupied_range(&Vec2i::new(S / 2, S / 2), &Vec2i::new(S / 2, S / 2));
    assert_eq!((lo.x, lo.y, hi.x, hi.y), (0, 0, 1, 1));
}

#[test]
fn occupied_range_covers_partial_cells() {
    let (lo, hi) = occupied_range(&Vec2i::new(-S / 4, 0), &Vec2i::new(S / 4, S));
    assert_eq!((lo.x, lo.y, hi.x, hi.y), (-1, -1, 0, 1));
    let (lo, hi) = occupied_range(&Vec2i::new(3 * S + 7, -2 * S - 9), &Vec2i::new(S, 3 * S / 2));
    assert_eq!((lo.x, lo.y, hi.x, hi.y), (2, -4, 5, 0));
}

#[test]
fn occupied_range_covers_every_overlapped_cell() {
    let centers = [(0i64, 0i64), (S, -S), (12345, -98765), (-3 * S + 1, 5 * S - 1), (S / 2, S / 3)];
    let halves = [(1i64, 1i64), (S, S), (S / 2, 3 * S / 2), (7, 90000)];
    for &(cx, cy) in centers.iter() {
        for &(hx, hy) in halves.iter() {
            let (lo, hi) = occupied_range(&Vec2i::new(cx, cy), &Vec2i::new(hx, hy));
            for tx in -10i64..10 {
                for ty in -10i64..10 {
                    let ox = cx - hx < (tx + 1) * S && tx * S < cx + hx;
                    let oy = cy - hy < (ty + 1) * S && ty * S < cy + hy;
                    if ox && oy {
                        assert!(lo.x as i64 <= tx && tx <= hi.x as i64);
                        assert!(lo.y as i64 <= ty && ty <= hi.y as i64);
                    }
                }
            }
        }
    }
}

#[test]
fn tile_under_rounds_down_both_axes() {
    let mut map = GameMap::new();
    map.set_tile(&c(2, -1), TileData::with_materials(2, 1));
    let (coord, t) = map.tile_under(&Vec2i::new(2 * S + 5, -1));
    assert_eq!((coord.x, coord.y), (2, -1));
    assert_eq!(t.fg_id, 2);
    let (coord, t) = map.tile_under(&Vec2i::new(-1, 0));
    assert_eq!((coord.x, coord.y), (-1, 0));
    assert!(!t.solid);
}
