use terrustia::body::PhysicsConfig;
use terrustia::editing::{tile_destruction, tile_interaction, tile_placement, BreakProgress};
use terrustia::geometry::Vec2i;
use terrustia::map::GameMap;
use terrustia::tile::{TileCoord, TileData};

const S: i64 = 65536;

fn solid_map() -> (GameMap, TileCoord) {
    let mut map = GameMap::new();
    let c = TileCoord::new(2, 3);
    map.set_tile(&c, TileData::with_materials(2, 1));
    (map, c)
}

#[test]
fn holding_just_under_the_threshold_never_breaks() {
    let cfg = PhysicsConfig::standard();
    let (mut map, c) = solid_map();
    let mut progress: Option<BreakProgress> = None;
    let mut picked = Vec::new();
    for _ in 0..cfg.break_ticks {
        if let Some(id) = tile_destruction(&mut map, &mut progress, &c, &cfg) {
            picked.push(id);
        }
    }
    assert!(picked.is_empty());
    assert!(map.tile_at(&c).solid);
    assert_eq!(progress, Some(BreakProgress { coord: c, elapsed: cfg.break_ticks - 1 }));
}

#[test]
fn holding_past_the_threshold_breaks_exactly_once() {
    let cfg = PhysicsConfig::standard();
    let (mut map, c) = solid_map();
    let mut progress: Option<BreakProgress> = None;
    let mut picked = Vec::new();
    for tick in 0..(cfg.break_ticks + 20) {
        if let Some(id) = tile_destruction(&mut map, &mut progress, &c, &cfg) {
            picked.push((tick, id));
        }
    }
    assert_eq!(picked, vec![(cfg.break_ticks, 2)]);
    let t = map.tile_at(&c);
    assert_eq!((t.fg_id, t.bg_id, t.solid), (0, 1, false));
    assert_eq!(progress, None);
}

#[test]
fn switching_target_discards_progress() {
    let cfg = PhysicsConfig::standard();
    let (mut map, c) = solid_map();
    let other = TileCoord::new(5, 5);
    map.set_tile(&other, TileData::with_materials(3, 3));
    let mut progress: Option<BreakProgress> = None;
    for _ in 0..30 {
        assert_eq!(tile_destruction(&mut map, &mut progress, &c, &cfg), None);
    }
    assert_eq!(tile_destruction(&mut map, &mut progress, &other, &cfg), None);
    assert_eq!(progress, Some(BreakProgress { coord: other, elapsed: 0 }));
    for _ in 0..cfg.break_ticks {
        assert_eq!(tile_destruction(&mut map, &mut progress, &c, &cfg), None);
    }
    assert!(map.tile_at(&c).solid);
}

#[test]
fn empty_space_cannot_be_broken() {
    let cfg = PhysicsConfig::standard();
    let mut map = GameMap::new();
    let mut progress = Some(BreakProgress { coord: TileCoord::new(0, 0), elapsed: 4 });
    assert_eq!(tile_destruction(&mut map, &mut progress, &TileCoord::new(9, 9), &cfg), None);
    assert_eq!(progress, None);
    assert_eq!(map.len(), 0);
}

#[test]
fn placement_fills_only_empty_cells() {
    let mut map = GameMap::new();
    let c = TileCoord::new(-4, 7);
    map.set_tile(&c, TileData::with_materials(0, 3));
    assert!(tile_placement(&mut map, &c));
    let t = map.tile_at(&c);
    assert_eq!((t.fg_id, t.bg_id, t.solid), (1, 3, true));
    assert!(!tile_placement(&mut map, &c));
    let d = TileCoord::new(8, 8);
    map.set_tile(&d, TileData::with_materials(3, 3));
    assert!(!tile_placement(&mut map, &d));
    assert_eq!(map.tile_at(&d).fg_id, 3);
}

#[test]
fn edits_keep_every_tile_consistent() {
    let cfg = PhysicsConfig { break_ticks: 2, ..PhysicsConfig::standard() };
    let mut map = GameMap::new();
    let mut progress: Option<BreakProgress> = None;
    let mut seed: u32 = 12345;
    for _ in 0..2000 {
        seed = seed.wrapping_mul(1103515245).wrapping_add(12345);
        let x = ((seed >> 8) % 6) as i32 - 3;
        let y = ((seed >> 16) % 6) as i32 - 3;
        let c = TileCoord::new(x, y);
        if (seed >> 4) % 3 == 0 {
            tile_placement(&mut map, &c);
        } else {
            tile_destruction(&mut map, &mut progress, &c, &cfg);
        }
        for tx in -3..3 {
            for ty in -3..3 {
                let t = map.tile_at(&TileCoord::new(tx, ty));
                assert_eq!(t.solid, t.fg_id != 0);
            }
        }
    }
}

#[test]
fn pointer_interaction_targets_cell_under_point() {
    let cfg = PhysicsConfig::standard();
    let mut map = GameMap::new();
    let mut progress: Option<BreakProgress> = None;
    let point = Vec2i::new(2 * S + 5, -1);
    assert_eq!(tile_interaction(&mut map, &mut progress, &point, false, true, &cfg), None);
    let t = map.tile_at(&TileCoord::new(2, -1));
    assert_eq!((t.fg_id, t.solid), (1, true));
    let mut picked = Vec::new();
    for _ in 0..(cfg.break_ticks + 1) {
        if let Some(id) = tile_interaction(&mut map, &mut progress, &point, true, false, &cfg) {
            picked.push(id);
        }
    }
    assert_eq!(picked, vec![1]);
    assert!(!map.tile_at(&TileCoord::new(2, -1)).solid);
}

#[test]
fn releasing_destruction_resets_progress() {
    let cfg = PhysicsConfig::standard();
    let (mut map, _) = solid_map();
    let mut progress: Option<BreakProgress> = None;
    let point = Vec2i::new(2 * S + 1, 3 * S + 1);
    for _ in 0..20 {
        tile_interaction(&mut map, &mut progress, &point, true, false, &cfg);
    }
    assert_eq!(progress.map(|p| p.elapsed), Some(19));
    tile_interaction(&mut map, &mut progress, &point, false, false, &cfg);
    assert_eq!(progress, None);
}
