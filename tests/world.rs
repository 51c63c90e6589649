use terrustia::generation::{
    build_terrain, extend_offsets, generate_hills, generate_map, generate_terrain_offsets, rasterize_canvas,
    HillParameters, MapParameters, TerrainGenerationError,
};
use terrustia::inventory::{Inventory, ItemPickedUp, ItemStack};
use terrustia::tile::TileCoord;

fn small_params() -> MapParameters {
    MapParameters {
        map_width: 4,
        map_height: 6,
        sky_height: 2,
        offsets_shift_limit: 2,
        offsets_run_min: 1,
        offsets_run_max: 2,
        hill_min_width: 2,
        hill_max_width: 4,
        hill_min_height: 1,
        hill_max_height: 3,
        hill_map_edge_margin: 0,
        hill_max_overlap: 1,
        hill_map_width_per: 2,
        dirt_thickness: 1,
        right_edge: 2,
        left_edge: -3,
        top_edge: 2,
        bottom_edge: -3,
    }
}

#[test]
fn default_parameters_derive_edges() {
    let p = MapParameters::default();
    assert_eq!((p.map_width, p.map_height, p.sky_height), (300, 50, 15));
    assert_eq!((p.left_edge, p.right_edge, p.top_edge, p.bottom_edge), (-151, 150, 15, -34));
}

#[test]
fn hill_height_falls_off_linearly() {
    let h = HillParameters { x: 0, height: 10, width: 20 };
    assert_eq!(h.height_at(0), 9);
    assert_eq!(h.height_at(10), 5);
    assert_eq!(h.height_at(-10), 5);
    assert_eq!(h.height_at(4), 8);
    assert_eq!(h.height_at(25), 0);
}

#[test]
fn hill_overlap_measures_shared_span() {
    let a = HillParameters { x: 0, height: 5, width: 20 };
    let b = HillParameters { x: 15, height: 5, width: 10 };
    let c = HillParameters { x: 40, height: 5, width: 10 };
    assert_eq!(a.get_overlap(&b), 0);
    assert_eq!(b.get_overlap(&a), 0);
    assert_eq!(a.get_overlap(&c), -25);
    assert_eq!(a.get_overlap(&a), 20);
}

#[test]
fn rasterize_rejects_short_offsets() {
    let p = small_params();
    let r = rasterize_canvas(&p, &vec![0, 0, 0], &Vec::new());
    assert_eq!(r.err(), Some(TerrainGenerationError { offsets_len: 3, columns: 6 }));
}

#[test]
fn rasterize_needs_an_offset_for_every_column() {
    let p = small_params();
    let r = rasterize_canvas(&p, &vec![0, 0, 0, 0], &Vec::new());
    assert_eq!(r.err(), Some(TerrainGenerationError { offsets_len: 4, columns: 6 }));
    let r = rasterize_canvas(&p, &vec![0, 0, 0, 0, 0], &Vec::new());
    assert_eq!(r.err(), Some(TerrainGenerationError { offsets_len: 5, columns: 6 }));
    assert!(rasterize_canvas(&p, &vec![0, 0, 0, 0, 0, 0], &Vec::new()).is_ok());
}

#[test]
fn last_columns_use_their_own_offsets() {
    let p = small_params();
    let map = rasterize_canvas(&p, &vec![0, 0, 0, 0, 2, -1], &Vec::new()).ok().unwrap();
    assert_eq!(map.tile_at(&TileCoord::new(1, 2)).fg_id, 2);
    assert_eq!(map.tile_at(&TileCoord::new(2, -1)).fg_id, 2);
    assert_eq!(map.tile_at(&TileCoord::new(2, 0)).fg_id, 0);
}

#[test]
fn rasterize_builds_columns() {
    let p = small_params();
    let map = rasterize_canvas(&p, &vec![0, 1, 0, -1, 0, 0], &Vec::new()).ok().unwrap();
    let at = |x: i32, y: i32| {
        let t = map.tile_at(&TileCoord::new(x, y));
        (t.fg_id, t.bg_id, t.solid)
    };
    assert_eq!(at(-3, 0), (2, 1, true));
    assert_eq!(at(-3, -1), (1, 1, true));
    assert_eq!(at(-3, -2), (3, 3, true));
    assert_eq!(at(-3, -3), (3, 3, true));
    assert_eq!(at(-3, -4), (0, 0, false));
    assert_eq!(at(-3, 1), (0, 0, false));
    assert_eq!(at(-2, 1), (2, 1, true));
    assert_eq!(at(-2, 0), (1, 1, true));
    assert_eq!(at(0, -1), (2, 1, true));
    assert_eq!(at(0, -2), (1, 1, true));
    assert_eq!(at(0, -3), (3, 3, true));
    assert_eq!(at(1, 0), (2, 1, true));
    assert_eq!(at(2, 0), (2, 1, true));
    assert_eq!(at(3, 0), (0, 0, false));
    assert_eq!(at(-4, 0), (0, 0, false));
}

#[test]
fn rasterize_adds_hill_heights() {
    let p = small_params();
    let hills = vec![HillParameters { x: 0, height: 3, width: 4 }];
    let map = rasterize_canvas(&p, &vec![0, 0, 0, 0, 0, 0], &hills).ok().unwrap();
    assert_eq!(map.tile_at(&TileCoord::new(0, 2)).fg_id, 2);
    assert_eq!(map.tile_at(&TileCoord::new(1, 2)).fg_id, 2);
    assert_eq!(map.tile_at(&TileCoord::new(2, 2)).fg_id, 2);
    assert_eq!(map.tile_at(&TileCoord::new(-3, 1)).fg_id, 2);
    assert_eq!(map.tile_at(&TileCoord::new(-3, 0)).fg_id, 1);
}

#[test]
fn offsets_cover_width_and_move_by_one() {
    let p = MapParameters::default();
    for _ in 0..20 {
        let o = generate_terrain_offsets(&p);
        let columns = (p.right_edge - p.left_edge + 1) as usize;
        assert_eq!(columns, 302);
        assert!(o.len() >= columns && o.len() < columns + p.offsets_run_max);
        assert!(o.iter().all(|v| v.abs() <= p.offsets_shift_limit));
        assert!(o.windows(2).all(|w| (w[1] - w[0]).abs() <= 1));
    }
}

#[test]
fn offsets_come_in_runs_of_drawn_length() {
    let p = MapParameters::default();
    for _ in 0..20 {
        let o = generate_terrain_offsets(&p);
        let mut i = 0;
        let mut runs = Vec::new();
        while i < o.len() {
            let mut j = i;
            while j < o.len() && o[j] == o[i] {
                j += 1;
            }
            runs.push(j - i);
            i = j;
        }
        // Equal neighbouring runs merge when the offset is clamped at the
        // limit, so each maximal block is a whole number of runs.
        assert!(runs.iter().all(|&n| n >= p.offsets_run_min));
        assert!(o.len() > 0);
    }
}

#[test]
fn extend_offsets_appends_a_run_and_steps() {
    let mut o: Vec<i16> = vec![1];
    assert_eq!(extend_offsets(&mut o, 2, 3, true, 4), 3);
    assert_eq!(o, vec![1, 2, 2, 2]);
    assert_eq!(extend_offsets(&mut o, 2, 1, false, 4), 1);
    assert_eq!(o, vec![1, 2, 2, 2, 2]);
    assert_eq!(extend_offsets(&mut o, 4, 2, true, 4), 4);
    assert_eq!(extend_offsets(&mut o, -4, 1, false, 4), -4);
    assert_eq!(o, vec![1, 2, 2, 2, 2, 4, 4, -4]);
}

#[test]
fn generation_draws_vary_between_runs() {
    let p = MapParameters::default();
    let mut firsts = Vec::new();
    let mut centres = Vec::new();
    for _ in 0..60 {
        let o = generate_terrain_offsets(&p);
        if !firsts.contains(&o[0]) {
            firsts.push(o[0]);
        }
        for h in generate_hills(&p) {
            if !centres.contains(&h.x) {
                centres.push(h.x);
            }
        }
    }
    assert!(firsts.len() > 1);
    assert!(centres.len() > 1);
}

#[test]
fn hills_are_bounded_sorted_and_spread() {
    let p = MapParameters::default();
    for _ in 0..20 {
        let h = generate_hills(&p);
        assert!(h.len() <= p.map_width / p.hill_map_width_per);
        for (i, a) in h.iter().enumerate() {
            assert!(a.x >= p.left_edge + p.hill_map_edge_margin);
            assert!(a.x <= p.right_edge - p.hill_map_edge_margin);
            assert!(a.height >= p.hill_min_height && a.height <= p.hill_max_height);
            assert!(a.width >= p.hill_min_width && a.width <= p.hill_max_width);
            for (j, b) in h.iter().enumerate() {
                if i != j {
                    assert!(a.get_overlap(b) <= p.hill_max_overlap as i32);
                }
                if i < j {
                    assert!(a.x <= b.x);
                }
            }
        }
    }
}

#[test]
fn generated_map_has_grass_over_dirt_in_every_column() {
    let p = MapParameters::default();
    let map = generate_map(&p);
    for x in (p.left_edge as i32)..=(p.right_edge as i32) {
        let mut grass = Vec::new();
        for y in -200..200 {
            let t = map.tile_at(&TileCoord::new(x, y));
            assert_eq!(t.solid, t.fg_id != 0);
            if t.fg_id == 2 {
                grass.push(y);
            }
        }
        assert_eq!(grass.len(), 1);
        let level = grass[0];
        assert_eq!(map.tile_at(&TileCoord::new(x, level + 1)).fg_id, 0);
        for d in 1..=5 {
            assert_eq!(map.tile_at(&TileCoord::new(x, level - d)).fg_id, 1);
        }
        assert_eq!(map.tile_at(&TileCoord::new(x, p.bottom_edge as i32)).fg_id, 3);
    }
    assert_eq!(map.tile_at(&TileCoord::new(p.right_edge as i32 + 1, 0)).fg_id, 0);
}

#[test]
fn flat_world_layout() {
    let map = build_terrain();
    assert_eq!(map.len(), 80 * 41);
    assert_eq!(map.tile_at(&TileCoord::new(0, 0)).fg_id, 2);
    assert_eq!(map.tile_at(&TileCoord::new(-40, -10)).fg_id, 1);
    assert_eq!(map.tile_at(&TileCoord::new(39, -11)).fg_id, 3);
    assert_eq!(map.tile_at(&TileCoord::new(39, -40)).fg_id, 3);
    assert_eq!(map.tile_at(&TileCoord::new(0, 1)).fg_id, 0);
    assert_eq!(map.tile_at(&TileCoord::new(40, 0)).fg_id, 0);
    assert_eq!(map.tile_at(&TileCoord::new(0, -41)).fg_id, 0);
}

#[test]
fn pickups_stack_then_fill_empty_slots() {
    let mut inv = Inventory::new();
    assert_eq!(inv.pick_up(ItemPickedUp(2)), Some(0));
    assert_eq!(inv.pick_up(ItemPickedUp(3)), Some(1));
    assert_eq!(inv.pick_up(ItemPickedUp(2)), Some(0));
    assert_eq!(inv.slot(0), Some(ItemStack { count: 2, item_id: 2 }));
    assert_eq!(inv.slot(1), Some(ItemStack { count: 1, item_id: 3 }));
    assert_eq!(inv.slot(2), None);
}

#[test]
fn pickup_into_full_inventory_is_dropped() {
    let mut inv = Inventory::new();
    for id in 1..=5 {
        assert_eq!(inv.pick_up(ItemPickedUp(id)), Some(id - 1));
    }
    assert_eq!(inv.pick_up(ItemPickedUp(9)), None);
    assert_eq!(inv.pick_up(ItemPickedUp(5)), Some(4));
    assert_eq!(inv.slot(4), Some(ItemStack { count: 2, item_id: 5 }));
}

#[test]
fn matching_stack_beats_earlier_empty_slot() {
    let mut inv = Inventory::new();
    inv.slots[3] = Some(ItemStack { count: 7, item_id: 4 });
    assert_eq!(inv.pick_up(ItemPickedUp(4)), Some(3));
    assert_eq!(inv.slot(3), Some(ItemStack { count: 8, item_id: 4 }));
    assert_eq!(inv.slot(0), None);
}
