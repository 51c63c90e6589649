use terrustia::body::{clamp_length, MoveInput, PhysicsBody, PhysicsConfig};
use terrustia::collision::{collect_contacts, fixed_step, is_grounded, resolve_velocity, ContactSide};
use terrustia::geometry::Vec2i;
use terrustia::map::{occupied_range, GameMap};
use terrustia::tile::{TileCoord, TileData};
use terrustia::WORLD_LIMIT;

const S: i64 = 65536;

fn no_input() -> MoveInput {
    MoveInput { left: false, right: false, up: false, down: false, jump: false }
}

fn body(px: i64, py: i64, hx: i64, hy: i64, vx: i64, vy: i64) -> PhysicsBody {
    let mut b = PhysicsBody::new(Vec2i::new(px, py), Vec2i::new(hx, hy));
    b.velocity = Vec2i::new(vx, vy);
    b
}

fn one_tile_map() -> GameMap {
    let mut map = GameMap::new();
    map.set_tile(&TileCoord::new(0, 0), TileData::with_materials(1, 0));
    map
}

#[test]
fn clamp_keeps_short_vectors() {
    assert_eq!(clamp_length(Vec2i::new(3, 4), 5), Vec2i::new(3, 4));
    assert_eq!(clamp_length(Vec2i::new(-300, 0), 1000), Vec2i::new(-300, 0));
}

#[test]
fn clamp_scales_long_vectors_along_their_direction() {
    assert_eq!(clamp_length(Vec2i::new(30000, 40000), 10000), Vec2i::new(6000, 8000));
    assert_eq!(clamp_length(Vec2i::new(-30000, 40000), 10000), Vec2i::new(-6000, 8000));
    assert_eq!(clamp_length(Vec2i::new(0, -70000), 60000), Vec2i::new(0, -60000));
}

#[test]
fn clamp_is_idempotent() {
    for &(x, y) in [(30000i64, 40000i64), (-123456, 654321), (7, -7), (99999, 1)].iter() {
        let once = clamp_length(Vec2i::new(x, y), 5000);
        let twice = clamp_length(once, 5000);
        assert_eq!(once, twice);
        assert!(once.x * once.x + once.y * once.y <= 5000 * 5000);
        assert!(once.x * x >= 0 && once.y * y >= 0);
    }
}

#[test]
fn velocity_cap_limits_speed() {
    let cfg = PhysicsConfig::standard();
    let mut b = body(0, 0, S, S, 0, -70000);
    b.velocity_cap(&cfg);
    assert_eq!(b.velocity, Vec2i::new(0, -60000));
    let mut slow = body(0, 0, S, S, 100, -200);
    slow.velocity_cap(&cfg);
    assert_eq!(slow.velocity, Vec2i::new(100, -200));
}

#[test]
fn environment_applies_drag_and_gravity() {
    let cfg = PhysicsConfig::standard();
    let mut b = body(0, 0, S, S, 12800, 0);
    b.accel_env(&cfg);
    assert_eq!(b.velocity, Vec2i::new(12790, -240));
    let mut n = body(0, 0, S, S, -12800, 1280);
    n.accel_env(&cfg);
    assert_eq!(n.velocity, Vec2i::new(-12790, 1039));
}

#[test]
fn input_thrust_is_normalised() {
    let cfg = PhysicsConfig::standard();
    let mut b = body(0, 0, S, S, 0, 0);
    b.accel_input(&MoveInput { right: true, ..no_input() }, false, &cfg);
    assert_eq!(b.velocity, Vec2i::new(960, 0));
    let mut d = body(0, 0, S, S, 0, 0);
    d.accel_input(&MoveInput { right: true, up: true, ..no_input() }, false, &cfg);
    assert_eq!(d.velocity, Vec2i::new(678, 678));
    let mut z = body(0, 0, S, S, 5, 5);
    z.accel_input(&MoveInput { left: true, right: true, ..no_input() }, false, &cfg);
    assert_eq!(z.velocity, Vec2i::new(5, 5));
}

#[test]
fn jump_sets_vertical_speed_only_when_grounded() {
    let cfg = PhysicsConfig::standard();
    let mut g = body(0, 0, S, S, 10, -500);
    g.accel_input(&MoveInput { jump: true, ..no_input() }, true, &cfg);
    assert_eq!(g.velocity, Vec2i::new(10, 20480));
    let mut a = body(0, 0, S, S, 10, -500);
    a.accel_input(&MoveInput { jump: true, ..no_input() }, false, &cfg);
    assert_eq!(a.velocity, Vec2i::new(10, -500));
}

#[test]
fn settle_snaps_slow_components_without_input() {
    let cfg = PhysicsConfig::standard();
    let mut b = body(0, 0, S, S, 63, -64);
    b.settle(&no_input(), &cfg);
    assert_eq!(b.velocity, Vec2i::new(0, -64));
    let mut h = body(0, 0, S, S, 63, 10);
    h.settle(&MoveInput { right: true, ..no_input() }, &cfg);
    assert_eq!(h.velocity, Vec2i::new(63, 0));
}

#[test]
fn position_update_moves_and_stops_at_world_edge() {
    let mut b = body(100, -100, S, S, 50, -70);
    b.position_update();
    assert_eq!(b.position, Vec2i::new(150, -170));
    let mut e = body(WORLD_LIMIT - 10, 0, S, S, 50, 0);
    e.position_update();
    assert_eq!(e.position, Vec2i::new(WORLD_LIMIT, 0));
}

#[test]
fn extrapolation_adds_fraction_of_step() {
    let b = body(0, 0, S, S, 64, -64);
    assert_eq!(b.extrapolate(1, 2), Vec2i::new(32, -32));
    let c = body(10, 10, S, S, -3, 0);
    assert_eq!(c.extrapolate(1, 2), Vec2i::new(9, 10));
    assert_eq!(c.extrapolate(0, 2), Vec2i::new(10, 10));
}

#[test]
fn contact_sides_from_four_directions() {
    let map = one_tile_map();
    let above = body(S / 2, 2 * S + 100, S / 2, S, 0, -1000);
    let cs = collect_contacts(&map, &above);
    assert_eq!(cs.len(), 1);
    assert_eq!((cs[0].side, cs[0].gap), (ContactSide::Top, 100));
    let below = body(S / 2, -S - 100, S / 2, S, 0, 1000);
    let cs = collect_contacts(&map, &below);
    assert_eq!((cs.len(), cs[0].side, cs[0].gap), (1, ContactSide::Bottom, 100));
    let left = body(-S / 2 - 100, S / 2, S / 2, S, 1000, 0);
    let cs = collect_contacts(&map, &left);
    assert_eq!((cs.len(), cs[0].side, cs[0].gap), (1, ContactSide::Left, 100));
    let right = body(S + S / 2 + 100, S / 2, S / 2, S, -1000, 0);
    let cs = collect_contacts(&map, &right);
    assert_eq!((cs.len(), cs[0].side, cs[0].gap), (1, ContactSide::Right, 100));
}

#[test]
fn approach_stops_at_the_face() {
    let cfg = PhysicsConfig::standard();
    let map = one_tile_map();
    let above = body(S / 2, 2 * S + 100, S / 2, S, 0, -1000);
    let cs = collect_contacts(&map, &above);
    assert_eq!(resolve_velocity(above.velocity, &cs, &cfg), Vec2i::new(0, -100));
    let left = body(-S / 2 - 100, S / 2, S / 2, S, 1000, 7);
    let cs = collect_contacts(&map, &left);
    assert_eq!(resolve_velocity(left.velocity, &cs, &cfg), Vec2i::new(100, 7));
}

#[test]
fn embedded_body_is_pushed_back_damped() {
    let cfg = PhysicsConfig::standard();
    let map = one_tile_map();
    let sunk = body(S / 2, 2 * S - 400, S / 2, S, 0, -1000);
    let cs = collect_contacts(&map, &sunk);
    assert_eq!((cs.len(), cs[0].side, cs[0].gap), (1, ContactSide::Top, -400));
    assert_eq!(resolve_velocity(sunk.velocity, &cs, &cfg), Vec2i::new(0, 250));
}

#[test]
fn no_contact_when_path_misses() {
    let map = one_tile_map();
    let far = body(S / 2, 3 * S, S / 2, S, 0, -1000);
    assert!(collect_contacts(&map, &far).is_empty());
    let resting = body(S / 2, 2 * S, S / 2, S, 0, 0);
    assert!(collect_contacts(&map, &resting).is_empty());
}

#[test]
fn fast_body_cannot_pass_through_a_tile() {
    let cfg = PhysicsConfig::standard();
    let map = one_tile_map();
    let start = body(S / 2, S + S + 59999, S / 2, S, 0, -60000);
    let cs = collect_contacts(&map, &start);
    assert_eq!(cs.len(), 1);
    let mut b = start;
    fixed_step(&map, &mut b, &no_input(), false, &cfg);
    assert_eq!(b.position.y - S, S);
    assert_eq!(b.velocity, Vec2i::new(0, -59999));
    for _ in 0..50 {
        fixed_step(&map, &mut b, &no_input(), false, &cfg);
        assert!(b.position.y - S >= S);
    }
}

#[test]
fn body_falling_on_one_tile_comes_to_rest_on_it() {
    let cfg = PhysicsConfig::standard();
    let map = one_tile_map();
    let mut b = PhysicsBody::from_pos(0, 10 * S);
    assert_eq!(b.half_extents, Vec2i::new(S, 3 * S / 2));
    for _ in 0..400 {
        fixed_step(&map, &mut b, &no_input(), false, &cfg);
    }
    assert_eq!(b.position.y - b.half_extents.y, S);
    assert_eq!(b.position.x, 0);
    assert_eq!(b.velocity, Vec2i::new(0, 0));
    assert!(is_grounded(&map, &b, &cfg));
}

#[test]
fn straddling_body_sees_both_tiles() {
    let mut map = GameMap::new();
    map.set_tile(&TileCoord::new(0, 0), TileData::with_materials(1, 1));
    map.set_tile(&TileCoord::new(1, 0), TileData::with_materials(1, 1));
    let (lo, hi) = occupied_range(&Vec2i::new(S, S / 2), &Vec2i::new(S / 2, S / 4));
    let found = map.tiles_in_range(&lo, &hi);
    let coords: Vec<(i32, i32)> = found.iter().map(|e| (e.0.x, e.0.y)).collect();
    assert_eq!(coords, vec![(0, 0), (1, 0)]);
}

#[test]
fn horizontal_approach_to_a_tile_pair_corrects_only_horizontally() {
    let cfg = PhysicsConfig::standard();
    let mut map = GameMap::new();
    map.set_tile(&TileCoord::new(0, 0), TileData::with_materials(1, 1));
    map.set_tile(&TileCoord::new(1, 0), TileData::with_materials(1, 1));
    let from_left = body(-S / 2 - 100, S / 2, S / 2, S / 4, 1000, 0);
    let cs = collect_contacts(&map, &from_left);
    assert!(cs.iter().all(|c| c.side == ContactSide::Left));
    assert_eq!(resolve_velocity(from_left.velocity, &cs, &cfg), Vec2i::new(100, 0));
    let from_right = body(2 * S + S / 2 + 100, S / 2, S / 2, S / 4, -1000, 0);
    let cs = collect_contacts(&map, &from_right);
    assert!(cs.iter().all(|c| c.side == ContactSide::Right));
    assert_eq!(resolve_velocity(from_right.velocity, &cs, &cfg), Vec2i::new(-100, 0));
}

#[test]
fn grounded_only_with_solid_ground_below() {
    let cfg = PhysicsConfig::standard();
    let map = one_tile_map();
    let on = body(S / 2, 2 * S, S / 2, S, 0, 0);
    assert!(is_grounded(&map, &on, &cfg));
    let high = body(S / 2, 2 * S + 7000, S / 2, S, 0, 0);
    assert!(!is_grounded(&map, &high, &cfg));
    let beside = body(-S / 2, 2 * S, S / 2, S, 0, 0);
    assert!(!is_grounded(&map, &beside, &cfg));
}

#[test]
fn walking_right_on_flat_ground() {
    let cfg = PhysicsConfig::standard();
    let mut map = GameMap::new();
    for x in -5..40 {
        map.set_tile(&TileCoord::new(x, 0), TileData::with_materials(2, 1));
    }
    let mut b = PhysicsBody::from_pos(0, S + 3 * S / 2);
    let walk = MoveInput { right: true, ..no_input() };
    for _ in 0..30 {
        let g = is_grounded(&map, &b, &cfg);
        fixed_step(&map, &mut b, &walk, g, &cfg);
    }
    assert_eq!(b.position.y, S + 3 * S / 2);
    assert!(b.position.x > 0);
    assert_eq!(b.velocity.y, 0);
}
