//! Bodies and the fixed-step integrator: environment and input
//! acceleration, the speed cap, position integration and presentation
//! extrapolation.
use vstd::prelude::*;

use crate::{SUBDIV, WORLD_LIMIT, VEL_LIMIT};
use crate::geometry::{Vec2i, body_ranges, clamp_int};

verus! {

/// Tunable constants of the simulation, in sub-units and ticks.
#[derive(Clone, Copy, Debug)]
pub struct PhysicsConfig {
    /// Downward acceleration per tick.
    pub gravity: i64,
    /// Drag removes `1 / drag_divisor` of each velocity component per tick.
    pub drag_divisor: i64,
    /// Magnitude of the acceleration that held movement keys give per tick.
    pub input_accel: i64,
    /// Vertical speed that a jump sets.
    pub jump_speed: i64,
    /// Speed cap; below one tile per tick, so no step skips a tile.
    pub velocity_max: i64,
    /// A contact scales an embedded body's opposing velocity component by
    /// `-damping_num / damping_den`.
    pub damping_num: i64,
    pub damping_den: i64,
    /// Components below this magnitude, with no input on their axis, stop.
    pub rest_epsilon: i64,
    /// Ticks of held destruction after which a tile breaks.
    pub break_ticks: u32,
    /// Depth of the downward probe that detects ground.
    pub ground_probe: i64,
}

impl PhysicsConfig {
    pub open spec fn wf(self) -> bool {
        &&& 0 <= self.gravity <= 0x1000
        &&& 1 <= self.drag_divisor <= 0x10_0000
        &&& 1 <= self.input_accel <= 0x1000
        &&& 0 <= self.jump_speed < SUBDIV
        &&& 1 <= self.velocity_max < SUBDIV
        &&& 1 <= self.damping_den <= 0x100
        &&& 0 <= self.damping_num <= self.damping_den
        &&& 0 <= self.rest_epsilon <= 0x1000
        &&& 1 <= self.ground_probe <= SUBDIV
        &&& self.break_ticks <= 0x10_0000
    }

    /// The standard tuning at 64 ticks per second: gravity 15 tiles/s^2,
    /// 5% drag per second, movement 60 tiles/s^2, jump 20 tiles/s, speed
    /// cap about 57 tiles/s, breaking after 0.6 s.
    pub fn standard() -> (r: PhysicsConfig)
        ensures
            r.wf(),
            r.gravity == 240,
            r.drag_divisor == 1280,
            r.input_accel == 960,
            r.jump_speed == 20480,
            r.velocity_max == 60000,
            r.damping_num == 1,
            r.damping_den == 4,
            r.rest_epsilon == 64,
            r.break_ticks == 39,
            r.ground_probe == 6554,
    {
        PhysicsConfig {
            gravity: 240,
            drag_divisor: 1280,
            input_accel: 960,
            jump_speed: 20480,
            velocity_max: 60000,
            damping_num: 1,
            damping_den: 4,
            rest_epsilon: 64,
            break_ticks: 39,
            ground_probe: 6554,
        }
    }
}

/// Integer division rounding toward zero.
pub open spec fn trunc_div(a: int, d: int) -> int {
    if a >= 0 {
        a / d
    } else {
        -((-a) / d)
    }
}

/// `r` is the least integer whose square reaches `n`.
pub open spec fn is_ceil_sqrt(n: int, r: int) -> bool {
    0 <= r && n <= r * r && (r == 0 || (r - 1) * (r - 1) < n)
}

pub open spec fn len_sq(v: Vec2i) -> int {
    v.x * v.x + v.y * v.y
}

/// The least integer not below the Euclidean length of `v`.
pub open spec fn ceil_len(v: Vec2i) -> int {
    choose|r: int| #[trigger] is_ceil_sqrt(len_sq(v), r)
}

/// `v` with its length limited to `max`: unchanged when it is no longer,
/// otherwise both components scaled by the same factor
/// `max / ceil_len(v)`, rounded toward zero.
pub open spec fn clamp_length_spec(v: Vec2i, max: int) -> Vec2i {
    if len_sq(v) <= max * max {
        v
    } else {
        Vec2i {
            x: trunc_div(v.x * max, ceil_len(v)) as i64,
            y: trunc_div(v.y * max, ceil_len(v)) as i64,
        }
    }
}

/// Largest component magnitude that the length computations accept.
pub open spec fn small_vec(v: Vec2i) -> bool {
    -0x40_0000 <= v.x <= 0x40_0000 && -0x40_0000 <= v.y <= 0x40_0000
}

proof fn lemma_ceil_sqrt_unique(n: int, a: int, b: int)
    requires
        is_ceil_sqrt(n, a),
        is_ceil_sqrt(n, b),
    ensures
        a == b,
{
    if a < b {
        assert((b - 1) * (b - 1) >= a * a) by (nonlinear_arith)
            requires b - 1 >= a, a >= 0;
    } else if b < a {
        assert((a - 1) * (a - 1) >= b * b) by (nonlinear_arith)
            requires a - 1 >= b, b >= 0;
    }
}

/// Least `r` with `r * r >= n`.
fn ceil_sqrt(n: u64) -> (r: u64)
    requires
        n <= 0x10_0000_0000_0000,
    ensures
        is_ceil_sqrt(n as int, r as int),
        r <= 0x400_0000,
{
    if n == 0 {
        return 0;
    }
    let mut lo: u64 = 0;
    let mut hi: u64 = 0x400_0000;
    assert(n <= 0x400_0000 * 0x400_0000);
    while hi - lo > 1
        invariant
            lo < hi <= 0x400_0000,
            (lo as int) * (lo as int) < n,
            n <= (hi as int) * (hi as int),
        decreases hi - lo,
    {
        let mid: u64 = lo + (hi - lo) / 2;
        assert((mid as int) * (mid as int) <= 0x400_0000 * 0x400_0000) by (nonlinear_arith)
            requires 0 <= mid <= 0x400_0000;
        if mid * mid >= n {
            hi = mid;
        } else {
            lo = mid;
        }
    }
    assert(lo == hi - 1);
    hi
}

/// Magnitude of `a * m / d` rounded toward zero, with the sign of `a`.
fn scale_trunc(a: i64, m: i64, d: i64) -> (r: i64)
    requires
        -0x40_0000 <= a <= 0x40_0000,
        0 <= m <= 0x40_0000,
        0 < d,
        m <= d,
    ensures
        r == trunc_div(a * m, d as int),
        -0x40_0000 <= r <= 0x40_0000,
        (a >= 0 ==> 0 <= r <= a),
        (a < 0 ==> a <= r <= 0),
{
    if a >= 0 {
        assert(a * m <= a * d) by (nonlinear_arith)
            requires 0 <= a, m <= d;
        assert(a * m / (d as int) <= a) by (nonlinear_arith)
            requires 0 <= a, 0 < d, a * m <= a * d;
        assert(0 <= a * m <= 0x40_0000 * 0x40_0000) by (nonlinear_arith)
            requires 0 <= a <= 0x40_0000, 0 <= m <= 0x40_0000;
        (a * m) / d
    } else {
        let n: i64 = -a;
        assert(n * m <= n * d) by (nonlinear_arith)
            requires 0 <= n, m <= d;
        assert(n * m / (d as int) <= n) by (nonlinear_arith)
            requires 0 <= n, 0 < d, n * m <= n * d;
        assert(0 <= n * m <= 0x40_0000 * 0x40_0000) by (nonlinear_arith)
            requires 0 <= n <= 0x40_0000, 0 <= m <= 0x40_0000;
        assert((-a) * m == -(a * m)) by (nonlinear_arith);
        -((n * m) / d)
    }
}

/// Limits the length of `v` to `max`, keeping its direction.
pub fn clamp_length(v: Vec2i, max: i64) -> (r: Vec2i)
    requires
        small_vec(v),
        1 <= max <= 0x40_0000,
    ensures
        r == clamp_length_spec(v, max as int),
        len_sq(r) <= max * max,
        small_vec(r),
{
    let ax: i64 = if v.x >= 0 { v.x } else { -v.x };
    let ay: i64 = if v.y >= 0 { v.y } else { -v.y };
    assert(ax * ax <= 0x40_0000 * 0x40_0000) by (nonlinear_arith)
        requires 0 <= ax <= 0x40_0000;
    assert(ay * ay <= 0x40_0000 * 0x40_0000) by (nonlinear_arith)
        requires 0 <= ay <= 0x40_0000;
    assert(ax * ax == v.x * v.x && ay * ay == v.y * v.y) by (nonlinear_arith)
        requires ax == v.x || ax == -v.x, ay == v.y || ay == -v.y;
    let n: u64 = (ax * ax + ay * ay) as u64;
    assert(max * max <= 0x40_0000 * 0x40_0000) by (nonlinear_arith)
        requires 1 <= max <= 0x40_0000;
    if n <= (max * max) as u64 {
        return v;
    }
    let l: u64 = ceil_sqrt(n);
    proof {
        lemma_ceil_sqrt_unique(len_sq(v), l as int, ceil_len(v));
        assert(l > max) by (nonlinear_arith)
            requires (l as int) * (l as int) >= n, n > max * max, max >= 1, l >= 0;
    }
    let li: i64 = l as i64;
    let rx = scale_trunc(v.x, max, li);
    let ry = scale_trunc(v.y, max, li);
    proof {
        lemma_clamped_len(v, max as int);
    }
    Vec2i { x: rx, y: ry }
}

pub proof fn lemma_square_mono(a: int, b: int)
    requires
        0 <= a <= b,
    ensures
        a * a <= b * b,
{
    assert(a * a <= b * b) by (nonlinear_arith)
        requires 0 <= a <= b;
}

proof fn lemma_ceil_sqrt_exists(n: int)
    requires
        0 <= n,
    ensures
        exists|r: int| #[trigger] is_ceil_sqrt(n, r),
    decreases n,
{
    if n == 0 {
        assert(is_ceil_sqrt(0, 0));
    } else {
        lemma_ceil_sqrt_exists(n - 1);
        let r = choose|r: int| #[trigger] is_ceil_sqrt(n - 1, r);
        if r * r >= n {
            assert(r >= 1) by (nonlinear_arith)
                requires r * r >= n, n > 0, r >= 0;
            assert(is_ceil_sqrt(n, r));
        } else {
            assert((r + 1) * (r + 1) >= n) by (nonlinear_arith)
                requires r * r >= n - 1, r >= 0;
            assert(is_ceil_sqrt(n, r + 1));
        }
    }
}

/// The clamped vector lies within the cap, and each component keeps its
/// sign and does not grow.
proof fn lemma_clamped_len(v: Vec2i, m: int)
    requires
        small_vec(v),
        1 <= m <= 0x40_0000,
    ensures
        len_sq(clamp_length_spec(v, m)) <= m * m,
        small_vec(clamp_length_spec(v, m)),
        0 <= v.x * clamp_length_spec(v, m).x <= v.x * v.x,
        0 <= v.y * clamp_length_spec(v, m).y <= v.y * v.y,
{
    let r = clamp_length_spec(v, m);
    assert(v.x * v.x >= 0 && v.y * v.y >= 0) by (nonlinear_arith);
    if len_sq(v) > m * m {
        lemma_ceil_sqrt_exists(len_sq(v));
        let l = ceil_len(v);
        assert(is_ceil_sqrt(len_sq(v), l));
        assert(l > m) by (nonlinear_arith)
            requires l * l >= len_sq(v), len_sq(v) > m * m, m >= 1, l >= 0;
        let ax: int = if v.x >= 0 { v.x as int } else { -v.x };
        let ay: int = if v.y >= 0 { v.y as int } else { -v.y };
        let rax: int = (ax * m) / l;
        let ray: int = (ay * m) / l;
        assert(v.x < 0 ==> -(v.x * m) == ax * m) by (nonlinear_arith)
            requires v.x < 0 ==> ax == -v.x;
        assert(v.y < 0 ==> -(v.y * m) == ay * m) by (nonlinear_arith)
            requires v.y < 0 ==> ay == -v.y;
        assert(0 <= ax * m <= 0x40_0000 * 0x40_0000) by (nonlinear_arith)
            requires 0 <= ax <= 0x40_0000, 1 <= m <= 0x40_0000;
        assert(0 <= ay * m <= 0x40_0000 * 0x40_0000) by (nonlinear_arith)
            requires 0 <= ay <= 0x40_0000, 1 <= m <= 0x40_0000;
        assert(0 <= rax <= ax && 0 <= ray <= ay) by (nonlinear_arith)
            requires rax == (ax * m) / l, ray == (ay * m) / l, l > m, ax >= 0, ay >= 0, m >= 1;
        assert(v.x >= 0 ==> r.x == rax);
        assert(v.x < 0 ==> r.x == -rax);
        assert(v.y >= 0 ==> r.y == ray);
        assert(v.y < 0 ==> r.y == -ray);
        assert(rax * l <= ax * m) by (nonlinear_arith)
            requires rax == (ax * m) / l, l > 0, ax >= 0, m >= 0;
        assert(ray * l <= ay * m) by (nonlinear_arith)
            requires ray == (ay * m) / l, l > 0, ay >= 0, m >= 0;
        assert(0 <= rax * l && 0 <= ray * l) by (nonlinear_arith)
            requires rax >= 0, ray >= 0, l > 0;
        lemma_square_mono(rax * l, ax * m);
        lemma_square_mono(ray * l, ay * m);
        assert((rax * l) * (rax * l) == (rax * rax) * (l * l)) by (nonlinear_arith);
        assert((ray * l) * (ray * l) == (ray * ray) * (l * l)) by (nonlinear_arith);
        assert((ax * m) * (ax * m) == (ax * ax) * (m * m)) by (nonlinear_arith);
        assert((ay * m) * (ay * m) == (ay * ay) * (m * m)) by (nonlinear_arith);
        assert((rax * rax + ray * ray) * (l * l) == (rax * rax) * (l * l) + (ray * ray) * (l * l))
            by (nonlinear_arith);
        assert((ax * ax + ay * ay) * (m * m) == (ax * ax) * (m * m) + (ay * ay) * (m * m))
            by (nonlinear_arith);
        assert(ax * ax == v.x * v.x && ay * ay == v.y * v.y) by (nonlinear_arith)
            requires ax == v.x || ax == -v.x, ay == v.y || ay == -v.y;
        assert((rax * rax + ray * ray) <= m * m) by (nonlinear_arith)
            requires (rax * rax + ray * ray) * (l * l) <= (ax * ax + ay * ay) * (m * m),
                ax * ax + ay * ay <= l * l, l > 0, m >= 1;
        assert(rax * rax == r.x * r.x && ray * ray == r.y * r.y) by (nonlinear_arith)
            requires rax == r.x || rax == -r.x, ray == r.y || ray == -r.y;
        assert(0 <= v.x * r.x <= v.x * v.x) by (nonlinear_arith)
            requires 0 <= rax <= ax, (v.x >= 0 && ax == v.x && r.x == rax) || (v.x < 0 && ax == -v.x
                && r.x == -rax);
        assert(0 <= v.y * r.y <= v.y * v.y) by (nonlinear_arith)
            requires 0 <= ray <= ay, (v.y >= 0 && ay == v.y && r.y == ray) || (v.y < 0 && ay == -v.y
                && r.y == -ray);
    }
}

/// The speed cap leaves a vector within the cap unchanged and is
/// idempotent; above the cap it scales both components by one factor, so
/// each keeps its sign and none grows.
pub proof fn lemma_clamp_idempotent(v: Vec2i, m: int)
    requires
        small_vec(v),
        1 <= m <= 0x40_0000,
    ensures
        len_sq(v) <= m * m ==> clamp_length_spec(v, m) == v,
        clamp_length_spec(clamp_length_spec(v, m), m) == clamp_length_spec(v, m),
        len_sq(clamp_length_spec(v, m)) <= m * m,
        0 <= v.x * clamp_length_spec(v, m).x <= v.x * v.x,
        0 <= v.y * clamp_length_spec(v, m).y <= v.y * v.y,
{
    lemma_clamped_len(v, m);
}

/// Held movement keys for one tick; `jump` is set only on the tick the jump
/// key went down.
#[derive(Clone, Copy, Debug)]
pub struct MoveInput {
    pub left: bool,
    pub right: bool,
    pub up: bool,
    pub down: bool,
    pub jump: bool,
}

pub open spec fn axis_of(neg: bool, pos: bool) -> int {
    (if pos { 1int } else { 0int }) - (if neg { 1int } else { 0int })
}

/// Scale that lifts a unit key direction well above any input acceleration.
pub const DIRECTION_SCALE: i64 = 0x1_0000;

/// The key direction, scaled by `DIRECTION_SCALE`.
pub open spec fn input_direction(input: MoveInput) -> Vec2i {
    Vec2i {
        x: (axis_of(input.left, input.right) * DIRECTION_SCALE) as i64,
        y: (axis_of(input.down, input.up) * DIRECTION_SCALE) as i64,
    }
}

/// Acceleration from held keys: the key direction normalised (zero when no
/// key, or opposite keys, are held) times the input acceleration.
pub open spec fn input_thrust(input: MoveInput, cfg: PhysicsConfig) -> Vec2i {
    clamp_length_spec(input_direction(input), cfg.input_accel as int)
}

/// Drag and gravity for one tick: each component loses `1 / drag_divisor`
/// of itself (rounded toward zero) and gravity pulls down.
pub open spec fn env_velocity(v: Vec2i, cfg: PhysicsConfig) -> Vec2i {
    Vec2i {
        x: (v.x - trunc_div(v.x as int, cfg.drag_divisor as int)) as i64,
        y: (v.y - trunc_div(v.y as int, cfg.drag_divisor as int) - cfg.gravity) as i64,
    }
}

/// Input for one tick: the thrust is added; a fresh jump while grounded
/// sets the vertical component to the jump speed.
pub open spec fn input_velocity(v: Vec2i, input: MoveInput, grounded: bool, cfg: PhysicsConfig) -> Vec2i {
    let t = input_thrust(input, cfg);
    Vec2i {
        x: (v.x + t.x) as i64,
        y: if grounded && input.jump { cfg.jump_speed } else { (v.y + t.y) as i64 },
    }
}

/// Components below `rest_epsilon` in magnitude, on an axis with no key
/// input, become exactly zero.
pub open spec fn settled_velocity(v: Vec2i, input: MoveInput, cfg: PhysicsConfig) -> Vec2i {
    Vec2i {
        x: if axis_of(input.left, input.right) == 0 && -cfg.rest_epsilon < v.x < cfg.rest_epsilon {
            0
        } else {
            v.x
        },
        y: if axis_of(input.down, input.up) == 0 && -cfg.rest_epsilon < v.y < cfg.rest_epsilon {
            0
        } else {
            v.y
        },
    }
}

/// One tick of motion, kept inside the world bounds.
pub open spec fn moved_position(p: Vec2i, v: Vec2i) -> Vec2i {
    Vec2i {
        x: clamp_int(p.x + v.x, -WORLD_LIMIT as int, WORLD_LIMIT as int) as i64,
        y: clamp_int(p.y + v.y, -WORLD_LIMIT as int, WORLD_LIMIT as int) as i64,
    }
}

/// A simulated body: centre position, velocity and half extents of its box.
#[derive(Clone, Copy, Debug)]
pub struct PhysicsBody {
    pub position: Vec2i,
    pub velocity: Vec2i,
    pub half_extents: Vec2i,
}

/// Half extents of the player's box: one tile wide each side, one and a
/// half tiles tall each side.
pub const PLAYER_HALF_WIDTH: i64 = 65536;
pub const PLAYER_HALF_HEIGHT: i64 = 98304;

impl PhysicsBody {
    pub open spec fn wf(self) -> bool {
        body_ranges(self.position, self.velocity, self.half_extents)
    }

    /// A player-sized body at rest at `(x, y)`.
    pub fn from_pos(x: i64, y: i64) -> (r: PhysicsBody)
        requires
            -WORLD_LIMIT <= x <= WORLD_LIMIT,
            -WORLD_LIMIT <= y <= WORLD_LIMIT,
        ensures
            r.wf(),
            r.position == (Vec2i { x, y }),
            r.velocity == (Vec2i { x: 0, y: 0 }),
            r.half_extents == (Vec2i { x: PLAYER_HALF_WIDTH, y: PLAYER_HALF_HEIGHT }),
    {
        PhysicsBody {
            position: Vec2i { x, y },
            velocity: Vec2i { x: 0, y: 0 },
            half_extents: Vec2i { x: PLAYER_HALF_WIDTH, y: PLAYER_HALF_HEIGHT },
        }
    }

    /// A body at rest with the given centre and half extents.
    pub fn new(position: Vec2i, half_extents: Vec2i) -> (r: PhysicsBody)
        requires
            body_ranges(position, (Vec2i { x: 0, y: 0 }), half_extents),
        ensures
            r.wf(),
            r.position == position,
            r.velocity == (Vec2i { x: 0, y: 0 }),
            r.half_extents == half_extents,
    {
        PhysicsBody { position, velocity: Vec2i { x: 0, y: 0 }, half_extents }
    }

    /// Applies drag and gravity for one tick.
    pub fn accel_env(&mut self, cfg: &PhysicsConfig)
        requires
            cfg.wf(),
            -0x20_0000 <= old(self).velocity.x <= 0x20_0000,
            -0x20_0000 <= old(self).velocity.y <= 0x20_0000,
        ensures
            final(self).velocity == env_velocity(old(self).velocity, *cfg),
            final(self).position == old(self).position,
            final(self).half_extents == old(self).half_extents,
            -0x20_0000 <= final(self).velocity.x <= 0x20_0000,
            -0x20_1000 <= final(self).velocity.y <= 0x20_1000,
    {
        let vx = self.velocity.x;
        let vy = self.velocity.y;
        let dx = scale_trunc(vx, 1, cfg.drag_divisor);
        let dy = scale_trunc(vy, 1, cfg.drag_divisor);
        proof {
            assert(vx * 1 == vx && vy * 1 == vy);
        }
        self.velocity = Vec2i { x: vx - dx, y: vy - dy - cfg.gravity };
    }

    /// Applies one tick of key input, and a jump when grounded.
    pub fn accel_input(&mut self, input: &MoveInput, grounded: bool, cfg: &PhysicsConfig)
        requires
            cfg.wf(),
            -0x20_1000 <= old(self).velocity.x <= 0x20_1000,
            -0x20_1000 <= old(self).velocity.y <= 0x20_1000,
        ensures
            final(self).velocity == input_velocity(old(self).velocity, *input, grounded, *cfg),
            final(self).position == old(self).position,
            final(self).half_extents == old(self).half_extents,
            small_vec(final(self).velocity),
    {
        let ix: i64 = (if input.right { 1i64 } else { 0i64 }) - (if input.left { 1i64 } else { 0i64 });
        let iy: i64 = (if input.up { 1i64 } else { 0i64 }) - (if input.down { 1i64 } else { 0i64 });
        let dir = Vec2i { x: ix * DIRECTION_SCALE, y: iy * DIRECTION_SCALE };
        let t = clamp_length(dir, cfg.input_accel);
        proof {
            assert(dir == input_direction(*input));
            assert(-0x1000 <= t.x <= 0x1000 && -0x1000 <= t.y <= 0x1000) by (nonlinear_arith)
                requires t.x * t.x + t.y * t.y <= cfg.input_accel * cfg.input_accel, 0 <= cfg.input_accel <= 0x1000;
        }
        let vy = if grounded && input.jump { cfg.jump_speed } else { self.velocity.y + t.y };
        self.velocity = Vec2i { x: self.velocity.x + t.x, y: vy };
    }

    /// Limits the speed to the configured maximum, keeping the direction.
    pub fn velocity_cap(&mut self, cfg: &PhysicsConfig)
        requires
            cfg.wf(),
            small_vec(old(self).velocity),
        ensures
            final(self).velocity == clamp_length_spec(old(self).velocity, cfg.velocity_max as int),
            len_sq(final(self).velocity) <= cfg.velocity_max * cfg.velocity_max,
            -cfg.velocity_max <= final(self).velocity.x <= cfg.velocity_max,
            -cfg.velocity_max <= final(self).velocity.y <= cfg.velocity_max,
            final(self).position == old(self).position,
            final(self).half_extents == old(self).half_extents,
    {
        let v = clamp_length(self.velocity, cfg.velocity_max);
        proof {
            let m = cfg.velocity_max as int;
            assert(-m <= v.x <= m && -m <= v.y <= m) by (nonlinear_arith)
                requires v.x * v.x + v.y * v.y <= m * m, m >= 1;
        }
        self.velocity = v;
    }

    /// Stops slow components on axes without key input.
    pub fn settle(&mut self, input: &MoveInput, cfg: &PhysicsConfig)
        requires
            cfg.wf(),
        ensures
            final(self).velocity == settled_velocity(old(self).velocity, *input, *cfg),
            final(self).position == old(self).position,
            final(self).half_extents == old(self).half_extents,
    {
        let eps = cfg.rest_epsilon;
        let v = self.velocity;
        let x = if input.left == input.right && -eps < v.x && v.x < eps { 0 } else { v.x };
        let y = if input.up == input.down && -eps < v.y && v.y < eps { 0 } else { v.y };
        self.velocity = Vec2i { x, y };
    }

    /// Moves the body by its velocity for one tick, stopping at the world
    /// bounds.
    pub fn position_update(&mut self)
        requires
            -WORLD_LIMIT <= old(self).position.x <= WORLD_LIMIT,
            -WORLD_LIMIT <= old(self).position.y <= WORLD_LIMIT,
            -VEL_LIMIT <= old(self).velocity.x <= VEL_LIMIT,
            -VEL_LIMIT <= old(self).velocity.y <= VEL_LIMIT,
        ensures
            final(self).position == moved_position(old(self).position, old(self).velocity),
            final(self).velocity == old(self).velocity,
            final(self).half_extents == old(self).half_extents,
    {
        let x = clamp_world(self.position.x + self.velocity.x);
        let y = clamp_world(self.position.y + self.velocity.y);
        self.position = Vec2i { x, y };
    }

    /// Where to draw the body when `num / den` of the next tick has elapsed:
    /// position plus that fraction of one tick's velocity.  Reads the body
    /// only.
    pub fn extrapolate(&self, num: i64, den: i64) -> (r: Vec2i)
        requires
            self.wf(),
            0 <= num <= den,
            1 <= den <= 0x40_0000,
        ensures
            r.x == self.position.x + trunc_div(self.velocity.x * num, den as int),
            r.y == self.position.y + trunc_div(self.velocity.y * num, den as int),
    {
        let dx = scale_trunc(self.velocity.x, num, den);
        let dy = scale_trunc(self.velocity.y, num, den);
        Vec2i { x: self.position.x + dx, y: self.position.y + dy }
    }
}

fn clamp_world(v: i64) -> (r: i64)
    requires
        -2 * WORLD_LIMIT <= v <= 2 * WORLD_LIMIT,
    ensures
        r == clamp_int(v as int, -WORLD_LIMIT as int, WORLD_LIMIT as int),
{
    if v < -WORLD_LIMIT {
        -WORLD_LIMIT
    } else if v > WORLD_LIMIT {
        WORLD_LIMIT
    } else {
        v
    }
}

} // verus!
