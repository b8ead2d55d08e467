use vstd::prelude::*;

use crate::intmath::sqrt_floor;

verus! {

/// Position sub-units per playfield unit: coordinates and speeds are kept in
/// thousandths of a unit, so that integration by a millisecond clock is exact
/// on the test values of interest.
pub const SCALE: i64 = 1000;

/// Speed given to a launched ball, in sub-units per second (1000 units/s).
pub const LAUNCH_SPEED: i64 = 1_000_000;

/// Radius of every ball, in sub-units (50 units).
pub const BALL_RADIUS: i64 = 50_000;

/// Boundary inset on the x axis, in sub-units (5 units).
pub const MARGIN_X: i64 = 5_000;

/// Boundary inset on the y axis, in sub-units (10 units).
pub const MARGIN_Y: i64 = 10_000;

/// Color channels are sampled uniformly from `[0, CHANNEL_MAX)`.
pub const CHANNEL_MAX: u32 = 1000;

/// Largest playfield width or height, in sub-units.
pub const MAX_EXTENT: i64 = 1_000_000_000;

/// Largest frame delta accepted by a tick, in milliseconds (1000 seconds).
pub const MAX_DT_MS: i64 = 1_000_000;

/// Farthest a ball can travel in one tick: LAUNCH_SPEED * MAX_DT_MS / SCALE.
pub const MAX_STEP: i64 = 1_000_000_000;

/// Coordinate bound kept by every live ball; wide enough for one step past
/// the playfield edge.
pub const MAX_POS: i64 = 2_000_000_000;

/// Visual attribute of a ball; irrelevant to the motion logic.
#[derive(Clone, Copy, Debug, PartialEq, Eq, Structural)]
pub struct Color {
    pub red: u32,
    pub green: u32,
    pub blue: u32,
}

/// Velocity of a ball, in sub-units per second. Both components zero means
/// the ball is awaiting a launch.
#[derive(Clone, Copy, Debug, PartialEq, Eq, Structural)]
pub struct Movable {
    pub speed_x: i64,
    pub speed_y: i64,
}

impl Movable {
    /// A fresh ball starts idle.
    pub fn new() -> (m: Movable)
        ensures
            m.speed_x == 0 && m.speed_y == 0,
    {
        Movable { speed_x: 0, speed_y: 0 }
    }
}

/// One simulated ball: center position in playfield-local sub-units, with the
/// origin at the playfield center, plus its velocity and color.
#[derive(Clone, Copy, Debug, PartialEq, Eq, Structural)]
pub struct Ball {
    pub x: i64,
    pub y: i64,
    pub movable: Movable,
    pub color: Color,
}

pub open spec fn iabs(x: int) -> int {
    if x < 0 {
        -x
    } else {
        x
    }
}

pub open spec fn sgn(x: int) -> int {
    if x > 0 {
        1
    } else if x < 0 {
        -1
    } else {
        0
    }
}

/// The "pending launch" state: at the spawn origin with zero velocity.
pub open spec fn is_idle(b: Ball) -> bool {
    b.x == 0 && b.y == 0 && b.movable.speed_x == 0 && b.movable.speed_y == 0
}

/// A ball the integrator acts on: nonzero velocity.
pub open spec fn is_moving(b: Ball) -> bool {
    b.movable.speed_x != 0 || b.movable.speed_y != 0
}

/// The ball has reached or passed the collision threshold on either axis.
pub open spec fn exited(b: Ball, bound_x: int, bound_y: int) -> bool {
    iabs(b.y as int) >= bound_y || iabs(b.x as int) >= bound_x
}

/// Bounds kept by every ball the simulation holds, so that one integration
/// step never overflows.
pub open spec fn ball_ok(b: Ball) -> bool {
    &&& -MAX_POS <= b.x <= MAX_POS
    &&& -MAX_POS <= b.y <= MAX_POS
    &&& -LAUNCH_SPEED <= b.movable.speed_x <= LAUNCH_SPEED
    &&& -LAUNCH_SPEED <= b.movable.speed_y <= LAUNCH_SPEED
}

pub open spec fn slot_ok(s: Option<Ball>) -> bool {
    match s {
        Some(b) => ball_ok(b),
        None => true,
    }
}

pub open spec fn slot_idle(s: Option<Ball>) -> bool {
    match s {
        Some(b) => is_idle(b),
        None => false,
    }
}

/// Distance covered in `dt` milliseconds at `v` sub-units per second,
/// truncated toward zero.
pub open spec fn scaled(v: int, dt: int) -> int {
    if v >= 0 {
        (v * dt) / (SCALE as int)
    } else {
        -(((-v) * dt) / (SCALE as int))
    }
}

/// Length of the launch vector: the floor square root of dx^2 + dy^2.
pub open spec fn launch_len(dx: int, dy: int) -> int {
    sqrt_floor((dx * dx + dy * dy) as nat) as int
}

/// x component of the velocity given to an idle ball launched toward the
/// playfield-local point (dx, dy): the direction normalized and scaled to
/// LAUNCH_SPEED. A pointer at the exact center gets the default direction,
/// straight up.
pub open spec fn launch_vx(dx: int, dy: int) -> int {
    if dx == 0 && dy == 0 {
        0
    } else {
        sgn(dx) * (((LAUNCH_SPEED as int) * iabs(dx)) / launch_len(dx, dy))
    }
}

/// y component of the launch velocity; see `launch_vx`.
pub open spec fn launch_vy(dx: int, dy: int) -> int {
    if dx == 0 && dy == 0 {
        LAUNCH_SPEED as int
    } else {
        sgn(dy) * (((LAUNCH_SPEED as int) * iabs(dy)) / launch_len(dx, dy))
    }
}

/// A launch always gives nonzero velocity: the dominant component of the
/// local vector keeps magnitude at least one after normalization, and the
/// default direction is straight up at full speed.
pub proof fn lemma_launch_nonzero(dx: int, dy: int)
    ensures
        launch_vx(dx, dy) != 0 || launch_vy(dx, dy) != 0,
{
    if !(dx == 0 && dy == 0) {
        let a = iabs(dx);
        let b = iabs(dy);
        let m = if a >= b {
            a
        } else {
            b
        };
        assert(a * a == dx * dx && b * b == dy * dy) by (nonlinear_arith)
            requires
                a == iabs(dx),
                b == iabs(dy),
                (dx < 0 ==> a == -dx) && (dx >= 0 ==> a == dx),
                (dy < 0 ==> b == -dy) && (dy >= 0 ==> b == dy),
        ;
        let n = (dx * dx + dy * dy) as nat;
        assert(1 <= n && n <= 2 * m * m) by (nonlinear_arith)
            requires
                n == a * a + b * b,
                0 <= a <= m,
                0 <= b <= m,
                m == a || m == b,
                1 <= m,
        ;
        let len = sqrt_floor(n) as int;
        crate::intmath::lemma_sqrt_floor_bounds(n);
        crate::intmath::lemma_sqrt_floor_le(1, n);
        assert(len <= 2 * m) by (nonlinear_arith)
            requires
                len * len <= 2 * m * m,
                0 <= len,
                1 <= m,
        ;
        assert((LAUNCH_SPEED as int) * m >= len);
        vstd::arithmetic::div_mod::lemma_div_is_ordered(len, (LAUNCH_SPEED as int) * m, len);
        vstd::arithmetic::div_mod::lemma_div_by_self(len);
        assert(((LAUNCH_SPEED as int) * m) / len >= 1);
        if a >= b {
            let q = ((LAUNCH_SPEED as int) * a) / len;
            assert(m == a && 1 <= a && dx != 0);
            assert(q >= 1);
            assert(launch_vx(dx, dy) == sgn(dx) * q);
            if dx > 0 {
                assert(sgn(dx) == 1);
                assert(launch_vx(dx, dy) == q);
            } else {
                assert(sgn(dx) == -1);
                assert(launch_vx(dx, dy) == -1 * q);
                assert(-1 * q <= -1) by (nonlinear_arith)
                    requires
                        q >= 1,
                ;
            }
        } else {
            let q = ((LAUNCH_SPEED as int) * b) / len;
            assert(m == b && 1 <= b && dy != 0);
            assert(q >= 1);
            assert(launch_vy(dx, dy) == sgn(dy) * q);
            if dy > 0 {
                assert(sgn(dy) == 1);
                assert(launch_vy(dx, dy) == q);
            } else {
                assert(sgn(dy) == -1);
                assert(launch_vy(dx, dy) == -1 * q);
                assert(-1 * q <= -1) by (nonlinear_arith)
                    requires
                        q >= 1,
                ;
            }
        }
    }
}

/// How one arena slot changes over one tick: empty slots stay empty, idle
/// balls are untouched, a moving ball past the threshold is retired, and any
/// other moving ball advances by velocity * dt.
pub open spec fn slot_stepped(
    s0: Option<Ball>,
    s1: Option<Ball>,
    dt: int,
    bound_x: int,
    bound_y: int,
) -> bool {
    match s0 {
        None => s1 is None,
        Some(b) => {
            if !is_moving(b) {
                s1 == s0
            } else if exited(b, bound_x, bound_y) {
                s1 is None
            } else {
                match s1 {
                    Some(c) => {
                        &&& c.x == b.x + scaled(b.movable.speed_x as int, dt)
                        &&& c.y == b.y + scaled(b.movable.speed_y as int, dt)
                        &&& c.movable == b.movable
                        &&& c.color == b.color
                    },
                    None => false,
                }
            }
        },
    }
}

/// A slot that holds a ball.
pub open spec fn slot_live(s: Seq<Option<Ball>>, i: int) -> bool {
    0 <= i < s.len() && s[i] is Some
}

/// What a freshly spawned slot looks like: an idle ball whose color channels
/// were sampled from [0, CHANNEL_MAX).
pub open spec fn spawned_slot(s: Option<Ball>) -> bool {
    match s {
        Some(b) => is_idle(b) && b.color.red < CHANNEL_MAX && b.color.green < CHANNEL_MAX
            && b.color.blue < CHANNEL_MAX,
        None => false,
    }
}

/// How one arena slot changes when a launch toward the playfield-local point
/// (dx, dy) fires: only an idle ball is affected, and it keeps its place and
/// color while taking the launch velocity.
pub open spec fn slot_launched(s0: Option<Ball>, s1: Option<Ball>, dx: int, dy: int) -> bool {
    if slot_idle(s0) {
        match (s0, s1) {
            (Some(b), Some(c)) => {
                &&& c.x == b.x
                &&& c.y == b.y
                &&& c.color == b.color
                &&& c.movable.speed_x == launch_vx(dx, dy)
                &&& c.movable.speed_y == launch_vy(dx, dy)
            },
            _ => false,
        }
    } else {
        s1 == s0
    }
}

/// Number of idle balls in the arena.
pub open spec fn idle_count(s: Seq<Option<Ball>>) -> nat
    decreases s.len(),
{
    if s.len() == 0 {
        0
    } else {
        idle_count(s.drop_last()) + (if slot_idle(s.last()) {
            1nat
        } else {
            0nat
        })
    }
}

pub proof fn lemma_idle_count_push(s: Seq<Option<Ball>>, v: Option<Ball>)
    ensures
        idle_count(s.push(v)) == idle_count(s) + (if slot_idle(v) {
            1nat
        } else {
            0nat
        }),
{
    assert(s.push(v).drop_last() =~= s);
    assert(s.push(v).last() == v);
}

pub proof fn lemma_idle_count_update(s: Seq<Option<Ball>>, i: int, v: Option<Ball>)
    requires
        0 <= i < s.len(),
    ensures
        idle_count(s.update(i, v)) == idle_count(s) - (if slot_idle(s[i]) {
            1int
        } else {
            0int
        }) + (if slot_idle(v) {
            1int
        } else {
            0int
        }),
    decreases s.len(),
{
    if i == s.len() - 1 {
        assert(s.update(i, v).drop_last() =~= s.drop_last());
        assert(s.update(i, v).last() == v);
    } else {
        assert(s.update(i, v).drop_last() =~= s.drop_last().update(i, v));
        lemma_idle_count_update(s.drop_last(), i, v);
        assert(s.update(i, v).last() == s.last());
        assert(s.drop_last()[i] == s[i]);
    }
}

pub proof fn lemma_idle_count_zero(s: Seq<Option<Ball>>)
    ensures
        (idle_count(s) == 0) <==> (forall|i: int| 0 <= i < s.len() ==> !slot_idle(s[i])),
    decreases s.len(),
{
    if s.len() > 0 {
        lemma_idle_count_zero(s.drop_last());
        assert(forall|i: int| 0 <= i < s.len() - 1 ==> s.drop_last()[i] == s[i]);
        assert(s.last() == s[s.len() - 1]);
    }
}

/// Distance covered in `dt` milliseconds at `v` sub-units per second.
pub fn scaled_exec(v: i64, dt: i64) -> (r: i64)
    requires
        -LAUNCH_SPEED <= v <= LAUNCH_SPEED,
        0 <= dt <= MAX_DT_MS,
    ensures
        r == scaled(v as int, dt as int),
        -MAX_STEP <= r <= MAX_STEP,
{
    if v >= 0 {
        assert((v as int) * (dt as int) <= 1_000_000_000_000) by (nonlinear_arith)
            requires
                0 <= v <= 1_000_000,
                0 <= dt <= 1_000_000,
        ;
        let p: u64 = (v as u64) * (dt as u64);
        (p / 1000) as i64
    } else {
        let w: i64 = -v;
        assert((w as int) * (dt as int) <= 1_000_000_000_000) by (nonlinear_arith)
            requires
                0 <= w <= 1_000_000,
                0 <= dt <= 1_000_000,
        ;
        let p: u64 = (w as u64) * (dt as u64);
        -((p / 1000) as i64)
    }
}

/// The velocity an idle ball takes when launched toward the playfield-local
/// point (dx, dy).
pub fn launch_speeds(dx: i64, dy: i64) -> (v: (i64, i64))
    requires
        -MAX_EXTENT <= dx <= MAX_EXTENT,
        -MAX_EXTENT <= dy <= MAX_EXTENT,
    ensures
        v.0 == launch_vx(dx as int, dy as int),
        v.1 == launch_vy(dx as int, dy as int),
        -LAUNCH_SPEED <= v.0 <= LAUNCH_SPEED,
        -LAUNCH_SPEED <= v.1 <= LAUNCH_SPEED,
{
    if dx == 0 && dy == 0 {
        (0, LAUNCH_SPEED)
    } else {
        let ax: u64 = if dx >= 0 {
            dx as u64
        } else {
            (-dx) as u64
        };
        let ay: u64 = if dy >= 0 {
            dy as u64
        } else {
            (-dy) as u64
        };
        assert(ax as int == iabs(dx as int) && ay as int == iabs(dy as int));
        assert((ax as int) * (ax as int) <= 1_000_000_000_000_000_000) by (nonlinear_arith)
            requires
                ax <= 1_000_000_000,
        ;
        assert((ay as int) * (ay as int) <= 1_000_000_000_000_000_000) by (nonlinear_arith)
            requires
                ay <= 1_000_000_000,
        ;
        let n: u64 = ax * ax + ay * ay;
        proof {
            assert(iabs(dx as int) * iabs(dx as int) == (dx as int) * (dx as int))
                by (nonlinear_arith);
            assert(iabs(dy as int) * iabs(dy as int) == (dy as int) * (dy as int))
                by (nonlinear_arith);
        }
        assert(1 <= n && ax * ax <= n && ay * ay <= n) by (nonlinear_arith)
            requires
                n == ax * ax + ay * ay,
                1 <= ax || 1 <= ay,
        ;
        let len: u64 = crate::intmath::isqrt(n);
        proof {
            crate::intmath::lemma_sqrt_floor_le(1, n as nat);
            crate::intmath::lemma_sqrt_floor_le(ax as nat, n as nat);
            crate::intmath::lemma_sqrt_floor_le(ay as nat, n as nat);
        }
        assert(1 <= len && ax <= len && ay <= len);
        let mx: u64 = ((LAUNCH_SPEED as u64) * ax) / len;
        let my: u64 = ((LAUNCH_SPEED as u64) * ay) / len;
        proof {
            vstd::arithmetic::div_mod::lemma_div_is_ordered(
                (LAUNCH_SPEED as int) * (ax as int),
                (LAUNCH_SPEED as int) * (len as int),
                len as int,
            );
            vstd::arithmetic::div_mod::lemma_div_by_multiple(LAUNCH_SPEED as int, len as int);
            vstd::arithmetic::div_mod::lemma_div_is_ordered(
                (LAUNCH_SPEED as int) * (ay as int),
                (LAUNCH_SPEED as int) * (len as int),
                len as int,
            );
        }
        assert(mx <= LAUNCH_SPEED && my <= LAUNCH_SPEED);
        let vx: i64 = if dx >= 0 {
            mx as i64
        } else {
            -(mx as i64)
        };
        let vy: i64 = if dy >= 0 {
            my as i64
        } else {
            -(my as i64)
        };
        (vx, vy)
    }
}

/// Counting a prefix, one slot at a time; used by the arena scan.
pub proof fn lemma_idle_count_take_step(s: Seq<Option<Ball>>, i: int)
    requires
        0 <= i < s.len(),
    ensures
        idle_count(s.take(i + 1)) == idle_count(s.take(i)) + (if slot_idle(s[i]) {
            1nat
        } else {
            0nat
        }),
{
    assert(s.take(i + 1).drop_last() =~= s.take(i));
    assert(s.take(i + 1).last() == s[i]);
}

} // verus!
