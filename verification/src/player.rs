//! Player kinematics: velocity accumulation under a planar speed cap, and
//! wall-clock position integration decoupled from the frame rate.
//!
//! All lengths are fixed-point milli-units, velocities milli-units per
//! millisecond, angles milliradians, timestamps nanoseconds. The speed cap of
//! 5 units per millisecond is therefore `MAX_SPEED == 5000`.

use vstd::prelude::*;

use crate::clock;
use crate::math::{abs_of, is_sqrt_ceil, isqrt_ceil, lemma_sqrt_ceil_exists, lemma_sqrt_ceil_is,
    sat_i64, saturate_i64, sqrt_ceil, times_sign};
use vstd::arithmetic::div_mod::{lemma_basic_div, lemma_div_is_ordered, lemma_div_multiples_vanish,
    lemma_div_pos_is_pos, lemma_fundamental_div_mod, lemma_mod_division_less_than_divisor};

verus! {

/// Maximum speed of the player, in milli-units per millisecond.
pub const MAX_SPEED: i64 = 5000;

/// The square of `MAX_SPEED`.
pub const MAX_SPEED_SQ: i64 = 25_000_000;

/// Starting position of the player on the x axis, in milli-units.
pub const START_POS_X: i64 = -6000;

/// Starting heading angle, in milliradians.
pub const START_VIEW_DIR: i64 = 3140;

/// A three-component vector in milli-units.
#[derive(Clone, Copy, Debug, PartialEq, Eq, Structural)]
pub struct Vec3 {
    pub x: i64,
    pub y: i64,
    pub z: i64,
}

impl View for Vec3 {
    type V = (int, int, int);

    open spec fn view(&self) -> (int, int, int) {
        (self.x as int, self.y as int, self.z as int)
    }
}

/// Componentwise sum of two integer vectors.
pub open spec fn add3(a: (int, int, int), b: (int, int, int)) -> (int, int, int) {
    (a.0 + b.0, a.1 + b.1, a.2 + b.2)
}

/// Squared Euclidean length of an integer vector.
pub open spec fn speed3_sq(v: (int, int, int)) -> int {
    v.0 * v.0 + v.1 * v.1 + v.2 * v.2
}

/// Sign of a mathematical integer: `-1`, `0` or `1`.
pub open spec fn sign_of(x: int) -> int {
    if x > 0 {
        1
    } else if x < 0 {
        -1
    } else {
        0
    }
}

/// The planar speed cap applied to an over-fast velocity `(nx, ny, _)`.
///
/// The heading is recovered as the arctangent of `ny / nx`, so the capped
/// x component is always nonnegative (the arctangent flips the direction
/// when `nx < 0`), and the vertical component is dropped entirely. With
/// `s` the rounded-up integer square root of `nx^2 + ny^2`, the capped
/// components are `MAX_SPEED * |n| / s`, which can only undershoot the cap.
/// A zero `nx` would divide by zero in the arctangent; it is defined here
/// as a signed quarter turn: straight `(0, MAX_SPEED)` or `(0, -MAX_SPEED)`
/// by the sign of `ny`, and the zero vector when `ny` is zero as well.
pub open spec fn clamped_velocity(nx: int, ny: int) -> (int, int) {
    if nx == 0 {
        (0, times_sign(sign_of(ny), MAX_SPEED as int))
    } else {
        let s = sqrt_ceil(nx * nx + ny * ny);
        let qx = MAX_SPEED * abs_of(nx) / s;
        let qy = MAX_SPEED * abs_of(ny) / s;
        (qx, times_sign(sign_of(nx), times_sign(sign_of(ny), qy)))
    }
}

/// The velocity after an impulse `p` is added to velocity `v`: the vector
/// sum, unless its speed exceeds the cap, in which case the planar speed
/// cap replaces it.
pub open spec fn accel_result(v: (int, int, int), p: (int, int, int)) -> (int, int, int) {
    let n = add3(v, p);
    if speed3_sq(n) <= MAX_SPEED_SQ {
        n
    } else {
        let c = clamped_velocity(n.0, n.1);
        (c.0, c.1, 0)
    }
}

/// Milliseconds elapsed between two nanosecond clock readings; zero when the
/// clock appears to have gone backwards.
pub open spec fn elapsed_ms(prior: int, now: int) -> int {
    if now >= prior {
        (now - prior) / 1_000_000
    } else {
        0
    }
}

/// A position advanced by velocity `v` for `d` milliseconds, each coordinate
/// saturating at the `i64` range.
pub open spec fn moved(pre: (int, int, int), v: (int, int, int), d: int) -> (int, int, int) {
    (sat_i64(pre.0 + v.0 * d), sat_i64(pre.1 + v.1 * d), sat_i64(pre.2 + v.2 * d))
}

/// What one simulation tick does, given the clock reading `now_ns`: the
/// position integrates by velocity times elapsed milliseconds, the stored
/// reading becomes `now_ns`, and velocity and angles are unchanged.
pub open spec fn ticked(pre: Player, post: Player, now_ns: u64) -> bool {
    &&& post.vel() == pre.vel()
    &&& post.dir() == pre.dir()
    &&& post.azimuth() == pre.azimuth()
    &&& post.prior_ns() == now_ns
    &&& post.pos() == moved(pre.pos(), pre.vel()@, elapsed_ms(pre.prior_ns() as int, now_ns as int))
}

/// Each velocity component is bounded by the cap whenever the speed is.
proof fn lemma_component_bound(v: (int, int, int))
    requires
        speed3_sq(v) <= MAX_SPEED_SQ,
    ensures
        -5000 <= v.0 <= 5000,
        -5000 <= v.1 <= 5000,
        -5000 <= v.2 <= 5000,
{
    assert(v.0 * v.0 >= 0) by (nonlinear_arith);
    assert(v.1 * v.1 >= 0) by (nonlinear_arith);
    assert(v.2 * v.2 >= 0) by (nonlinear_arith);
    assert(-5000 <= v.0 <= 5000) by (nonlinear_arith)
        requires
            v.0 * v.0 <= 25_000_000,
    ;
    assert(-5000 <= v.1 <= 5000) by (nonlinear_arith)
        requires
            v.1 * v.1 <= 25_000_000,
    ;
    assert(-5000 <= v.2 <= 5000) by (nonlinear_arith)
        requires
            v.2 * v.2 <= 25_000_000,
    ;
}

/// The capped components stay within the cap: dividing `MAX_SPEED * a` and
/// `MAX_SPEED * b` by an `s` whose square covers `a^2 + b^2` keeps each
/// quotient at most `MAX_SPEED` and the sum of their squares at most
/// `MAX_SPEED` squared.
proof fn lemma_clamp_bounded(a: int, b: int, s: int)
    requires
        a >= 0,
        b >= 0,
        s >= 1,
        s * s >= a * a + b * b,
    ensures
        0 <= 5000 * a / s <= 5000,
        0 <= 5000 * b / s <= 5000,
        (5000 * a / s) * (5000 * a / s) + (5000 * b / s) * (5000 * b / s) <= 25_000_000,
{
    let qa = 5000 * a / s;
    let qb = 5000 * b / s;
    lemma_div_pos_is_pos(5000 * a, s);
    lemma_div_pos_is_pos(5000 * b, s);
    assert(a * a >= 0) by (nonlinear_arith);
    assert(b * b >= 0) by (nonlinear_arith);
    assert(a <= s) by (nonlinear_arith)
        requires
            a >= 0,
            s >= 0,
            s * s >= a * a,
    ;
    assert(b <= s) by (nonlinear_arith)
        requires
            b >= 0,
            s >= 0,
            s * s >= b * b,
    ;
    lemma_div_is_ordered(5000 * a, 5000 * s, s);
    lemma_div_is_ordered(5000 * b, 5000 * s, s);
    lemma_div_multiples_vanish(5000, s);
    assert(qa <= 5000);
    assert(qb <= 5000);
    lemma_fundamental_div_mod(5000 * a, s);
    lemma_mod_division_less_than_divisor(5000 * a, s);
    assert(s * qa <= 5000 * a);
    lemma_fundamental_div_mod(5000 * b, s);
    lemma_mod_division_less_than_divisor(5000 * b, s);
    assert(s * qb <= 5000 * b);
    assert(s * qa >= 0) by (nonlinear_arith)
        requires
            s >= 0,
            qa >= 0,
    ;
    assert(s * qb >= 0) by (nonlinear_arith)
        requires
            s >= 0,
            qb >= 0,
    ;
    assert((s * qa) * (s * qa) <= (5000 * a) * (5000 * a)) by (nonlinear_arith)
        requires
            0 <= s * qa,
            s * qa <= 5000 * a,
    ;
    assert((s * qb) * (s * qb) <= (5000 * b) * (5000 * b)) by (nonlinear_arith)
        requires
            0 <= s * qb,
            s * qb <= 5000 * b,
    ;
    assert((s * qa) * (s * qa) == (s * s) * (qa * qa)) by (nonlinear_arith);
    assert((s * qb) * (s * qb) == (s * s) * (qb * qb)) by (nonlinear_arith);
    assert((5000 * a) * (5000 * a) == 25_000_000 * (a * a)) by (nonlinear_arith);
    assert((5000 * b) * (5000 * b) == 25_000_000 * (b * b)) by (nonlinear_arith);
    assert(25_000_000 * (a * a) + 25_000_000 * (b * b) == 25_000_000 * (a * a + b * b));
    assert(25_000_000 * (a * a + b * b) <= 25_000_000 * (s * s));
    assert((s * s) * (qa * qa) + (s * s) * (qb * qb) == (s * s) * (qa * qa + qb * qb)) by (nonlinear_arith);
    assert((s * s) * (qa * qa + qb * qb) <= 25_000_000 * (s * s));
    assert(s * s >= 1) by (nonlinear_arith)
        requires
            s >= 1,
    ;
    assert(qa * qa + qb * qb <= 25_000_000) by (nonlinear_arith)
        requires
            (s * s) * (qa * qa + qb * qb) <= 25_000_000 * (s * s),
            s * s >= 1,
    ;
}

/// The first-person player: position, heading, velocity, and the clock
/// reading of the previous simulation tick.
pub struct Player {
    pos_x: i64,
    pos_y: i64,
    pos_z: i64,
    /// Heading angle (yaw), milliradians.
    pub view_dir: i64,
    /// Pitch angle, milliradians.
    pub view_azimuth: i64,
    velocity: Vec3,
    prior_tick_ns: u64,
}

impl Player {
    /// The current velocity, milli-units per millisecond.
    pub closed spec fn vel(self) -> Vec3 {
        self.velocity
    }

    /// The current position, milli-units.
    pub closed spec fn pos(self) -> (int, int, int) {
        (self.pos_x as int, self.pos_y as int, self.pos_z as int)
    }

    /// The clock reading stored by the previous tick, nanoseconds.
    pub closed spec fn prior_ns(self) -> u64 {
        self.prior_tick_ns
    }

    /// The heading angle, milliradians.
    pub closed spec fn dir(self) -> i64 {
        self.view_dir
    }

    /// The pitch angle, milliradians.
    pub closed spec fn azimuth(self) -> i64 {
        self.view_azimuth
    }

    /// The player's invariant: the speed never exceeds the cap.
    pub open spec fn wf(self) -> bool {
        speed3_sq(self.vel()@) <= MAX_SPEED_SQ
    }

    /// A new player at the fixed starting position, heading 3.14 rad, with
    /// zero velocity; the clock is read once to seed the tick baseline.
    pub fn new() -> (p: Player)
        ensures
            p.wf(),
            p.pos() == (START_POS_X as int, 0int, 0int),
            p.vel() == (Vec3 { x: 0, y: 0, z: 0 }),
            p.dir() == START_VIEW_DIR,
            p.azimuth() == 0i64,
    {
        Player {
            pos_x: START_POS_X,
            pos_y: 0,
            pos_z: 0,
            view_dir: START_VIEW_DIR,
            view_azimuth: 0,
            velocity: Vec3 { x: 0, y: 0, z: 0 },
            prior_tick_ns: clock::now_ns(),
        }
    }

    /// The current position as a vector of milli-units.
    pub fn position(&self) -> (p: Vec3)
        ensures
            p@ == self.pos(),
    {
        Vec3 { x: self.pos_x, y: self.pos_y, z: self.pos_z }
    }

    /// The current velocity, milli-units per millisecond.
    pub fn velocity(&self) -> (v: Vec3)
        ensures
            v == self.vel(),
    {
        self.velocity
    }

    /// Add an impulse to the velocity. If the resulting speed exceeds the
    /// cap, the planar speed cap replaces the velocity: the heading is
    /// recovered in the horizontal plane (as the source arctangent of
    /// `ny / nx` does, which makes the new x component nonnegative), the
    /// magnitude is renormalized to the cap, and the vertical component is
    /// zeroed.
    pub fn accelerate(&mut self, push: Vec3)
        requires
            old(self).wf(),
        ensures
            final(self).wf(),
            final(self).vel()@ == accel_result(old(self).vel()@, push@),
            final(self).pos() == old(self).pos(),
            final(self).dir() == old(self).dir(),
            final(self).azimuth() == old(self).azimuth(),
            final(self).prior_ns() == old(self).prior_ns(),
    {
        proof {
            lemma_component_bound(self.velocity@);
        }
        let nx: i128 = self.velocity.x as i128 + push.x as i128;
        let ny: i128 = self.velocity.y as i128 + push.y as i128;
        let nz: i128 = self.velocity.z as i128 + push.z as i128;
        let ax: u128 = if nx < 0 {
            (-nx) as u128
        } else {
            nx as u128
        };
        let ay: u128 = if ny < 0 {
            (-ny) as u128
        } else {
            ny as u128
        };
        let az: u128 = if nz < 0 {
            (-nz) as u128
        } else {
            nz as u128
        };
        proof {
            assert(ax as int == abs_of(nx as int));
            assert(ay as int == abs_of(ny as int));
            assert(az as int == abs_of(nz as int));
            assert(ax as int <= 9223372036854780808int);
            assert(ay as int <= 9223372036854780808int);
            assert(az as int <= 9223372036854780808int);
            assert(ax as int * ax as int <= 85070591730234708099564020405725132864int)
                by (nonlinear_arith)
                requires
                    0 <= ax as int <= 9223372036854780808int,
            ;
            assert(ay as int * ay as int <= 85070591730234708099564020405725132864int)
                by (nonlinear_arith)
                requires
                    0 <= ay as int <= 9223372036854780808int,
            ;
            assert(az as int * az as int <= 85070591730234708099564020405725132864int)
                by (nonlinear_arith)
                requires
                    0 <= az as int <= 9223372036854780808int,
            ;
            assert(ax as int * ax as int == nx as int * nx as int) by (nonlinear_arith)
                requires
                    ax as int == nx as int || ax as int == -(nx as int),
            ;
            assert(ay as int * ay as int == ny as int * ny as int) by (nonlinear_arith)
                requires
                    ay as int == ny as int || ay as int == -(ny as int),
            ;
            assert(az as int * az as int == nz as int * nz as int) by (nonlinear_arith)
                requires
                    az as int == nz as int || az as int == -(nz as int),
            ;
        }
        let sx: u128 = ax * ax;
        let sy: u128 = ay * ay;
        let sz: u128 = az * az;
        let total: u128 = sx + sy + sz;
        if total > 25_000_000 {
            if nx == 0 {
                // The arctangent of `ny / 0` is taken as a signed quarter
                // turn; with no horizontal motion at all the velocity is
                // simply cleared.
                let vy: i64 = if ny > 0 {
                    MAX_SPEED
                } else if ny < 0 {
                    -MAX_SPEED
                } else {
                    0
                };
                self.velocity = Vec3 { x: 0, y: vy, z: 0 };
                proof {
                    assert(vy as int * vy as int <= 25_000_000) by (nonlinear_arith)
                        requires
                            vy as int == 5000 || vy as int == -5000 || vy as int == 0,
                    ;
                    assert(self.velocity@ == (0int, vy as int, 0int));
                    assert(speed3_sq(self.velocity@) <= MAX_SPEED_SQ);
                    assert(self.velocity@ == accel_result(old(self).vel()@, push@));
                }
            } else {
                let planar: u128 = sx + sy;
                proof {
                    assert(ax as int >= 1);
                    assert(ax as int * ax as int >= 1) by (nonlinear_arith)
                        requires
                            ax as int >= 1,
                    ;
                }
                let s: u64 = isqrt_ceil(planar);
                proof {
                    assert(s as int >= 1);
                    assert((s as int) * (s as int) >= (ax as int) * (ax as int) + (ay as int) * (
                    ay as int));
                    lemma_clamp_bounded(ax as int, ay as int, s as int);
                }
                let qx: u128 = 5000 * ax / (s as u128);
                let qy: u128 = 5000 * ay / (s as u128);
                let qxi: i64 = qx as i64;
                let qyi: i64 = qy as i64;
                let vy: i64 = if (nx < 0) == (ny < 0) {
                    qyi
                } else {
                    -qyi
                };
                self.velocity = Vec3 { x: qxi, y: vy, z: 0 };
                proof {
                    let ghost nxi = nx as int;
                    let ghost nyi = ny as int;
                    assert(planar as int == nxi * nxi + nyi * nyi);
                    assert(sqrt_ceil(nxi * nxi + nyi * nyi) == s as int);
                    let ghost c = clamped_velocity(nxi, nyi);
                    assert(c.0 == qx as int);
                    if ny == 0 {
                        lemma_basic_div(0, s as int);
                        assert(qy as int == 0);
                    }
                    assert(c.1 == vy as int);
                    assert(vy as int * vy as int == qy as int * qy as int) by (nonlinear_arith)
                        requires
                            vy as int == qy as int || vy as int == -(qy as int),
                    ;
                    assert(self.velocity@ == (c.0, c.1, 0int));
                    assert(speed3_sq(self.velocity@) <= MAX_SPEED_SQ);
                    assert(self.velocity@ == accel_result(old(self).vel()@, push@));
                }
            }
        } else {
            proof {
                assert(nx as int * nx as int <= 25_000_000);
                assert(ny as int * ny as int <= 25_000_000);
                assert(nz as int * nz as int <= 25_000_000);
                assert(-5000 <= nx as int <= 5000) by (nonlinear_arith)
                    requires
                        nx as int * nx as int <= 25_000_000,
                ;
                assert(-5000 <= ny as int <= 5000) by (nonlinear_arith)
                    requires
                        ny as int * ny as int <= 25_000_000,
                ;
                assert(-5000 <= nz as int <= 5000) by (nonlinear_arith)
                    requires
                        nz as int * nz as int <= 25_000_000,
                ;
            }
            self.velocity = Vec3 { x: nx as i64, y: ny as i64, z: nz as i64 };
            proof {
                assert(self.velocity@ == accel_result(old(self).vel()@, push@));
            }
        }
    }

    /// One simulation tick against an explicit clock reading: advance the
    /// position by velocity times the milliseconds elapsed since the
    /// previous tick, and store the reading as the new baseline.
    ///
    /// Sub-millisecond remainders are discarded (a very fast frame moves
    /// nothing), and a reading older than the stored one counts as zero
    /// elapsed time; each coordinate saturates at the `i64` range.
    pub fn tick_at(&mut self, now_ns: u64)
        requires
            old(self).wf(),
        ensures
            final(self).wf(),
            ticked(*old(self), *final(self), now_ns),
    {
        let delta_ms: u64 = if now_ns >= self.prior_tick_ns {
            (now_ns - self.prior_tick_ns) / 1_000_000
        } else {
            0
        };
        proof {
            assert(delta_ms as int == elapsed_ms(self.prior_tick_ns as int, now_ns as int));
            if now_ns >= self.prior_tick_ns {
                lemma_div_is_ordered(
                    now_ns as int - self.prior_tick_ns as int,
                    u64::MAX as int,
                    1_000_000,
                );
                assert(u64::MAX as int / 1_000_000 == 18446744073709int);
            }
            assert(delta_ms as int <= 18446744073709int);
            lemma_component_bound(self.velocity@);
            assert(-92233720368545000 <= self.velocity.x as int * delta_ms as int
                <= 92233720368545000) by (nonlinear_arith)
                requires
                    -5000 <= self.velocity.x as int <= 5000,
                    0 <= delta_ms as int <= 18446744073709int,
            ;
            assert(-92233720368545000 <= self.velocity.y as int * delta_ms as int
                <= 92233720368545000) by (nonlinear_arith)
                requires
                    -5000 <= self.velocity.y as int <= 5000,
                    0 <= delta_ms as int <= 18446744073709int,
            ;
            assert(-92233720368545000 <= self.velocity.z as int * delta_ms as int
                <= 92233720368545000) by (nonlinear_arith)
                requires
                    -5000 <= self.velocity.z as int <= 5000,
                    0 <= delta_ms as int <= 18446744073709int,
            ;
        }
        let dx: i128 = self.pos_x as i128 + (self.velocity.x as i128) * (delta_ms as i128);
        let dy: i128 = self.pos_y as i128 + (self.velocity.y as i128) * (delta_ms as i128);
        let dz: i128 = self.pos_z as i128 + (self.velocity.z as i128) * (delta_ms as i128);
        self.pos_x = saturate_i64(dx);
        self.pos_y = saturate_i64(dy);
        self.pos_z = saturate_i64(dz);
        self.prior_tick_ns = now_ns;
        proof {
            assert(self.pos() == moved(
                old(self).pos(),
                old(self).vel()@,
                elapsed_ms(old(self).prior_ns() as int, now_ns as int),
            ));
        }
    }

    /// One simulation tick against the real clock: whatever the clock
    /// returns, the step is a `ticked` transition for that reading.
    pub fn tick(&mut self)
        requires
            old(self).wf(),
        ensures
            final(self).wf(),
            exists|now: u64| ticked(*old(self), *final(self), now),
    {
        let now: u64 = clock::now_ns();
        self.tick_at(now);
        proof {
            assert(ticked(*old(self), *self, now));
        }
    }
}

/// Impulses accumulate: two successive impulses whose running sums both
/// stay at or below the speed cap leave the velocity equal to the plain
/// vector sum — no clamping is applied.
pub proof fn lemma_accelerate_accumulates(v: (int, int, int), p1: (int, int, int), p2: (
    int,
    int,
    int,
))
    requires
        speed3_sq(add3(v, p1)) <= MAX_SPEED_SQ,
        speed3_sq(add3(add3(v, p1), p2)) <= MAX_SPEED_SQ,
    ensures
        accel_result(accel_result(v, p1), p2) == add3(add3(v, p1), p2),
{
}

/// An impulse that drives the speed over the cap triggers the planar speed
/// cap: the new velocity has a zero vertical component, a nonnegative first
/// component (the heading comes from an arctangent), and a speed at most
/// the cap.
pub proof fn lemma_planar_cap(v: (int, int, int), p: (int, int, int))
    requires
        speed3_sq(add3(v, p)) > MAX_SPEED_SQ,
    ensures
        accel_result(v, p).2 == 0,
        accel_result(v, p).0 >= 0,
        speed3_sq(accel_result(v, p)) <= MAX_SPEED_SQ,
{
    let n = add3(v, p);
    let nx = n.0;
    let ny = n.1;
    let c = clamped_velocity(nx, ny);
    if nx == 0 {
        assert(c.1 == 5000 || c.1 == -5000 || c.1 == 0);
        assert(c.1 * c.1 <= 25_000_000) by (nonlinear_arith)
            requires
                c.1 == 5000 || c.1 == -5000 || c.1 == 0,
        ;
        assert(speed3_sq((c.0, c.1, 0int)) <= MAX_SPEED_SQ);
    } else {
        lemma_sqrt_ceil_exists(nx * nx + ny * ny);
        let s = sqrt_ceil(nx * nx + ny * ny);
        let a = abs_of(nx);
        let b = abs_of(ny);
        assert(a * a == nx * nx) by (nonlinear_arith)
            requires
                a == nx || a == -nx,
        ;
        assert(b * b == ny * ny) by (nonlinear_arith)
            requires
                b == ny || b == -ny,
        ;
        assert(nx * nx >= 1) by (nonlinear_arith)
            requires
                nx != 0,
        ;
        assert(ny * ny >= 0) by (nonlinear_arith);
        if s == 0 {
            assert(s * s == 0) by (nonlinear_arith)
                requires
                    s == 0,
            ;
            assert(false);
        }
        lemma_clamp_bounded(a, b, s);
        let qx = 5000 * a / s;
        let qy = 5000 * b / s;
        assert(c.0 == qx);
        assert(c.1 == qy || c.1 == -qy || c.1 == 0);
        assert(qy * qy >= 0) by (nonlinear_arith);
        assert(c.1 * c.1 <= qy * qy) by (nonlinear_arith)
            requires
                c.1 == qy || c.1 == -qy || c.1 == 0,
                qy * qy >= 0,
        ;
        assert(speed3_sq((c.0, c.1, 0int)) <= MAX_SPEED_SQ);
    }
}

/// Where the over-cap velocity is axis-aligned the cap is reached exactly:
/// with no y component the clamp yields `(MAX_SPEED, 0, 0)` — whatever the
/// sign of x, since the arctangent heading cannot tell the two apart.
pub proof fn lemma_planar_cap_exact_on_axis(v: (int, int, int), p: (int, int, int))
    requires
        speed3_sq(add3(v, p)) > MAX_SPEED_SQ,
        add3(v, p).1 == 0,
        add3(v, p).0 != 0,
    ensures
        accel_result(v, p) == (MAX_SPEED as int, 0int, 0int),
        speed3_sq(accel_result(v, p)) == MAX_SPEED_SQ,
{
    let n = add3(v, p);
    let nx = n.0;
    let ny = n.1;
    let a = abs_of(nx);
    assert(a * a == nx * nx) by (nonlinear_arith)
        requires
            a == nx || a == -nx,
    ;
    assert(a >= 1);
    assert((a - 1) * (a - 1) < a * a) by (nonlinear_arith)
        requires
            a >= 1,
    ;
    assert(ny * ny == 0) by (nonlinear_arith)
        requires
            ny == 0,
    ;
    assert(is_sqrt_ceil(nx * nx + ny * ny, a));
    lemma_sqrt_ceil_is(nx * nx + ny * ny, a);
    lemma_div_multiples_vanish(5000, a);
    lemma_basic_div(0, a);
}

/// Frame-rate-independent integration: when the integrated coordinates stay
/// in range, a tick advances the position by exactly velocity times the
/// milliseconds elapsed between the stored reading and the new one.
pub proof fn lemma_tick_advances(pre: Player, post: Player, now: u64)
    requires
        ticked(pre, post, now),
        i64::MIN <= pre.pos().0 + pre.vel()@.0 * elapsed_ms(pre.prior_ns() as int, now as int)
            <= i64::MAX,
        i64::MIN <= pre.pos().1 + pre.vel()@.1 * elapsed_ms(pre.prior_ns() as int, now as int)
            <= i64::MAX,
        i64::MIN <= pre.pos().2 + pre.vel()@.2 * elapsed_ms(pre.prior_ns() as int, now as int)
            <= i64::MAX,
    ensures
        post.pos().0 == pre.pos().0 + pre.vel()@.0 * elapsed_ms(pre.prior_ns() as int, now as int),
        post.pos().1 == pre.pos().1 + pre.vel()@.1 * elapsed_ms(pre.prior_ns() as int, now as int),
        post.pos().2 == pre.pos().2 + pre.vel()@.2 * elapsed_ms(pre.prior_ns() as int, now as int),
{
}

/// A tick within the same millisecond as the previous one — including a
/// reading identical to the stored one, so zero elapsed time — leaves the
/// position unchanged: sub-millisecond elapsed times round to zero.
pub proof fn lemma_tick_subframe(pre: Player, post: Player, now: u64)
    requires
        ticked(pre, post, now),
        pre.prior_ns() <= now < pre.prior_ns() + 1_000_000,
    ensures
        post.pos() == pre.pos(),
{
    lemma_basic_div(now as int - pre.prior_ns() as int, 1_000_000);
    assert(elapsed_ms(pre.prior_ns() as int, now as int) == 0);
    assert(pre.vel()@.0 * 0 == 0) by (nonlinear_arith);
    assert(pre.vel()@.1 * 0 == 0) by (nonlinear_arith);
    assert(pre.vel()@.2 * 0 == 0) by (nonlinear_arith);
    assert(i64::MIN <= pre.pos().0 <= i64::MAX);
    assert(i64::MIN <= pre.pos().1 <= i64::MAX);
    assert(i64::MIN <= pre.pos().2 <= i64::MAX);
}

} // verus!
