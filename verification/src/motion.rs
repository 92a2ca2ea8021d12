//! One step of one particle: forces, friction, the speed limit, the move.
//!
//! Lengths, speeds and factors are whole numbers of thousandths; every
//! division rounds towards nought.
use crate::geometry::Point;
use crate::population::Particle;
use vstd::prelude::*;

verus! {

/// The pointer is felt within this distance: 150 world units.
pub const MOUSE_RADIUS: i32 = 150000;

/// What surrounds the particles during a step.
#[derive(Clone, Copy, Debug, PartialEq, Eq, Structural)]
pub struct Field {
    pub width: i32,
    pub height: i32,
    pub mouse_x: i32,
    pub mouse_y: i32,
    pub mouse_active: bool,
}

/// `r` is the square root of `n`, rounded down.
pub open spec fn is_floor_sqrt(n: int, r: int) -> bool {
    0 <= r && r * r <= n < (r + 1) * (r + 1)
}

/// The square root of `n`, rounded down.
pub open spec fn floor_sqrt(n: int) -> int {
    choose|r: int| is_floor_sqrt(n, r)
}

/// `num / den`, rounded towards nought.
pub open spec fn toward_zero(num: int, den: int) -> int {
    if num >= 0 {
        num / den
    } else {
        -((-num) / den)
    }
}

/// The push along one axis on a particle that has the pointer `d` away along
/// that axis and `dist` away in all: away from the pointer, five units at the
/// pointer itself and fading to nothing at the radius.
pub open spec fn push_along(d: int, dist: int) -> int {
    toward_zero(-(d * (MOUSE_RADIUS - dist) * 5000), dist * MOUSE_RADIUS)
}

/// The push of the pointer on a particle, along each axis: nothing where the
/// pointer is idle, on the particle itself, or a radius or more away.
pub open spec fn repulsion(p: Particle, f: Field) -> (int, int) {
    let mdx = f.mouse_x - p.position.x;
    let mdy = f.mouse_y - p.position.y;
    let dist = floor_sqrt(mdx * mdx + mdy * mdy);
    if f.mouse_active && 0 < dist < MOUSE_RADIUS {
        (push_along(mdx, dist), push_along(mdy, dist))
    } else {
        (0, 0)
    }
}

/// The velocity along one axis of a forming particle after the forces: a
/// tenth of the pull towards the breathing target and of the push is added.
pub open spec fn drawn(v: int, from: int, to: int, breathing: int, p: Particle, push: int) -> int {
    v + toward_zero(
        toward_zero((to + breathing - from) * p.ease * p.attraction_strength, 1000000) + push,
        10,
    )
}

/// The velocity along one axis of a floating particle after the forces: half
/// the push is added, and outside the field the velocity is turned round.
pub open spec fn drifted(v: int, at: int, extent: int, push: int) -> int {
    let pushed = v + toward_zero(push, 2);
    if at < 0 || at > extent {
        -pushed
    } else {
        pushed
    }
}

/// A velocity after friction.
pub open spec fn damped(v: int, friction: int) -> int {
    toward_zero(v * friction, 1000)
}

/// One component of a velocity held to `max_speed`: above it the velocity is
/// scaled down along its direction.
pub open spec fn limited(v: int, other: int, max_speed: int) -> int {
    let s2 = v * v + other * other;
    if s2 > max_speed * max_speed {
        toward_zero(v * max_speed, floor_sqrt(s2) + 1)
    } else {
        v
    }
}

/// `v`, held to what a coordinate can be.
pub open spec fn saturated(v: int) -> int {
    if v > i32::MAX {
        i32::MAX as int
    } else if v < i32::MIN {
        i32::MIN as int
    } else {
        v
    }
}

/// The velocity of a particle before friction.
pub open spec fn forced(p: Particle, f: Field, breathing: int) -> (int, int) {
    let (fx, fy) = repulsion(p, f);
    if p.is_forming {
        (
            drawn(p.vx as int, p.position.x as int, p.target.x as int, breathing, p, fx),
            drawn(p.vy as int, p.position.y as int, p.target.y as int, breathing, p, fy),
        )
    } else {
        (
            drifted(p.vx as int, p.position.x as int, f.width as int, fx),
            drifted(p.vy as int, p.position.y as int, f.height as int, fy),
        )
    }
}

/// The velocity of a particle after one step.
pub open spec fn velocity_after(p: Particle, f: Field, breathing: int) -> (int, int) {
    let (ax, ay) = forced(p, f, breathing);
    let dx = damped(ax, p.friction as int);
    let dy = damped(ay, p.friction as int);
    (limited(dx, dy, p.max_speed as int), limited(dy, dx, p.max_speed as int))
}

/// The particle after one step: it has its new velocity and has moved by it.
pub open spec fn stepped(p: Particle, f: Field, breathing: int) -> Particle {
    let (vx, vy) = velocity_after(p, f, breathing);
    Particle {
        position: Point {
            x: saturated(p.position.x + vx) as i32,
            y: saturated(p.position.y + vy) as i32,
        },
        vx: vx as i32,
        vy: vy as i32,
        ..p
    }
}

/// The offset of a forming particle's target where the wave that carries it
/// stands at `wave`, a sine in thousandths: twice the wave, which counts for
/// no more than one either way.
pub open spec fn breathing_of(wave: int) -> int {
    if wave > 1000 {
        2000
    } else if wave < -1000 {
        -2000
    } else {
        2 * wave
    }
}

/// The phase of the wave at a particle: the time, and a twentieth of how far
/// down the particle is.
pub open spec fn phase_of(time: int, p: Particle) -> int {
    time + toward_zero(p.position.y as int, 20)
}

/// Computes the square root of `n`, rounded down.
pub fn isqrt(n: u128) -> (r: u64)
    ensures
        is_floor_sqrt(n as int, r as int),
        r == floor_sqrt(n as int),
{
    let mut lo: u128 = 0;
    let mut hi: u128 = 18446744073709551616;
    assert(hi * hi > n) by (nonlinear_arith)
        requires
            hi == 18446744073709551616,
            n <= u128::MAX,
    ;
    while hi - lo > 1
        invariant
            lo < hi <= 18446744073709551616,
            lo * lo <= n < hi * hi,
        decreases hi - lo,
    {
        let mid: u128 = lo + (hi - lo) / 2;
        assert(mid * mid <= 18446744073709551615 * 18446744073709551615) by (nonlinear_arith)
            requires
                0 <= mid <= 18446744073709551615,
        ;
        if mid * mid <= n {
            lo = mid;
        } else {
            hi = mid;
        }
    }
    proof {
        assert(is_floor_sqrt(n as int, lo as int));
        lemma_floor_sqrt_unique(n as int, lo as int, floor_sqrt(n as int));
    }
    lo as u64
}

/// Divides, rounding towards nought.
pub fn div_toward_zero(num: i128, den: i128) -> (q: i128)
    requires
        den > 0,
        num > i128::MIN,
    ensures
        q == toward_zero(num as int, den as int),
        num >= 0 ==> 0 <= q <= num && q * den <= num,
        num <= 0 ==> num <= q <= 0 && q * den >= num,
{
    if num >= 0 {
        let n: u128 = num as u128;
        let d: u128 = den as u128;
        assert(0 <= n / d <= n && (n / d) * d <= n) by (nonlinear_arith)
            requires
                d >= 1,
                n >= 0,
        ;
        (n / d) as i128
    } else {
        let n: u128 = (-num) as u128;
        let d: u128 = den as u128;
        assert(0 <= n / d <= n && (n / d) * d <= n) by (nonlinear_arith)
            requires
                d >= 1,
                n >= 0,
        ;
        let k: u128 = n / d;
        assert((-(k as int)) * (den as int) == -((k as int) * (d as int))) by (nonlinear_arith)
            requires
                den as int == d as int,
        ;
        -(k as i128)
    }
}

fn push_component(d: i64, dist: i64) -> (push: i64)
    requires
        0 < dist < MOUSE_RADIUS,
        -dist <= d <= dist,
    ensures
        push == push_along(d as int, dist as int),
        -112500000000000 <= push <= 112500000000000,
{
    let fade: i128 = MOUSE_RADIUS as i128 - dist as i128;
    assert(-22500000000 <= d * fade <= 22500000000) by (nonlinear_arith)
        requires
            -150000 <= d <= 150000,
            0 < fade <= 150000,
    ;
    let num: i128 = -(d as i128 * fade * 5000);
    let den: i128 = dist as i128 * MOUSE_RADIUS as i128;
    div_toward_zero(num, den) as i64
}

/// Computes the push of the pointer on a particle, along each axis.
pub fn repel(p: &Particle, f: &Field) -> (push: (i64, i64))
    ensures
        push.0 == repulsion(*p, *f).0,
        push.1 == repulsion(*p, *f).1,
        -112500000000000 <= push.0 <= 112500000000000,
        -112500000000000 <= push.1 <= 112500000000000,
{
    let mdx: i128 = f.mouse_x as i128 - p.position.x as i128;
    let mdy: i128 = f.mouse_y as i128 - p.position.y as i128;
    assert(0 <= mdx * mdx <= 18446744073709551616) by (nonlinear_arith)
        requires
            -4294967296 <= mdx <= 4294967296,
    ;
    assert(0 <= mdy * mdy <= 18446744073709551616) by (nonlinear_arith)
        requires
            -4294967296 <= mdy <= 4294967296,
    ;
    let dist: u64 = isqrt((mdx * mdx + mdy * mdy) as u128);
    if f.mouse_active && 0 < dist && dist < MOUSE_RADIUS as u64 {
        proof {
            lemma_root_bounds(mdx as int, dist + 1);
            lemma_root_bounds(mdy as int, dist + 1);
        }
        (push_component(mdx as i64, dist as i64), push_component(mdy as i64, dist as i64))
    } else {
        (0, 0)
    }
}

fn pull(v: i32, from: i32, to: i32, breathing: i32, p: &Particle, push: i64) -> (a: i64)
    requires
        p.wf(),
        -112500000000000 <= push <= 112500000000000,
    ensures
        a == drawn(v as int, from as int, to as int, breathing as int, *p, push as int),
        -4503599627370496 <= a <= 4503599627370496,
{
    let away: i128 = to as i128 + breathing as i128 - from as i128;
    let ease: i128 = p.ease as i128;
    let attraction: i128 = p.attraction_strength as i128;
    assert(-1159641169920 <= away * ease <= 1159641169920) by (nonlinear_arith)
        requires
            -6442450944 <= away <= 6442450944,
            0 < ease <= 180,
    ;
    assert(-2087354105856000 <= away * ease * attraction <= 2087354105856000) by (nonlinear_arith)
        requires
            -1159641169920 <= away * ease <= 1159641169920,
            0 < attraction <= 1800,
    ;
    let drawn_by: i128 = div_toward_zero(away * ease * attraction, 1000000);
    (v as i128 + div_toward_zero(drawn_by + push as i128, 10)) as i64
}

fn drift(v: i32, at: i32, extent: i32, push: i64) -> (a: i64)
    requires
        -112500000000000 <= push <= 112500000000000,
    ensures
        a == drifted(v as int, at as int, extent as int, push as int),
        -4503599627370496 <= a <= 4503599627370496,
{
    let pushed: i128 = v as i128 + div_toward_zero(push as i128, 2);
    if at < 0 || at > extent {
        (-pushed) as i64
    } else {
        pushed as i64
    }
}

fn damp(v: i64, friction: i32) -> (d: i64)
    requires
        -4503599627370496 <= v <= 4503599627370496,
        0 < friction <= 1000,
    ensures
        d == damped(v as int, friction as int),
        -4503599627370496 <= d <= 4503599627370496,
        v >= 0 ==> 0 <= d <= v,
        v <= 0 ==> v <= d <= 0,
{
    let grip: i128 = friction as i128;
    assert(-4503599627370496000 <= v * grip <= 4503599627370496000) by (nonlinear_arith)
        requires
            -4503599627370496 <= v <= 4503599627370496,
            0 < grip <= 1000,
    ;
    proof {
        lemma_damped(v as int, friction as int);
    }
    div_toward_zero(v as i128 * grip, 1000) as i64
}

fn limit(v: i64, w: i64, max_speed: i32) -> (r: i32)
    requires
        -4503599627370496 <= v <= 4503599627370496,
        -4503599627370496 <= w <= 4503599627370496,
        0 <= max_speed,
    ensures
        r == limited(v as int, w as int, max_speed as int),
{
    let a: i128 = v as i128;
    let b: i128 = w as i128;
    let m: i128 = max_speed as i128;
    assert(0 <= a * a <= 20282409603651670423947251286016) by (nonlinear_arith)
        requires
            -4503599627370496 <= a <= 4503599627370496,
    ;
    assert(0 <= b * b <= 20282409603651670423947251286016) by (nonlinear_arith)
        requires
            -4503599627370496 <= b <= 4503599627370496,
    ;
    assert(0 <= m * m <= 4611686018427387904) by (nonlinear_arith)
        requires
            0 <= m <= 2147483647,
    ;
    assert(-9671406556917033397649408 <= a * m <= 9671406556917033397649408) by (nonlinear_arith)
        requires
            -4503599627370496 <= a <= 4503599627370496,
            0 <= m <= 2147483647,
    ;
    proof {
        lemma_limited(v as int, w as int, max_speed as int);
    }
    let s2: i128 = a * a + b * b;
    if s2 > m * m {
        let c: i128 = isqrt(s2 as u128) as i128 + 1;
        div_toward_zero(a * m, c) as i32
    } else {
        v as i32
    }
}

fn saturate(v: i64) -> (r: i32)
    ensures
        r == saturated(v as int),
{
    if v > 2147483647 {
        2147483647
    } else if v < -2147483648 {
        -2147483648
    } else {
        v as i32
    }
}

/// Moves one particle by one step. `breathing` is the offset of its target
/// at this instant, along both axes.
pub fn step_particle(p: Particle, f: Field, breathing: i32) -> (r: Particle)
    requires
        p.wf(),
    ensures
        r == stepped(p, f, breathing as int),
        r.wf(),
        r.vx * r.vx + r.vy * r.vy <= p.max_speed * p.max_speed,
        -p.max_speed <= r.vx <= p.max_speed,
        -p.max_speed <= r.vy <= p.max_speed,
{
    let (fx, fy) = repel(&p, &f);
    let (ax, ay): (i64, i64) = if p.is_forming {
        (
            pull(p.vx, p.position.x, p.target.x, breathing, &p, fx),
            pull(p.vy, p.position.y, p.target.y, breathing, &p, fy),
        )
    } else {
        (drift(p.vx, p.position.x, f.width, fx), drift(p.vy, p.position.y, f.height, fy))
    };
    let dx: i64 = damp(ax, p.friction);
    let dy: i64 = damp(ay, p.friction);
    proof {
        lemma_limited(dx as int, dy as int, p.max_speed as int);
        lemma_limited(dy as int, dx as int, p.max_speed as int);
    }
    let vx: i32 = limit(dx, dy, p.max_speed);
    let vy: i32 = limit(dy, dx, p.max_speed);
    let position = Point {
        x: saturate(p.position.x as i64 + vx as i64),
        y: saturate(p.position.y as i64 + vy as i64),
    };
    Particle { position, vx, vy, ..p }
}

/// Computes the offset of a forming particle's target from the wave.
pub fn breathing(wave: i32) -> (offset: i32)
    ensures
        offset == breathing_of(wave as int),
{
    if wave > 1000 {
        2000
    } else if wave < -1000 {
        -2000
    } else {
        2 * wave
    }
}

/// Computes the phase of the wave at a particle.
pub fn phase(time: u64, p: &Particle) -> (at: i128)
    ensures
        at == phase_of(time as int, *p),
{
    time as i128 + div_toward_zero(p.position.y as i128, 20)
}

/// A number has at most one rounded-down square root.
pub proof fn lemma_floor_sqrt_unique(n: int, a: int, b: int)
    requires
        is_floor_sqrt(n, a),
        is_floor_sqrt(n, b),
    ensures
        a == b,
{
    if a < b {
        assert((a + 1) * (a + 1) <= b * b) by (nonlinear_arith)
            requires
                0 <= a + 1 <= b,
        ;
    }
    if b < a {
        assert((b + 1) * (b + 1) <= a * a) by (nonlinear_arith)
            requires
                0 <= b + 1 <= a,
        ;
    }
}

/// A velocity held to `max_speed` is no faster than `max_speed`, and no
/// component of it has grown.
pub proof fn lemma_limited(v: int, w: int, m: int)
    requires
        0 <= m,
    ensures
        limited(v, w, m) * limited(v, w, m) + limited(w, v, m) * limited(w, v, m) <= m * m,
        -m <= limited(v, w, m) <= m,
        v >= 0 ==> 0 <= limited(v, w, m) <= v,
        v <= 0 ==> v <= limited(v, w, m) <= 0,
{
    let s2 = v * v + w * w;
    assert(w * w + v * v == s2);
    assert(v * v >= 0 && w * w >= 0) by (nonlinear_arith);
    if s2 > m * m {
        lemma_floor_sqrt_exists(s2);
        let c = floor_sqrt(s2) + 1;
        assert(c * c > s2);
        assert(c > m) by (nonlinear_arith)
            requires
                c * c > m * m,
                c >= 1,
                m >= 0,
        ;
        let a = limited(v, w, m);
        let b = limited(w, v, m);
        lemma_scaled(v, m, c);
        lemma_scaled(w, m, c);
        let sq = a * a + b * b;
        let cc = c * c;
        let mm = m * m;
        assert(a * a >= 0 && b * b >= 0 && mm >= 0) by (nonlinear_arith)
            requires
                mm == m * m,
        ;
        assert((a * c) * (a * c) == (a * a) * cc) by (nonlinear_arith)
            requires
                cc == c * c,
        ;
        assert((b * c) * (b * c) == (b * b) * cc) by (nonlinear_arith)
            requires
                cc == c * c,
        ;
        assert((v * m) * (v * m) == (v * v) * mm) by (nonlinear_arith)
            requires
                mm == m * m,
        ;
        assert((w * m) * (w * m) == (w * w) * mm) by (nonlinear_arith)
            requires
                mm == m * m,
        ;
        assert(sq * cc == (a * a) * cc + (b * b) * cc) by (nonlinear_arith)
            requires
                sq == a * a + b * b,
        ;
        assert(s2 * mm == (v * v) * mm + (w * w) * mm) by (nonlinear_arith)
            requires
                s2 == v * v + w * w,
        ;
        assert(sq * cc <= s2 * mm);
        if sq > mm {
            assert(sq * cc >= (mm + 1) * cc) by (nonlinear_arith)
                requires
                    sq >= mm + 1,
                    cc >= 0,
            ;
            assert((mm + 1) * cc == mm * cc + cc) by (nonlinear_arith);
            assert(s2 * mm <= mm * cc) by (nonlinear_arith)
                requires
                    0 <= s2 <= cc,
                    mm >= 0,
            ;
            assert(false);
        }
        assert(a * a + b * b <= m * m);
        assert(-m <= a <= m) by (nonlinear_arith)
            requires
                a * a + b * b <= m * m,
                0 <= m,
        ;
    } else {
        assert(-m <= v <= m) by (nonlinear_arith)
            requires
                v * v + w * w <= m * m,
                0 <= m,
        ;
    }
}

/// Every number from nought up has a rounded-down square root.
pub proof fn lemma_floor_sqrt_exists(n: int)
    requires
        0 <= n,
    ensures
        is_floor_sqrt(n, floor_sqrt(n)),
    decreases n,
{
    if n == 0 {
        assert(is_floor_sqrt(0, 0));
    } else {
        lemma_floor_sqrt_exists(n - 1);
        let r = floor_sqrt(n - 1);
        if (r + 1) * (r + 1) <= n {
            assert((r + 2) * (r + 2) > n) by (nonlinear_arith)
                requires
                    (r + 1) * (r + 1) > n - 1,
                    r >= 0,
            ;
            assert(is_floor_sqrt(n, r + 1));
        } else {
            assert(is_floor_sqrt(n, r));
        }
    }
}

/// Scaling `v` by `m / c` with `m < c` brings it nearer to nought, and the
/// square of the result times `c` is at most that of `v` times `m`.
proof fn lemma_scaled(v: int, m: int, c: int)
    requires
        0 <= m < c,
    ensures
        ({
            let a = toward_zero(v * m, c);
            &&& (a * c) * (a * c) <= (v * m) * (v * m)
            &&& v >= 0 ==> 0 <= a <= v
            &&& v <= 0 ==> v <= a <= 0
        }),
{
    let a = toward_zero(v * m, c);
    if v >= 0 {
        assert(v * m >= 0) by (nonlinear_arith)
            requires
                v >= 0,
                m >= 0,
        ;
        let n = v * m;
        assert(0 <= (n / c) * c <= n && n / c <= v) by (nonlinear_arith)
            requires
                n == v * m,
                0 <= m < c,
                v >= 0,
        ;
        assert((a * c) * (a * c) <= n * n) by (nonlinear_arith)
            requires
                0 <= a * c <= n,
        ;
    } else {
        assert(v * m <= 0) by (nonlinear_arith)
            requires
                v <= 0,
                m >= 0,
        ;
        let n = -(v * m);
        assert(n == (-v) * m) by (nonlinear_arith)
            requires
                n == -(v * m),
        ;
        if n == 0 {
            assert(n / c == 0);
            assert(a == 0);
            assert((a * c) * (a * c) <= (v * m) * (v * m)) by (nonlinear_arith)
                requires
                    a == 0,
            ;
        } else {
            assert(0 <= (n / c) * c <= n && n / c <= -v) by (nonlinear_arith)
                requires
                    n == (-v) * m,
                    0 <= m < c,
                    -v >= 0,
            ;
            assert(a == -(n / c));
            assert((a * c) * (a * c) <= (v * m) * (v * m)) by (nonlinear_arith)
                requires
                    a == -(n / c),
                    0 <= (n / c) * c <= n,
                    n == -(v * m),
            ;
        }
    }
}

proof fn lemma_root_bounds(x: int, r: int)
    requires
        0 < r,
        x * x < r * r,
    ensures
        -r < x < r,
{
    if x >= r {
        assert(x * x >= r * r) by (nonlinear_arith)
            requires
                x >= r,
                r > 0,
        ;
    }
    if x <= -r {
        assert(x * x >= r * r) by (nonlinear_arith)
            requires
                -x >= r,
                r > 0,
        ;
    }
}

/// Friction brings a velocity nearer to nought, never past it.
pub proof fn lemma_damped(v: int, friction: int)
    requires
        0 < friction <= 1000,
    ensures
        v >= 0 ==> 0 <= damped(v, friction) <= v,
        v <= 0 ==> v <= damped(v, friction) <= 0,
{
    if v >= 0 {
        assert(0 <= v * friction <= v * 1000) by (nonlinear_arith)
            requires
                v >= 0,
                0 < friction <= 1000,
        ;
    } else {
        assert(0 <= -(v * friction) <= (-v) * 1000) by (nonlinear_arith)
            requires
                v < 0,
                0 < friction <= 1000,
        ;
    }
}

/// After a step no particle is faster than its top speed.
pub proof fn lemma_speed_limit(p: Particle, f: Field, breathing: int)
    requires
        p.wf(),
    ensures
        stepped(p, f, breathing).vx * stepped(p, f, breathing).vx + stepped(p, f, breathing).vy
            * stepped(p, f, breathing).vy <= p.max_speed * p.max_speed,
        stepped(p, f, breathing).max_speed == p.max_speed,
{
    let (ax, ay) = forced(p, f, breathing);
    let dx = damped(ax, p.friction as int);
    let dy = damped(ay, p.friction as int);
    lemma_limited(dx, dy, p.max_speed as int);
    lemma_limited(dy, dx, p.max_speed as int);
}

/// A floating particle inside the field, with the pointer idle, does not gain
/// speed in a step: neither along an axis nor in all.
pub proof fn lemma_friction_slows(p: Particle, f: Field, breathing: int)
    requires
        p.wf(),
        !p.is_forming,
        !f.mouse_active,
        0 <= p.position.x <= f.width,
        0 <= p.position.y <= f.height,
    ensures
        ({
            let q = stepped(p, f, breathing);
            &&& p.vx >= 0 ==> 0 <= q.vx <= p.vx
            &&& p.vx <= 0 ==> p.vx <= q.vx <= 0
            &&& p.vy >= 0 ==> 0 <= q.vy <= p.vy
            &&& p.vy <= 0 ==> p.vy <= q.vy <= 0
            &&& q.vx * q.vx + q.vy * q.vy <= p.vx * p.vx + p.vy * p.vy
        }),
{
    let (ax, ay) = forced(p, f, breathing);
    assert(ax == p.vx && ay == p.vy);
    let dx = damped(ax, p.friction as int);
    let dy = damped(ay, p.friction as int);
    lemma_damped(ax, p.friction as int);
    lemma_damped(ay, p.friction as int);
    lemma_limited(dx, dy, p.max_speed as int);
    lemma_limited(dy, dx, p.max_speed as int);
    let q = stepped(p, f, breathing);
    lemma_square_order(q.vx as int, p.vx as int);
    lemma_square_order(q.vy as int, p.vy as int);
}

proof fn lemma_square_order(a: int, b: int)
    requires
        (b >= 0 && 0 <= a <= b) || (b <= 0 && b <= a <= 0),
    ensures
        a * a <= b * b,
{
    assert(a * a <= b * b) by (nonlinear_arith)
        requires
            (b >= 0 && 0 <= a <= b) || (b <= 0 && b <= a <= 0),
    ;
}

} // verus!
