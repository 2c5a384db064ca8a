use vstd::prelude::*;
use vstd::arithmetic::div_mod::*;

verus! {

/// The speed the ball leaves a paddle or a side wall with: 3.85 world units per frame.
pub const BALL_SPEED: i64 = 3850000;

/// How far below `BALL_SPEED` a scaled vector's speed may fall through rounding:
/// a ten-thousandth of a world unit per frame.
pub const SPEED_TOLERANCE: i64 = 100;

/// The largest magnitude of a component that `direction_at_speed` accepts.
pub const MAX_COMPONENT: i64 = 4398046511104;

/// `r` is the integer square root of `q`, rounded down.
pub open spec fn is_floor_sqrt(r: int, q: int) -> bool {
    0 <= r && r * r <= q && q < (r + 1) * (r + 1)
}

pub open spec fn floor_sqrt(q: nat) -> nat
    decreases q,
{
    if q == 0 {
        0
    } else {
        let r = floor_sqrt((q - 1) as nat);
        if (r + 1) * (r + 1) <= q {
            (r + 1) as nat
        } else {
            r
        }
    }
}

pub proof fn lemma_floor_sqrt(q: nat)
    ensures
        is_floor_sqrt(floor_sqrt(q) as int, q as int),
    decreases q,
{
    if q > 0 {
        lemma_floor_sqrt((q - 1) as nat);
        let r = floor_sqrt((q - 1) as nat) as int;
        assert((r + 1) * (r + 1) < (r + 2) * (r + 2)) by (nonlinear_arith)
            requires
                r >= 0,
        ;
    }
}

pub proof fn lemma_floor_sqrt_unique(r: int, q: nat)
    requires
        is_floor_sqrt(r, q as int),
    ensures
        r == floor_sqrt(q),
{
    lemma_floor_sqrt(q);
    let s = floor_sqrt(q) as int;
    if r < s {
        assert((r + 1) * (r + 1) <= s * s) by (nonlinear_arith)
            requires
                0 <= r + 1 <= s,
        ;
    }
    if s < r {
        assert((s + 1) * (s + 1) <= r * r) by (nonlinear_arith)
            requires
                0 <= s + 1 <= r,
        ;
    }
}

/// One component of the vector `(dx, dy)` scaled to `BALL_SPEED`, where `n` is the
/// squared length `dx * dx + dy * dy`: the magnitude is rounded down, the sign kept.
pub open spec fn speed_component(d: int, n: int) -> int {
    let m = floor_sqrt((BALL_SPEED * BALL_SPEED * (d * d) / n) as nat) as int;
    if d < 0 {
        -m
    } else {
        m
    }
}

/// The vector `(dx, dy)` normalised and scaled to `BALL_SPEED`, each component
/// rounded toward zero; the zero vector has no direction and stays zero.
pub open spec fn scaled_direction(dx: int, dy: int) -> (int, int) {
    let n = dx * dx + dy * dy;
    if n == 0 {
        (0, 0)
    } else {
        (speed_component(dx, n), speed_component(dy, n))
    }
}

fn floor_sqrt_to_speed(q: u64) -> (r: u64)
    requires
        q <= BALL_SPEED * BALL_SPEED,
    ensures
        r == floor_sqrt(q as nat),
        r <= BALL_SPEED,
{
    let mut lo: u64 = 0;
    let mut hi: u64 = BALL_SPEED as u64 + 1;
    while lo + 1 < hi
        invariant
            lo < hi <= BALL_SPEED + 1,
            lo * lo <= q,
            q < hi * hi,
        decreases hi - lo,
    {
        let mid: u64 = lo + (hi - lo) / 2;
        assert(mid * mid <= 3850001 * 3850001) by (nonlinear_arith)
            requires
                0 <= mid <= 3850001,
        ;
        if mid * mid <= q {
            lo = mid;
        } else {
            hi = mid;
        }
    }
    proof {
        lemma_floor_sqrt_unique(lo as int, q as nat);
    }
    lo
}

fn speed_component_of(d: i64, n: u128) -> (c: i64)
    requires
        -MAX_COMPONENT <= d <= MAX_COMPONENT,
        0 < n <= 2 * MAX_COMPONENT * MAX_COMPONENT,
        d * d <= n,
    ensures
        c == speed_component(d as int, n as int),
        -BALL_SPEED <= c <= BALL_SPEED,
{
    let a: u128 = if d < 0 {
        (-d) as u128
    } else {
        d as u128
    };
    assert(a * a == d * d) by (nonlinear_arith)
        requires
            a == d || a == -d,
    ;
    assert(a * a <= MAX_COMPONENT * MAX_COMPONENT) by (nonlinear_arith)
        requires
            0 <= a <= MAX_COMPONENT,
    ;
    let s: u128 = BALL_SPEED as u128;
    let aa: u128 = a * a;
    assert(s * s * aa <= 3850000 * 3850000 * (MAX_COMPONENT * MAX_COMPONENT)) by (nonlinear_arith)
        requires
            s == 3850000,
            0 <= aa <= MAX_COMPONENT * MAX_COMPONENT,
    ;
    let num: u128 = s * s * aa;
    let q: u128 = num / n;
    proof {
        let ss = BALL_SPEED * BALL_SPEED;
        assert(num <= n * ss) by (nonlinear_arith)
            requires
                num == ss * aa,
                aa <= n,
                0 <= ss,
        ;
        lemma_multiply_divide_le(num as int, n as int, ss);
    }
    let m: u64 = floor_sqrt_to_speed(q as u64);
    if d < 0 {
        -(m as i64)
    } else {
        m as i64
    }
}

/// The vector `(dx, dy)` normalised and scaled to `BALL_SPEED`; zero for the zero vector.
pub fn direction_at_speed(dx: i64, dy: i64) -> (r: (i64, i64))
    requires
        -MAX_COMPONENT <= dx <= MAX_COMPONENT,
        -MAX_COMPONENT <= dy <= MAX_COMPONENT,
    ensures
        (r.0 as int, r.1 as int) == scaled_direction(dx as int, dy as int),
        -BALL_SPEED <= r.0 <= BALL_SPEED,
        -BALL_SPEED <= r.1 <= BALL_SPEED,
{
    let ax: u128 = if dx < 0 {
        (-dx) as u128
    } else {
        dx as u128
    };
    let ay: u128 = if dy < 0 {
        (-dy) as u128
    } else {
        dy as u128
    };
    proof {
        assert(ax * ax == dx * dx && ay * ay == dy * dy) by (nonlinear_arith)
            requires
                ax == dx || ax == -dx,
                ay == dy || ay == -dy,
        ;
        assert(ax * ax <= MAX_COMPONENT * MAX_COMPONENT && ay * ay <= MAX_COMPONENT
            * MAX_COMPONENT) by (nonlinear_arith)
            requires
                0 <= ax <= MAX_COMPONENT,
                0 <= ay <= MAX_COMPONENT,
        ;
    }
    let n: u128 = ax * ax + ay * ay;
    if n == 0 {
        return (0, 0);
    }
    proof {
        assert(dx * dx >= 0 && dy * dy >= 0) by (nonlinear_arith);
    }
    (speed_component_of(dx, n), speed_component_of(dy, n))
}

proof fn lemma_component_bounds(d: int, n: int)
    requires
        0 < n,
        d * d <= n,
    ensures
        ({
            let num = BALL_SPEED * BALL_SPEED * (d * d);
            let m = floor_sqrt((num / n) as nat) as int;
            &&& m == if d < 0 { -speed_component(d, n) } else { speed_component(d, n) }
            &&& m >= 0
            &&& m * m * n <= num
            &&& num < (m + 1) * (m + 1) * n
            &&& (num >= n ==> m >= 1)
        }),
{
    let num = BALL_SPEED * BALL_SPEED * (d * d);
    assert(d * d >= 0) by (nonlinear_arith);
    let q = num / n;
    lemma_fundamental_div_mod(num, n);
    lemma_remainder(num, n);
    assert(q >= 0) by {
        lemma_div_pos_is_pos(num, n);
    }
    let m = floor_sqrt(q as nat) as int;
    lemma_floor_sqrt(q as nat);
    assert(m * m * n <= num) by (nonlinear_arith)
        requires
            m * m <= q,
            n * q + num % n == num,
            0 <= num % n,
            0 < n,
    ;
    assert(num < (m + 1) * (m + 1) * n) by (nonlinear_arith)
        requires
            q + 1 <= (m + 1) * (m + 1),
            n * q + num % n == num,
            num % n < n,
            0 < n,
    ;
    if num >= n {
        lemma_div_is_ordered(n, num, n);
        lemma_div_by_self(n);
        assert(m >= 1) by (nonlinear_arith)
            requires
                q >= 1,
                q < (m + 1) * (m + 1),
                m >= 0,
        ;
    }
}

/// A non-zero vector scaled by `direction_at_speed` has speed `BALL_SPEED` up to the
/// rounding of each component: never above it, above it once each component is
/// moved one unit away from zero, and at least `BALL_SPEED - SPEED_TOLERANCE`. It
/// points the same way as the vector it came from (a positive dot product with it).
pub proof fn lemma_direction_speed(dx: int, dy: int)
    requires
        dx != 0 || dy != 0,
    ensures
        ({
            let v = scaled_direction(dx, dy);
            let ax = if v.0 < 0 { -v.0 } else { v.0 };
            let ay = if v.1 < 0 { -v.1 } else { v.1 };
            &&& v.0 * v.0 + v.1 * v.1 <= BALL_SPEED * BALL_SPEED
            &&& (ax + 1) * (ax + 1) + (ay + 1) * (ay + 1) > BALL_SPEED * BALL_SPEED
            &&& v.0 * v.0 + v.1 * v.1 >= (BALL_SPEED - SPEED_TOLERANCE) * (BALL_SPEED
                - SPEED_TOLERANCE)
            &&& v.0 * dx + v.1 * dy > 0
        }),
{
    let n = dx * dx + dy * dy;
    assert(dx * dx >= 0 && dy * dy >= 0) by (nonlinear_arith);
    assert(n > 0) by (nonlinear_arith)
        requires
            n == dx * dx + dy * dy,
            dx != 0 || dy != 0,
    ;
    let v = scaled_direction(dx, dy);
    lemma_component_bounds(dx, n);
    lemma_component_bounds(dy, n);
    let ss = BALL_SPEED * BALL_SPEED;
    let mx = if dx < 0 { -v.0 } else { v.0 };
    let my = if dy < 0 { -v.1 } else { v.1 };
    assert(v.0 * v.0 == mx * mx && v.1 * v.1 == my * my) by (nonlinear_arith)
        requires
            mx == v.0 || mx == -v.0,
            my == v.1 || my == -v.1,
    ;
    assert(mx * mx + my * my <= ss) by (nonlinear_arith)
        requires
            mx * mx * n <= ss * (dx * dx),
            my * my * n <= ss * (dy * dy),
            n == dx * dx + dy * dy,
            n > 0,
    ;
    assert((mx + 1) * (mx + 1) + (my + 1) * (my + 1) > ss) by (nonlinear_arith)
        requires
            ss * (dx * dx) < (mx + 1) * (mx + 1) * n,
            ss * (dy * dy) < (my + 1) * (my + 1) * n,
            n == dx * dx + dy * dy,
            n > 0,
    ;
    assert(mx * mx + my * my >= (BALL_SPEED - SPEED_TOLERANCE) * (BALL_SPEED - SPEED_TOLERANCE))
        by {
        assert(mx <= BALL_SPEED && my <= BALL_SPEED) by (nonlinear_arith)
            requires
                mx * mx + my * my <= ss,
                mx >= 0,
                my >= 0,
                ss == 3850000 * 3850000,
        ;
        assert(mx * mx + my * my >= ss - 4 * 3850000 - 1) by (nonlinear_arith)
            requires
                (mx + 1) * (mx + 1) + (my + 1) * (my + 1) > ss,
                mx <= 3850000,
                my <= 3850000,
        ;
    }
    assert(v.0 * dx == mx * (if dx < 0 { -dx } else { dx })) by (nonlinear_arith)
        requires
            mx == (if dx < 0 { -v.0 } else { v.0 }),
    ;
    assert(v.1 * dy == my * (if dy < 0 { -dy } else { dy })) by (nonlinear_arith)
        requires
            my == (if dy < 0 { -v.1 } else { v.1 }),
    ;
    assert(mx * (if dx < 0 { -dx } else { dx }) >= 0) by (nonlinear_arith)
        requires
            mx >= 0,
    ;
    assert(my * (if dy < 0 { -dy } else { dy }) >= 0) by (nonlinear_arith)
        requires
            my >= 0,
    ;
    if dx * dx >= dy * dy {
        assert(ss * (dx * dx) >= n) by (nonlinear_arith)
            requires
                dx * dx >= dy * dy,
                n == dx * dx + dy * dy,
                ss == 3850000 * 3850000,
        ;
        assert(dx != 0) by (nonlinear_arith)
            requires
                dx * dx >= dy * dy,
                dx != 0 || dy != 0,
        ;
        assert(mx * (if dx < 0 { -dx } else { dx }) > 0) by (nonlinear_arith)
            requires
                mx >= 1,
                dx != 0,
        ;
    } else {
        assert(ss * (dy * dy) >= n) by (nonlinear_arith)
            requires
                dy * dy > dx * dx,
                n == dx * dx + dy * dy,
                ss == 3850000 * 3850000,
        ;
        assert(dy != 0) by (nonlinear_arith)
            requires
                dy * dy > dx * dx,
        ;
        assert(my * (if dy < 0 { -dy } else { dy }) > 0) by (nonlinear_arith)
            requires
                my >= 1,
                dy != 0,
        ;
    }
}

} // verus!
