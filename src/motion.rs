use crate::geometry::Velocity;
use vstd::arithmetic::div_mod::{lemma_fundamental_div_mod, lemma_mod_pos_bound};
use vstd::prelude::*;

verus! {

/// Speed of a falling word: 30 units per second, in micro-units per millisecond.
pub const FALL_SPEED: i64 = 30_000;

/// Upward nudge of a word on each correctly typed character: 50 units.
pub const NUDGE: i64 = 50_000_000;

/// Speed of a word that floats away: 50 units per second.
pub const DRIFT_SPEED: i64 = 50_000;

/// Opacity of a fully visible word, in millionths.
pub const OPAQUE: u32 = 1_000_000;

/// Drift components are drawn from `[-COMPONENT_RANGE, COMPONENT_RANGE)`.
pub const COMPONENT_RANGE: i64 = 10_000;

/// Components are scaled by this factor before normalising, for precision.
pub const COMPONENT_SCALE: u64 = 10_000;

/// Lower bound on the speed of every drift vector: 49.99 units per second.
pub const DRIFT_SPEED_MIN: i64 = 49_990;

/// `v` clamped to the range of `i64`.
pub open spec fn clamp_i64(v: int) -> int {
    if v < i64::MIN {
        i64::MIN as int
    } else if v > i64::MAX {
        i64::MAX as int
    } else {
        v
    }
}

/// Moves a coordinate by `d`, saturating at the limits of `i64`.
pub fn shift(v: i64, d: i64) -> (r: i64)
    ensures
        r == clamp_i64(v + d),
{
    let s = v as i128 + d as i128;
    if s < i64::MIN as i128 {
        i64::MIN
    } else if s > i64::MAX as i128 {
        i64::MAX
    } else {
        s as i64
    }
}

/// Opacity after one frame of fading: 97% of `a`, rounded down.
pub open spec fn faded(a: nat) -> nat {
    a * 97 / 100
}

/// Opacity after `k` frames of fading, starting from `a`.
pub open spec fn faded_after(a: nat, k: nat) -> nat
    decreases k,
{
    if k == 0 {
        a
    } else {
        faded(faded_after(a, (k - 1) as nat))
    }
}

/// `97^k`, and `100^k`: the exact fraction `0.97^k` is their quotient.
pub open spec fn pow(b: nat, k: nat) -> nat
    decreases k,
{
    if k == 0 {
        1
    } else {
        b * pow(b, (k - 1) as nat)
    }
}

/// One frame of fading.
pub fn fade(a: u32) -> (r: u32)
    requires
        a <= OPAQUE,
    ensures
        r == faded(a as nat),
        r <= a,
        a > 0 ==> r < a,
{
    ((a as u64) * 97 / 100) as u32
}

/// Whether `c` is an admissible drift component.
pub open spec fn component_ok(c: int) -> bool {
    -COMPONENT_RANGE <= c < COMPONENT_RANGE
}

/// `n` is the rounded-up square root of `s`.
pub open spec fn is_ceil_sqrt(s: int, n: int) -> bool {
    n >= 0 && s <= n * n && (n == 0 || (n - 1) * (n - 1) < s)
}

pub open spec fn abs(c: int) -> int {
    if c < 0 {
        -c
    } else {
        c
    }
}

/// `m` carries the sign of `c`.
pub open spec fn signed(c: int, m: int) -> int {
    if c < 0 {
        -m
    } else {
        m
    }
}

/// The drift vector made from the components `(cx, cy)` once `n` is the
/// rounded-up length of the scaled vector: each component is scaled to
/// `DRIFT_SPEED / n` of its length and rounded towards zero. The zero vector
/// has no direction and drifts straight up.
pub open spec fn drift_with(cx: int, cy: int, n: int) -> Velocity {
    if cx == 0 && cy == 0 {
        Velocity { dx: 0, dy: DRIFT_SPEED as i64 }
    } else {
        Velocity {
            dx: signed(cx, abs(cx) * COMPONENT_SCALE * DRIFT_SPEED / n) as i64,
            dy: signed(cy, abs(cy) * COMPONENT_SCALE * DRIFT_SPEED / n) as i64,
        }
    }
}

/// The squared length of the scaled components.
pub open spec fn scaled_len2(cx: int, cy: int) -> int {
    (abs(cx) * COMPONENT_SCALE) * (abs(cx) * COMPONENT_SCALE) + (abs(cy) * COMPONENT_SCALE) * (
    abs(cy) * COMPONENT_SCALE)
}

/// The drift vector normalised from `(cx, cy)` and scaled to `DRIFT_SPEED`.
pub open spec fn drift_of(cx: int, cy: int) -> Velocity {
    drift_with(cx, cy, choose|n: int| is_ceil_sqrt(scaled_len2(cx, cy), n))
}

/// The speed of a drift vector lies in `[DRIFT_SPEED_MIN, DRIFT_SPEED]`.
pub open spec fn drift_speed_ok(v: Velocity) -> bool {
    &&& DRIFT_SPEED_MIN * DRIFT_SPEED_MIN <= v.dx * v.dx + v.dy * v.dy
    &&& v.dx * v.dx + v.dy * v.dy <= DRIFT_SPEED * DRIFT_SPEED
}

/// The rounded-up square root of `s`.
fn ceil_sqrt(s: u64) -> (n: u64)
    requires
        s <= 0x100_0000_0000_0000,
    ensures
        is_ceil_sqrt(s as int, n as int),
        n <= 0x1000_0000,
{
    if s == 0 {
        return 0;
    }
    let mut lo: u64 = 0;
    let mut hi: u64 = 0x1000_0000;
    assert(s <= hi * hi) by (nonlinear_arith)
        requires
            hi == 0x1000_0000,
            s <= 0x100_0000_0000_0000,
    ;
    while lo + 1 < hi
        invariant
            lo < hi <= 0x1000_0000,
            lo * lo < s,
            s <= hi * hi,
        decreases hi - lo,
    {
        let mid = lo + (hi - lo) / 2;
        assert(mid * mid <= 0x1000_0000 * 0x1000_0000) by (nonlinear_arith)
            requires
                mid <= 0x1000_0000,
        ;
        if mid * mid < s {
            lo = mid;
        } else {
            hi = mid;
        }
    }
    hi
}

/// The rounded-up square root is unique.
proof fn lemma_ceil_sqrt_unique(s: int, n: int, m: int)
    requires
        is_ceil_sqrt(s, n),
        is_ceil_sqrt(s, m),
    ensures
        n == m,
{
    if n < m {
        assert(n * n <= (m - 1) * (m - 1)) by (nonlinear_arith)
            requires
                0 <= n <= m - 1,
        ;
    } else if m < n {
        assert(m * m <= (n - 1) * (n - 1)) by (nonlinear_arith)
            requires
                0 <= m <= n - 1,
        ;
    }
}

/// `q = a * DRIFT_SPEED / n` satisfies `q * n <= a * DRIFT_SPEED < (q + 1) * n`.
proof fn lemma_quotient(a: int, n: int, q: int)
    requires
        a >= 0,
        n > 0,
        q == a * DRIFT_SPEED / n,
    ensures
        0 <= q,
        q * n <= a * DRIFT_SPEED,
        a * DRIFT_SPEED < (q + 1) * n,
{
    let x = a * DRIFT_SPEED;
    lemma_fundamental_div_mod(x, n);
    lemma_mod_pos_bound(x, n);
    assert(q * n == n * q) by (nonlinear_arith);
    assert((q + 1) * n == q * n + n) by (nonlinear_arith);
    assert(q >= 0) by (nonlinear_arith)
        requires
            x == n * q + x % n,
            x >= 0,
            0 <= x % n < n,
            n > 0,
    ;
}

/// `0 <= p <= q` gives `p * p <= q * q`.
proof fn lemma_square_le(p: int, q: int)
    requires
        0 <= p <= q,
    ensures
        p * p <= q * q,
{
    assert(p * p <= q * q) by (nonlinear_arith)
        requires
            0 <= p <= q,
    ;
}

/// Scaling the components `(a, b)` by `DRIFT_SPEED / n`, where `n` is the
/// rounded-up length of `(a, b)` and at least 10000, and rounding each towards
/// zero gives a vector whose length lies in `[DRIFT_SPEED_MIN, DRIFT_SPEED]`.
proof fn lemma_drift_bounds(a: int, b: int, n: int, mx: int, my: int)
    requires
        a >= 0,
        b >= 0,
        a * a + b * b >= 100_000_000,
        is_ceil_sqrt(a * a + b * b, n),
        mx == a * DRIFT_SPEED / n,
        my == b * DRIFT_SPEED / n,
    ensures
        DRIFT_SPEED_MIN * DRIFT_SPEED_MIN <= mx * mx + my * my <= DRIFT_SPEED * DRIFT_SPEED,
{
    let m = DRIFT_SPEED as int;
    let s = a * a + b * b;
    let n2 = n * n;
    assert(n > 0);
    lemma_quotient(a, n, mx);
    lemma_quotient(b, n, my);
    // upper bound
    lemma_square_le(mx * n, a * m);
    lemma_square_le(my * n, b * m);
    assert((mx * n) * (mx * n) == (mx * mx) * n2) by (nonlinear_arith)
        requires
            n2 == n * n,
    ;
    assert((my * n) * (my * n) == (my * my) * n2) by (nonlinear_arith)
        requires
            n2 == n * n,
    ;
    assert((a * m) * (a * m) + (b * m) * (b * m) == s * (m * m)) by (nonlinear_arith)
        requires
            s == a * a + b * b,
    ;
    let sq = mx * mx + my * my;
    assert(sq * n2 <= s * (m * m)) by (nonlinear_arith)
        requires
            (mx * mx) * n2 <= (a * m) * (a * m),
            (my * my) * n2 <= (b * m) * (b * m),
            (a * m) * (a * m) + (b * m) * (b * m) == s * (m * m),
            sq == mx * mx + my * my,
    ;
    assert(s * (m * m) <= n2 * (m * m)) by (nonlinear_arith)
        requires
            s <= n2,
    ;
    assert(sq <= m * m) by (nonlinear_arith)
        requires
            sq * n2 <= n2 * (m * m),
            n2 > 0,
    ;
    // lower bound
    lemma_square_le(a * m, (mx + 1) * n);
    lemma_square_le(b * m, (my + 1) * n);
    let t = (mx + 1) * (mx + 1) + (my + 1) * (my + 1);
    assert(((mx + 1) * n) * ((mx + 1) * n) + ((my + 1) * n) * ((my + 1) * n) == t * n2)
        by (nonlinear_arith)
        requires
            n2 == n * n,
            t == (mx + 1) * (mx + 1) + (my + 1) * (my + 1),
    ;
    assert(s * (m * m) <= t * n2);
    // n is at least 10000, and n * n < s + 2 * n
    assert(n >= 10_000) by (nonlinear_arith)
        requires
            n > 0,
            100_000_000 <= s,
            s <= n * n,
    ;
    assert(n2 < s + 2 * n) by (nonlinear_arith)
        requires
            (n - 1) * (n - 1) < s,
            n2 == n * n,
    ;
    // t * n2 >= s * m^2 > (n2 - 2n) * m^2, so t > m^2 - 2 m^2 / n >= m^2 - m^2 / 5000
    assert(t * n2 > (n2 - 2 * n) * (m * m)) by (nonlinear_arith)
        requires
            s * (m * m) <= t * n2,
            n2 - 2 * n < s,
            m > 0,
    ;
    assert(5000 * t > 4999 * (m * m)) by (nonlinear_arith)
        requires
            t * n2 > (n2 - 2 * n) * (m * m),
            n2 == n * n,
            n >= 10_000,
            m == 50_000,
    ;
    assert(mx <= m) by (nonlinear_arith)
        requires
            mx * mx <= sq,
            sq <= m * m,
            mx >= 0,
            m > 0,
    ;
    assert(my <= m) by (nonlinear_arith)
        requires
            my * my <= sq,
            sq <= m * m,
            my >= 0,
            m > 0,
    ;
    assert(t == sq + 2 * mx + 2 * my + 2) by (nonlinear_arith)
        requires
            t == (mx + 1) * (mx + 1) + (my + 1) * (my + 1),
            sq == mx * mx + my * my,
    ;
}

/// The drift vector normalised from the components `(cx, cy)` and scaled to
/// `DRIFT_SPEED`; the zero vector drifts straight up.
pub fn drift_from(cx: i64, cy: i64) -> (v: Velocity)
    requires
        component_ok(cx as int),
        component_ok(cy as int),
    ensures
        v == drift_of(cx as int, cy as int),
        drift_speed_ok(v),
{
    if cx == 0 && cy == 0 {
        assert(DRIFT_SPEED_MIN * DRIFT_SPEED_MIN <= 0 * 0 + DRIFT_SPEED * DRIFT_SPEED
            <= DRIFT_SPEED * DRIFT_SPEED) by (nonlinear_arith);
        return Velocity { dx: 0, dy: DRIFT_SPEED };
    }
    let ax: u64 = (if cx < 0 { -cx } else { cx }) as u64 * COMPONENT_SCALE;
    let ay: u64 = (if cy < 0 { -cy } else { cy }) as u64 * COMPONENT_SCALE;
    assert(ax * ax + ay * ay <= 2 * 100_000_000 * 100_000_000) by (nonlinear_arith)
        requires
            ax <= 100_000_000,
            ay <= 100_000_000,
    ;
    assert(ax * ax + ay * ay >= 100_000_000) by (nonlinear_arith)
        requires
            ax >= 10_000 || ay >= 10_000,
    ;
    let s = ax * ax + ay * ay;
    let n = ceil_sqrt(s);
    assert(s == scaled_len2(cx as int, cy as int));
    proof {
        let c = choose|c: int| is_ceil_sqrt(scaled_len2(cx as int, cy as int), c);
        lemma_ceil_sqrt_unique(s as int, n as int, c);
        lemma_drift_bounds(ax as int, ay as int, n as int, ax as int * 50_000 / n as int, ay as int * 50_000
            / n as int);
    }
    assert(ax * 50_000 <= 100_000_000 * 50_000) by (nonlinear_arith)
        requires
            ax <= 100_000_000,
    ;
    assert(ay * 50_000 <= 100_000_000 * 50_000) by (nonlinear_arith)
        requires
            ay <= 100_000_000,
    ;
    let mx = (ax * 50_000 / n) as i64;
    let my = (ay * 50_000 / n) as i64;
    let v = Velocity { dx: if cx < 0 { -mx } else { mx }, dy: if cy < 0 { -my } else { my } };
    assert(v.dx * v.dx == mx * mx && v.dy * v.dy == my * my) by (nonlinear_arith)
        requires
            v.dx == mx || v.dx == -mx,
            v.dy == my || v.dy == -my,
    ;
    v
}

/// After `k` frames of fading from `a`, the opacity is within `100/3`
/// millionths below `a * 0.97^k`, and never above it.
pub proof fn lemma_fade_tracks_power(a: nat, k: nat)
    ensures
        faded_after(a, k) * pow(100, k) <= a * pow(97, k),
        3 * a * pow(97, k) <= 3 * faded_after(a, k) * pow(100, k) + 100 * pow(100, k),
    decreases k,
{
    if k > 0 {
        let j = (k - 1) as nat;
        lemma_fade_tracks_power(a, j);
        let f = faded_after(a, j);
        let g = faded_after(a, k);
        let p = pow(100, j);
        let q = pow(97, j);
        assert(g == f * 97 / 100);
        assert(g * 100 <= f * 97 && f * 97 < g * 100 + 100) by {
            lemma_fundamental_div_mod((f * 97) as int, 100);
            lemma_mod_pos_bound((f * 97) as int, 100);
        }
        assert(pow(100, k) == 100 * p);
        assert(pow(97, k) == 97 * q);
        assert(g * (100 * p) <= a * (97 * q)) by (nonlinear_arith)
            requires
                g * 100 <= f * 97,
                f * p <= a * q,
                p >= 0,
        ;
        assert(3 * a * (97 * q) <= 3 * g * (100 * p) + 100 * (100 * p)) by (nonlinear_arith)
            requires
                f * 97 < g * 100 + 100,
                3 * a * q <= 3 * f * p + 100 * p,
                p >= 0,
                q >= 0,
        ;
    }
}

/// Fading loses at least one millionth per frame while anything is left, so
/// the opacity is zero after at most `a` frames.
pub proof fn lemma_fade_reaches_zero(a: nat, k: nat)
    ensures
        k <= a ==> faded_after(a, k) <= a - k,
        k >= a ==> faded_after(a, k) == 0,
    decreases k,
{
    if k > 0 {
        lemma_fade_reaches_zero(a, (k - 1) as nat);
        let f = faded_after(a, (k - 1) as nat);
        assert(f > 0 ==> faded(f) < f);
        assert(faded(f) <= f);
    }
}

} // verus!
