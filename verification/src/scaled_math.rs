//! Scaled (fixed-point) integer arithmetic of the typesetting engine.
//!
//! All quantities are 32-bit integers. A `scaled` value counts units of
//! 2^-16; a `fraction` counts units of 2^-28. The routines never raise an
//! error themselves: a result that does not fit is reported through the
//! `arith_error` flag of an [`Arith`] record, and divisions leave their
//! remainder in the same record.

use vstd::prelude::*;
use vstd::arithmetic::div_mod::lemma_fundamental_div_mod_converse;
use vstd::arithmetic::div_mod::lemma_fundamental_div_mod;
use vstd::arithmetic::div_mod::lemma_div_denominator;
use vstd::arithmetic::power2::pow2;
use vstd::arithmetic::power2::lemma_pow2_unfold;
use vstd::arithmetic::power2::lemma_pow2_strictly_increases;
use vstd::arithmetic::power2::lemma2_to64;

verus! {

/// The side results of the arithmetic routines.
#[derive(Clone, Copy, Debug, PartialEq, Eq, Structural)]
pub struct Arith {
    /// Set when a result could not be represented; never cleared by the routines.
    pub arith_error: bool,
    /// The remainder left by the most recent division.
    pub remainder: i32,
}

/// The absolute value of an integer.
pub open spec fn abs_int(x: int) -> int {
    if x < 0 {
        -x
    } else {
        x
    }
}

/// `v` with its sign changed when `negative` holds.
pub open spec fn neg_if(negative: bool, v: int) -> int {
    if negative {
        -v
    } else {
        v
    }
}

/// The quotient of `a` by a positive `b`, rounded towards zero.
pub open spec fn trunc_div(a: int, b: int) -> int
    recommends
        b > 0,
{
    if a >= 0 {
        a / b
    } else {
        -((-a) / b)
    }
}

/// Floor division is characterised by its two bounds.
pub proof fn lemma_div_from_bounds(a: int, d: int, q: int)
    requires
        d > 0,
        q * d <= a < q * d + d,
    ensures
        a / d == q,
        a % d == a - q * d,
{
    assert(a == q * d + (a - q * d));
    lemma_fundamental_div_mod_converse(a, d, q, a - q * d);
}

/// Mathematical rounding of `x / 2` with ties going up.
pub open spec fn half_spec(x: int) -> int {
    (x + 1) / 2
}

/// Half of `x`, rounded to the nearest integer with ties going up.
pub fn half(x: i32) -> (r: i32)
    requires
        x < i32::MAX,
    ensures
        r == half_spec(x as int),
{
    if x % 2 != 0 {
        (x + 1) / 2
    } else {
        x / 2
    }
}

/// Whether `n * x + y` is accepted by [`mult_and_add`] for a positive `n`:
/// the two quotient tests that the routine makes, with quotients rounded
/// towards zero.
pub open spec fn mult_and_add_fits(n: int, x: int, y: int, max_answer: int) -> bool
    recommends
        n > 0,
{
    x <= trunc_div(max_answer - y, n) && -x <= trunc_div(max_answer + y, n)
}

/// When `|y| <= max_answer`, the quotient tests accept exactly the products
/// with `|n * x + y| <= max_answer`.
pub proof fn lemma_mult_and_add_fits(n: int, x: int, y: int, max_answer: int)
    requires
        n > 0,
        -max_answer <= y <= max_answer,
    ensures
        mult_and_add_fits(n, x, y, max_answer) <==> -max_answer <= n * x + y <= max_answer,
{
    let a = max_answer - y;
    let b = max_answer + y;
    lemma_fundamental_div_mod(a, n);
    lemma_fundamental_div_mod(b, n);
    let qa = a / n;
    let qb = b / n;
    assert(0 <= a % n < n);
    assert(0 <= b % n < n);
    assert(x <= qa <==> n * x <= a) by (nonlinear_arith)
        requires
            n > 0,
            a == n * qa + a % n,
            0 <= a % n < n,
    ;
    assert(-x <= qb <==> -(n * x) <= b) by (nonlinear_arith)
        requires
            n > 0,
            b == n * qb + b % n,
            0 <= b % n < n,
    ;
}

/// `n * x + y`, or 0 with `arith_error` set when the quotient tests of
/// [`mult_and_add_fits`] reject the product.
pub fn mult_and_add(n: i32, x: i32, y: i32, max_answer: i32, arith: &mut Arith) -> (r: i32)
    requires
        n > i32::MIN,
        x > i32::MIN,
        i32::MIN <= max_answer - y <= i32::MAX,
        i32::MIN <= max_answer + y <= i32::MAX,
    ensures
        n == 0 ==> r == y && *final(arith) == *old(arith),
        n != 0 && mult_and_add_fits(abs_int(n as int), neg_if(n < 0, x as int), y as int, max_answer as int)
            ==> r == n * x + y && *final(arith) == *old(arith),
        n != 0 && !mult_and_add_fits(abs_int(n as int), neg_if(n < 0, x as int), y as int, max_answer as int)
            ==> r == 0 && final(arith).arith_error && final(arith).remainder == old(arith).remainder,
    decreases
        (if n < 0 { 1int } else { 0int }),
{
    if n < 0 {
        assert((-n) * (-x) == n * x) by (nonlinear_arith);
        mult_and_add(-n, -x, y, max_answer, arith)
    } else if n == 0 {
        y
    } else if x <= (max_answer - y) / n && -x <= (max_answer + y) / n {
        proof {
            lemma_product_bounded(n as int, x as int, (max_answer - y) as int, (max_answer + y) as int);
        }
        n * x + y
    } else {
        arith.arith_error = true;
        0
    }
}

/// A product accepted by the two quotient tests lies between `-max(0, b)`
/// and `max(0, a)`, and within `a` and `b` where those are not negative.
proof fn lemma_product_bounded(n: int, x: int, a: int, b: int)
    requires
        n > 0,
        x <= trunc_div(a, n),
        -x <= trunc_div(b, n),
    ensures
        a >= 0 ==> n * x <= a,
        a < 0 ==> n * x <= 0,
        b >= 0 ==> -(n * x) <= b,
        b < 0 ==> -(n * x) <= 0,
{
    if a >= 0 {
        lemma_fundamental_div_mod(a, n);
        let q = a / n;
        assert(n * x <= a) by (nonlinear_arith)
            requires
                n > 0,
                x <= q,
                a == n * q + a % n,
                0 <= a % n,
        ;
    } else {
        lemma_fundamental_div_mod(-a, n);
        let q = (-a) / n;
        assert(q >= 0) by (nonlinear_arith)
            requires
                n > 0,
                -a == n * q + (-a) % n,
                0 <= (-a) % n < n,
                -a > 0,
        ;
        assert(n * x <= 0) by (nonlinear_arith)
            requires
                n > 0,
                x <= -q,
                q >= 0,
        ;
    }
    if b >= 0 {
        lemma_fundamental_div_mod(b, n);
        let q = b / n;
        assert(-(n * x) <= b) by (nonlinear_arith)
            requires
                n > 0,
                -x <= q,
                b == n * q + b % n,
                0 <= b % n,
        ;
    } else {
        lemma_fundamental_div_mod(-b, n);
        let q = (-b) / n;
        assert(q >= 0) by (nonlinear_arith)
            requires
                n > 0,
                -b == n * q + (-b) % n,
                0 <= (-b) % n < n,
                -b > 0,
        ;
        assert(-(n * x) <= 0) by (nonlinear_arith)
            requires
                n > 0,
                -x <= -q,
                q >= 0,
        ;
    }
}

/// The quotient of `x` by `n` rounded towards zero; the remainder, which has
/// the sign of `x`, is left in `arith`. Division by zero gives 0, sets
/// `arith_error` and leaves `x` as the remainder.
pub fn x_over_n(x: i32, n: i32, arith: &mut Arith) -> (r: i32)
    requires
        x > i32::MIN,
        n > i32::MIN,
    ensures
        n == 0 ==> r == 0 && final(arith).arith_error && final(arith).remainder == x,
        n != 0 ==> final(arith).arith_error == old(arith).arith_error,
        n != 0 ==> r == neg_if((x < 0) != (n < 0), abs_int(x as int) / abs_int(n as int)),
        n != 0 ==> final(arith).remainder == neg_if(x < 0, abs_int(x as int) % abs_int(n as int)),
        n != 0 ==> x == n * r + final(arith).remainder,
{
    if n == 0 {
        arith.arith_error = true;
        arith.remainder = x;
        0
    } else {
        let negative = n < 0;
        let xx: i32 = if negative { -x } else { x };
        let nn: i32 = if negative { -n } else { n };
        let result: i32;
        if xx >= 0 {
            result = xx / nn;
            arith.remainder = xx % nn;
        } else {
            result = -(-xx / nn);
            arith.remainder = -(-xx % nn);
        }
        if negative {
            arith.remainder = -arith.remainder;
        }
        proof {
            let ax = abs_int(x as int);
            let an = abs_int(n as int);
            lemma_fundamental_div_mod(ax, an);
            let q = ax / an;
            let m = ax % an;
            let rem = arith.remainder;
            assert(result == neg_if((x < 0) != (n < 0), q));
            assert(rem == neg_if(x < 0, m));
            assert(x == n * result + rem) by (nonlinear_arith)
                requires
                    ax == an * q + m,
                    ax == (if x < 0 { -x } else { x as int }),
                    an == (if n < 0 { -n } else { n as int }),
                    result == (if (x < 0) != (n < 0) { -q } else { q }),
                    rem == (if x < 0 { -m } else { m }),
            ;
        }
        result
    }
}

/// How the routines that scale by `n / d` split the product `x * n`, for
/// `x >= 0`, `0 <= n` and `0 < d`: with `u = x * n / 32768` and
/// `v = (u % d) * 32768 + x * n % 32768`, the quotient `x * n / d` is
/// `32768 * (u / d) + v / d` and the remainder is `v % d`.
proof fn lemma_scaled_split(x: int, n: int, d: int)
    requires
        x >= 0,
        n >= 0,
        d > 0,
    ensures
        ({
            let t = (x % 32768) * n;
            let u = (x / 32768) * n + t / 32768;
            let v = (u % d) * 32768 + t % 32768;
            &&& u == (x * n) / 32768
            &&& 0 <= v < d * 32768
            &&& (x * n) / d == 32768 * (u / d) + v / d
            &&& (x * n) % d == v % d
            &&& 0 <= v / d < 32768
            &&& (u / d >= 32768 <==> (x * n) / d >= 0x4000_0000)
            &&& u / d >= 0
        }),
{
    let t = (x % 32768) * n;
    let u = (x / 32768) * n + t / 32768;
    let v = (u % d) * 32768 + t % 32768;
    lemma_fundamental_div_mod(x, 32768);
    lemma_fundamental_div_mod(t, 32768);
    lemma_fundamental_div_mod(u, d);
    lemma_fundamental_div_mod(v, d);
    let xh = x / 32768;
    let xl = x % 32768;
    assert(x * n == u * 32768 + t % 32768) by (nonlinear_arith)
        requires
            x == 32768 * xh + xl,
            t == xl * n,
            t == 32768 * (t / 32768) + t % 32768,
            u == xh * n + t / 32768,
    ;
    assert(t >= 0) by (nonlinear_arith)
        requires
            xl >= 0,
            n >= 0,
            t == xl * n,
    ;
    assert(xh >= 0);
    assert(u >= 0) by (nonlinear_arith)
        requires
            xh >= 0,
            n >= 0,
            t / 32768 >= 0,
            u == xh * n + t / 32768,
    ;
    lemma_div_from_bounds(x * n, 32768, u);
    let uq = u / d;
    let ur = u % d;
    assert(0 <= ur < d);
    assert(0 <= v < d * 32768) by (nonlinear_arith)
        requires
            0 <= ur < d,
            0 <= t % 32768 < 32768,
            v == ur * 32768 + t % 32768,
    ;
    let vq = v / d;
    let vr = v % d;
    assert(0 <= vq < 32768) by (nonlinear_arith)
        requires
            0 <= v < d * 32768,
            v == d * vq + vr,
            0 <= vr < d,
            d > 0,
    ;
    assert(uq >= 0) by (nonlinear_arith)
        requires
            u >= 0,
            u == d * uq + ur,
            0 <= ur < d,
            d > 0,
    ;
    let q = 32768 * uq + vq;
    assert(x * n == q * d + vr) by (nonlinear_arith)
        requires
            x * n == u * 32768 + t % 32768,
            u == d * uq + ur,
            v == ur * 32768 + t % 32768,
            v == d * vq + vr,
            q == 32768 * uq + vq,
    ;
    lemma_div_from_bounds(x * n, d, q);
}

/// `x * n / d` with the quotient of the absolute values rounded down and
/// the sign of `x` restored; the remainder, with the sign of `x`, is left
/// in `arith`. A quotient of 2^30 or more sets `arith_error`, and the value
/// returned is then `|x| * n / 32768` with the sign of `x`.
pub fn xn_over_d(x: i32, n: i32, d: i32, arith: &mut Arith) -> (r: i32)
    requires
        x > i32::MIN,
        0 <= n <= 0x10000,
        0 < d <= 0x10000,
        abs_int(x as int) * n < 0x4000_0000_0000,
    ensures
        final(arith).remainder == neg_if(x < 0, (abs_int(x as int) * n) % (d as int)),
        (abs_int(x as int) * n) / (d as int) < 0x4000_0000 ==> {
            &&& r == neg_if(x < 0, (abs_int(x as int) * n) / (d as int))
            &&& final(arith).arith_error == old(arith).arith_error
        },
        (abs_int(x as int) * n) / (d as int) >= 0x4000_0000 ==> {
            &&& r == neg_if(x < 0, (abs_int(x as int) * n) / 32768)
            &&& final(arith).arith_error
        },
{
    let positive = x >= 0;
    let x: i32 = if positive { x } else { -x };
    proof {
        lemma_scaled_split(x as int, n as int, d as int);
        lemma_scaled_bounds(x as int, n as int, d as int);
    }
    let t: i32 = x % 32768 * n;
    let mut u: i32 = (x / 32768) * n + (t / 32768);
    let v: i32 = (u % d) * 32768 + (t % 32768);
    if u / d >= 32768 {
        arith.arith_error = true;
    } else {
        u = 32768 * (u / d) + (v / d);
    }
    if positive {
        arith.remainder = v % d;
        u
    } else {
        arith.remainder = -(v % d);
        -u
    }
}

/// The intermediate values of the scaling routines fit in 32 bits.
proof fn lemma_scaled_bounds(x: int, n: int, d: int)
    requires
        0 <= x <= i32::MAX,
        0 <= n <= 0x10000,
        0 < d <= 0x10000,
        x * n < 0x4000_0000_0000,
    ensures
        ({
            let t = (x % 32768) * n;
            let u = (x / 32768) * n + t / 32768;
            let v = (u % d) * 32768 + t % 32768;
            &&& 0 <= t <= 32767 * 0x10000
            &&& 0 <= (x / 32768) * n <= i32::MAX
            &&& 0 <= u <= i32::MAX
            &&& 0 <= (u % d) * 32768 <= i32::MAX
            &&& 0 <= v <= i32::MAX
            &&& (u / d < 32768 ==> 0 <= 32768 * (u / d) + v / d < 0x4000_0000)
        }),
{
    let t = (x % 32768) * n;
    let u = (x / 32768) * n + t / 32768;
    let v = (u % d) * 32768 + t % 32768;
    lemma_scaled_split(x, n, d);
    let xl = x % 32768;
    let xh = x / 32768;
    assert(0 <= t <= 32767 * 0x10000) by (nonlinear_arith)
        requires
            0 <= xl <= 32767,
            0 <= n <= 0x10000,
            t == xl * n,
    ;
    lemma_fundamental_div_mod(x * n, 32768);
    assert(u <= i32::MAX);
    assert(0 <= xh * n) by (nonlinear_arith)
        requires
            0 <= xh,
            0 <= n,
    ;
    assert(t / 32768 >= 0);
    let ur = u % d;
    assert(0 <= ur * 32768 <= i32::MAX) by (nonlinear_arith)
        requires
            0 <= ur < d,
            d <= 0x10000,
    ;
    let uq = u / d;
    assert(uq < 32768 ==> 0 <= 32768 * uq + v / d < 0x4000_0000) by (nonlinear_arith)
        requires
            uq >= 0,
            0 <= v / d < 32768,
    ;
}

/// `x * n / d` rounded to the nearest integer, ties away from zero: the
/// quotient of the absolute values is rounded, then the sign of `x` is
/// restored. A quotient of 2^30 or more sets `arith_error`, and the value
/// rounded is then `|x| * n / 32768`.
pub fn round_xn_over_d(x: i32, n: i32, d: i32, arith: &mut Arith) -> (r: i32)
    requires
        x > i32::MIN,
        0 <= n <= 0x10000,
        0 < d <= 0x10000,
        abs_int(x as int) * n < 0x4000_0000_0000 - 0x8000,
    ensures
        final(arith).remainder == old(arith).remainder,
        (abs_int(x as int) * n) / (d as int) < 0x4000_0000 ==> {
            &&& r == neg_if(x < 0, (2 * (abs_int(x as int) * n) + d) / (2 * d))
            &&& final(arith).arith_error == old(arith).arith_error
        },
        (abs_int(x as int) * n) / (d as int) >= 0x4000_0000 ==> {
            &&& r == neg_if(
                x < 0,
                (abs_int(x as int) * n) / 32768 + if 2 * ((abs_int(x as int) * n) % (d as int))
                    >= d {
                    1int
                } else {
                    0int
                },
            )
            &&& final(arith).arith_error
        },
{
    let positive = x >= 0;
    let x: i32 = if positive { x } else { -x };
    proof {
        lemma_scaled_split(x as int, n as int, d as int);
        lemma_scaled_bounds(x as int, n as int, d as int);
        lemma_round_quotient((x * n) as int, d as int);
        lemma_fundamental_div_mod(x * n, 32768);
    }
    let t: i32 = x % 32768 * n;
    let mut u: i32 = (x / 32768) * n + (t / 32768);
    let mut v: i32 = (u % d) * 32768 + (t % 32768);
    if u / d >= 32768 {
        arith.arith_error = true;
    } else {
        u = 32768 * (u / d) + (v / d);
    }
    v = v % d;
    if 2 * v >= d {
        u += 1;
    }
    if positive {
        u
    } else {
        -u
    }
}

/// Rounding a quotient to the nearest integer adds one to the floor exactly
/// when twice the remainder reaches the divisor.
proof fn lemma_round_quotient(a: int, d: int)
    requires
        a >= 0,
        d > 0,
    ensures
        (2 * a + d) / (2 * d) == a / d + if 2 * (a % d) >= d {
            1int
        } else {
            0int
        },
{
    lemma_fundamental_div_mod(a, d);
    let q = a / d;
    let m = a % d;
    if 2 * m >= d {
        assert((q + 1) * (2 * d) <= 2 * a + d < (q + 1) * (2 * d) + 2 * d) by (nonlinear_arith)
            requires
                a == d * q + m,
                0 <= m < d,
                2 * m >= d,
        ;
        lemma_div_from_bounds(2 * a + d, 2 * d, q + 1);
    } else {
        assert(q * (2 * d) <= 2 * a + d < q * (2 * d) + 2 * d) by (nonlinear_arith)
            requires
                a == d * q + m,
                0 <= m < d,
                2 * m < d,
        ;
        lemma_div_from_bounds(2 * a + d, 2 * d, q);
    }
}

/// The largest value that the routines return.
pub const EL_GORDO: i32 = 0x7FFF_FFFF;

/// One in the `fraction` scale, 2^28.
pub const FRACTION_ONE: i32 = 0x1000_0000;

/// Adding a multiple of the divisor adds to the quotient.
proof fn lemma_div_add_multiple(x: int, m: int, d: int)
    requires
        d > 0,
    ensures
        (x + m * d) / d == x / d + m,
        (x + m * d) % d == x % d,
{
    lemma_fundamental_div_mod(x, d);
    let q = x / d;
    let r = x % d;
    assert((q + m) * d <= x + m * d < (q + m) * d + d) by (nonlinear_arith)
        requires
            x == d * q + r,
            0 <= r < d,
    ;
    lemma_div_from_bounds(x + m * d, d, q + m);
    assert((x + m * d) - (q + m) * d == r) by (nonlinear_arith)
        requires
            x == d * q + r,
    ;
}

/// Powers of two do not decrease with the exponent.
proof fn lemma_pow2_monotone(a: nat, b: nat)
    requires
        a <= b,
    ensures
        pow2(a) <= pow2(b),
{
    if a < b {
        lemma_pow2_strictly_increases(a, b);
    }
}

/// The magnitude of `p / q` as a `fraction`: `2^28 * p / q` rounded to the
/// nearest integer, ties upwards.
pub open spec fn make_frac_magnitude(p: int, q: int) -> int
    recommends
        p >= 0,
        q > 0,
{
    (2 * (0x1000_0000 * p) + q) / (2 * q)
}

/// A rounded quotient of less than eight fits in 31 bits.
proof fn lemma_make_frac_bound(p: int, q: int)
    requires
        0 <= p <= i32::MAX,
        0 < q <= i32::MAX,
        p / q < 8,
    ensures
        0 <= make_frac_magnitude(p, q) <= i32::MAX,
{
    let a = 2 * (0x1000_0000 * p) + q;
    let r = a / (2 * q);
    lemma_fundamental_div_mod(p, q);
    lemma_fundamental_div_mod(a, 2 * q);
    let pq = p / q;
    assert(p < 8 * q) by (nonlinear_arith)
        requires
            p == q * pq + p % q,
            p % q < q,
            pq < 8,
            q > 0,
    ;
    assert(a < 0x1_0000_0000 * q) by {
        if q < 0x2000_0000 {
            assert(0x2000_0000 * p <= 0x2000_0000 * (8 * q - 1)) by (nonlinear_arith)
                requires
                    p <= 8 * q - 1,
            ;
        } else {
            assert(0x2000_0000 * p < 0x8000_0000 * q) by (nonlinear_arith)
                requires
                    p < 0x8000_0000,
                    q >= 0x2000_0000,
            ;
        }
    }
    let m = a % (2 * q);
    assert(r < 0x8000_0000) by (nonlinear_arith)
        requires
            a == (2 * q) * r + m,
            0 <= m,
            a < 0x1_0000_0000 * q,
            q > 0,
    ;
    assert(r >= 0) by (nonlinear_arith)
        requires
            a == (2 * q) * r + m,
            m < 2 * q,
            a >= 0,
            q > 0,
    ;
}

/// The quotient `p / q` as a `fraction`, that is `2^28 * p / q` rounded to
/// the nearest integer with ties away from zero. A quotient of magnitude
/// eight or more sets `arith_error` and gives the largest value with the
/// sign of the quotient.
pub fn make_frac(p: i32, q: i32, arith: &mut Arith) -> (r: i32)
    requires
        p > i32::MIN,
        q > i32::MIN,
        q != 0,
    ensures
        r == make_frac_spec(p as int, q as int),
        -EL_GORDO <= r <= EL_GORDO,
        final(arith).remainder == old(arith).remainder,
        final(arith).arith_error == (old(arith).arith_error || abs_int(p as int) / abs_int(
            q as int,
        ) >= 8),
{
    let mut negative = p < 0;
    let ap: i32 = if p >= 0 { p } else { -p };
    let mut aq: i32 = q;
    if q <= 0 {
        aq = -q;
        negative = !negative;
    }
    let n0: i32 = ap / aq;
    let mut p: i32 = ap % aq;
    let ghost r0: int = p as int;
    if n0 >= 8 {
        arith.arith_error = true;
        if negative {
            -EL_GORDO
        } else {
            EL_GORDO
        }
    } else {
        let n: i32 = (n0 - 1) * FRACTION_ONE;
        let mut f: i32 = 1;
        let ghost mut k: nat = 0;
        proof {
            lemma2_to64();
            lemma_make_frac_bound(ap as int, aq as int);
            lemma_fundamental_div_mod(ap as int, aq as int);
            assert(f * aq + p == pow2(k) * (aq + r0)) by (nonlinear_arith)
                requires
                    f == 1,
                    pow2(k) == 1,
                    p == r0,
            ;
        }
        loop
            invariant_except_break
                f < 0x1000_0000,
                k <= 27,
            invariant
                0 <= p < aq,
                1 <= f,
                k <= 28,
                pow2(k) <= f < 2 * pow2(k),
                f * aq + p == pow2(k) * (aq + r0),
            ensures
                f >= 0x1000_0000,
                k == 28,
            decreases 28 - k,
        {
            let ghost f_old = f as int;
            let ghost p_old = p as int;
            let be_careful: i32 = p - aq;
            p = be_careful + p;
            if p >= 0 {
                f = 2 * f + 1;
            } else {
                f = 2 * f;
                p = p + aq;
            }
            proof {
                lemma2_to64();
                k = k + 1;
                lemma_pow2_unfold(k);
                let s_old = pow2((k - 1) as nat) as int;
                assert(f * aq + p == (2 * s_old) * (aq + r0)) by (nonlinear_arith)
                    requires
                        f_old * aq + p_old == s_old * (aq + r0),
                        (f == 2 * f_old + 1 && p == 2 * p_old - aq) || (f == 2 * f_old && p == 2
                            * p_old),
                ;
                if f >= 0x1000_0000 {
                    if k <= 27 {
                        lemma_pow2_monotone(k, 27);
                    }
                } else {
                    if k == 28 {
                    }
                }
            }
            if f >= 0x1000_0000 {
                break ;
            }
        }
        proof {
            lemma2_to64();
            // The loop leaves 2^28 * (1 + r0 / q) split into quotient f and remainder p.
            let a = 0x1000_0000 * ap;
            assert(a == (f + n) * aq + p) by (nonlinear_arith)
                requires
                    a == 0x1000_0000 * ap,
                    ap == aq * n0 + r0,
                    f * aq + p == 0x1000_0000 * (aq + r0),
                    n == (n0 - 1) * 0x1000_0000,
            ;
            lemma_div_from_bounds(a, aq as int, (f + n) as int);
            lemma_round_quotient(a, aq as int);
        }
        let be_careful: i32 = p - aq;
        if be_careful + p >= 0 {
            f += 1;
        }
        if negative {
            -(f + n)
        } else {
            f + n
        }
    }
}

/// The magnitude of the product of `q` and the `fraction` `f`:
/// `q * f / 2^28` rounded to the nearest integer, ties upwards.
pub open spec fn take_frac_magnitude(q: int, f: int) -> int
    recommends
        q >= 0,
        f >= 0,
{
    (q * f + 0x0800_0000) / 0x1000_0000
}

/// One halving step of the multiplication loop: with `s` a scale already
/// divided out of `f0`, the next bit of `f0` decides whether `q` enters the
/// running value before it is halved.
proof fn lemma_take_frac_step(f0: int, q: int, s: int)
    requires
        f0 >= 0,
        q >= 0,
        s > 0,
    ensures
        ({
            let b = (f0 / s) % 2;
            let a = 0x0800_0000 + (f0 % s) * q;
            &&& (f0 / s) / 2 == f0 / (2 * s)
            &&& (a / s + b * q) / 2 == (0x0800_0000 + (f0 % (2 * s)) * q) / (2 * s)
            &&& a / s >= 0
        }),
{
    let b = (f0 / s) % 2;
    let h = (f0 / s) / 2;
    let lo = f0 % s;
    let a = 0x0800_0000 + lo * q;
    lemma_div_denominator(f0, s, 2);
    assert(s * 2 == 2 * s);
    lemma_fundamental_div_mod(f0, s);
    lemma_fundamental_div_mod(f0 / s, 2);
    assert(f0 == h * (2 * s) + (b * s + lo)) by (nonlinear_arith)
        requires
            f0 == s * (f0 / s) + lo,
            f0 / s == 2 * h + b,
    ;
    assert(0 <= b * s + lo < 2 * s) by (nonlinear_arith)
        requires
            0 <= b <= 1,
            0 <= lo < s,
    ;
    lemma_div_from_bounds(f0, 2 * s, h);
    assert(f0 % (2 * s) == b * s + lo);
    let a2 = 0x0800_0000 + (b * s + lo) * q;
    assert(a2 == a + (b * q) * s) by (nonlinear_arith)
        requires
            a2 == 0x0800_0000 + (b * s + lo) * q,
            a == 0x0800_0000 + lo * q,
    ;
    lemma_div_add_multiple(a, b * q, s);
    assert(a2 >= 0) by (nonlinear_arith)
        requires
            a2 == 0x0800_0000 + (b * s + lo) * q,
            b >= 0,
            s > 0,
            lo >= 0,
            q >= 0,
    ;
    lemma_div_denominator(a2, s, 2);
    assert(a >= 0) by (nonlinear_arith)
        requires
            a == 0x0800_0000 + lo * q,
            lo >= 0,
            q >= 0,
    ;
    lemma_fundamental_div_mod(a, s);
    assert(a / s >= 0) by (nonlinear_arith)
        requires
            a == s * (a / s) + a % s,
            a % s < s,
            a >= 0,
            s > 0,
    ;
}

/// The rounded product never exceeds the larger of `q` and 2^27.
proof fn lemma_take_frac_partial_bound(lo: int, q: int, s: int)
    requires
        0 <= lo < s,
        q >= 0,
        s > 0,
        s <= 0x1000_0000,
    ensures
        0 <= (0x0800_0000 + lo * q) / s,
        s == 0x1000_0000 ==> (0x0800_0000 + lo * q) / s <= q,
{
    let a = 0x0800_0000 + lo * q;
    lemma_fundamental_div_mod(a, s);
    let r = a / s;
    let m = a % s;
    assert(lo * q >= 0) by (nonlinear_arith)
        requires
            lo >= 0,
            q >= 0,
    ;
    assert(r >= 0) by (nonlinear_arith)
        requires
            a == s * r + m,
            m < s,
            a >= 0,
            s > 0,
    ;
    if s == 0x1000_0000 {
        if q == 0 {
            assert(lo * q == 0) by (nonlinear_arith)
                requires
                    q == 0,
            ;
        } else {
            assert(lo * q <= (s - 1) * q) by (nonlinear_arith)
                requires
                    lo <= s - 1,
                    q >= 0,
            ;
            assert(r <= q) by (nonlinear_arith)
                requires
                    a == s * r + m,
                    m >= 0,
                    a <= 0x0800_0000 + (s - 1) * q,
                    s == 0x1000_0000,
                    q >= 1,
            ;
        }
    }
}

/// The product of `q` and the `fraction` `f`, that is `q * f / 2^28`
/// rounded to the nearest integer with ties away from zero. A product whose
/// magnitude exceeds the largest value sets `arith_error` and gives the
/// largest value with the sign of the product.
pub fn take_frac(q: i32, f: i32, arith: &mut Arith) -> (r: i32)
    requires
        q > i32::MIN,
        f > i32::MIN,
    ensures
        r == take_frac_spec(q as int, f as int),
        -EL_GORDO <= r <= EL_GORDO,
        final(arith).remainder == old(arith).remainder,
        final(arith).arith_error == (old(arith).arith_error || take_frac_magnitude(
            abs_int(q as int),
            abs_int(f as int),
        ) > EL_GORDO),
{
    let mut negative = f < 0;
    let af: i32 = if f >= 0 { f } else { -f };
    let mut q: i32 = q;
    if q < 0 {
        q = -q;
        negative = !negative;
    }
    let ghost whole: int = (af / 0x1000_0000) * q;
    let ghost lo: int = (af as int) % 0x1000_0000;
    let mut n: i32;
    let mut f: i32;
    proof {
        assert(q * af + 0x0800_0000 == (0x0800_0000 + lo * q) + whole * 0x1000_0000)
            by (nonlinear_arith)
            requires
                af == 0x1000_0000 * (af / 0x1000_0000) + lo,
                whole == (af / 0x1000_0000) * q,
        ;
        lemma_div_add_multiple(0x0800_0000 + lo * q, whole, 0x1000_0000);
        lemma_take_frac_partial_bound(lo, q as int, 0x1000_0000);
        assert(whole >= 0) by (nonlinear_arith)
            requires
                whole == (af / 0x1000_0000) * q,
                af / 0x1000_0000 >= 0,
                q >= 0,
        ;
    }
    if af < FRACTION_ONE {
        n = 0;
        f = af;
        assert(whole == 0) by (nonlinear_arith)
            requires
                whole == (af / 0x1000_0000) * q,
                af / 0x1000_0000 == 0,
        ;
    } else {
        n = af / FRACTION_ONE;
        f = af % FRACTION_ONE;
        proof {
            lemma_fundamental_div_mod(EL_GORDO as int, n as int);
            let lim = (EL_GORDO as int) / (n as int);
            let rest = (EL_GORDO as int) % (n as int);
            assert(q <= lim <==> n * q <= EL_GORDO) by (nonlinear_arith)
                requires
                    EL_GORDO == n * lim + rest,
                    0 <= rest < n,
                    n > 0,
            ;
            assert(whole == n * q) by (nonlinear_arith)
                requires
                    whole == n * q || whole == (af / 0x1000_0000) * q,
                    n == af / 0x1000_0000,
            ;
        }
        if q <= EL_GORDO / n {
            n = n * q;
        } else {
            arith.arith_error = true;
            n = EL_GORDO;
        }
    }
    let ghost f0: int = lo + 0x1000_0000;
    f = f + FRACTION_ONE;
    let mut p: i32 = 0x0800_0000;
    let ghost mut k: nat = 0;
    proof {
        lemma2_to64();
        assert((f0 % 1) * (q as int) == 0) by (nonlinear_arith)
            requires
                f0 % 1 == 0,
        ;
    }
    if q < 0x4000_0000 {
        loop
            invariant_except_break
                k <= 27,
                f >= 2,
            invariant
                0 <= q < 0x4000_0000,
                f0 == lo + 0x1000_0000,
                0 <= lo < 0x1000_0000,
                k <= 28,
                f == f0 / (pow2(k) as int),
                f >= 1,
                p == (0x0800_0000 + (f0 % (pow2(k) as int)) * q) / (pow2(k) as int),
                0 <= p < 0x4000_0000,
            ensures
                k == 28,
            decreases f,
        {
            proof {
                lemma2_to64();
                vstd::arithmetic::power2::lemma_pow2_pos(k);
                lemma_take_frac_step(f0, q as int, pow2(k) as int);
                lemma_pow2_unfold(k + 1);
                lemma_pow2_monotone(k + 1, 28);
                let bit = (f0 / (pow2(k) as int)) % 2;
                assert(bit * q == if bit == 1 { q as int } else { 0 }) by (nonlinear_arith)
                    requires
                        bit == 0 || bit == 1,
                ;
                vstd::arithmetic::div_mod::lemma_mod_bound(f0, pow2(k + 1) as int);
                lemma_take_frac_partial_bound(
                    f0 % (pow2(k + 1) as int),
                    q as int,
                    pow2(k + 1) as int,
                );
            }
            if f % 2 != 0 {
                p = (p + q) / 2;
            } else {
                p = p / 2;
            }
            f = f / 2;
            proof {
                k = k + 1;
                if f == 1 {
                    if k <= 27 {
                        lemma_pow2_monotone(k, 27);
                        lemma_fundamental_div_mod(f0, pow2(k) as int);
                        assert(false) by (nonlinear_arith)
                            requires
                                f0 == (pow2(k) as int) * 1 + f0 % (pow2(k) as int),
                                f0 % (pow2(k) as int) < pow2(k),
                                pow2(k) <= 0x0800_0000,
                                f0 >= 0x1000_0000,
                        ;
                    }
                } else {
                    if k == 28 {
                        lemma_fundamental_div_mod(f0, 0x1000_0000);
                        assert(f0 / 0x1000_0000 == 1);
                    }
                }
            }
            if f == 1 {
                break ;
            }
        }
    } else {
        loop
            invariant_except_break
                k <= 27,
                f >= 2,
            invariant
                0x4000_0000 <= q,
                f0 == lo + 0x1000_0000,
                0 <= lo < 0x1000_0000,
                k <= 28,
                f == f0 / (pow2(k) as int),
                f >= 1,
                p == (0x0800_0000 + (f0 % (pow2(k) as int)) * q) / (pow2(k) as int),
                0 <= p <= q,
            ensures
                k == 28,
            decreases f,
        {
            proof {
                lemma2_to64();
                vstd::arithmetic::power2::lemma_pow2_pos(k);
                lemma_take_frac_step(f0, q as int, pow2(k) as int);
                lemma_pow2_unfold(k + 1);
                lemma_pow2_monotone(k + 1, 28);
                let bit = (f0 / (pow2(k) as int)) % 2;
                assert(bit * q == if bit == 1 { q as int } else { 0 }) by (nonlinear_arith)
                    requires
                        bit == 0 || bit == 1,
                ;
            }
            if f % 2 != 0 {
                p = p + (q - p) / 2;
            } else {
                p = p / 2;
            }
            f = f / 2;
            proof {
                k = k + 1;
                if f == 1 {
                    if k <= 27 {
                        lemma_pow2_monotone(k, 27);
                        lemma_fundamental_div_mod(f0, pow2(k) as int);
                        assert(false) by (nonlinear_arith)
                            requires
                                f0 == (pow2(k) as int) * 1 + f0 % (pow2(k) as int),
                                f0 % (pow2(k) as int) < pow2(k),
                                pow2(k) <= 0x0800_0000,
                                f0 >= 0x1000_0000,
                        ;
                    }
                } else {
                    if k == 28 {
                        lemma_fundamental_div_mod(f0, 0x1000_0000);
                        assert(f0 / 0x1000_0000 == 1);
                    }
                }
            }
            if f == 1 {
                break ;
            }
        }
    }
    proof {
        lemma2_to64();
        assert(f0 % 0x1000_0000 == lo);
    }
    let be_careful: i32 = n - EL_GORDO;
    if be_careful + p > 0 {
        arith.arith_error = true;
        n = EL_GORDO - p;
    }
    if negative {
        -(n + p)
    } else {
        n + p
    }
}

/// The sign of `a * b - c * d`: -1, 0 or 1.
pub open spec fn ab_vs_cd_spec(a: int, b: int, c: int, d: int) -> int {
    if a * b > c * d {
        1
    } else if a * b == c * d {
        0
    } else {
        -1
    }
}

/// Compares the products `a * b` and `c * d` without forming them: the
/// result is 1, 0 or -1 as the first is greater than, equal to or less than
/// the second.
pub fn ab_vs_cd(a: i32, b: i32, c: i32, d: i32) -> (r: i32)
    requires
        a > i32::MIN,
        b > i32::MIN,
        c > i32::MIN,
        d > i32::MIN,
    ensures
        r == ab_vs_cd_spec(a as int, b as int, c as int, d as int),
{
    let ghost a0 = a as int;
    let ghost b0 = b as int;
    let ghost c0 = c as int;
    let ghost d0 = d as int;
    let mut aa: i32 = a;
    let mut bb: i32 = b;
    let mut cc: i32 = c;
    let mut dd: i32 = d;
    if aa < 0 {
        aa = -aa;
        bb = -bb;
    }
    if cc < 0 {
        cc = -cc;
        dd = -dd;
    }
    assert(aa * bb == a0 * b0 && cc * dd == c0 * d0) by (nonlinear_arith)
        requires
            (aa == a0 && bb == b0) || (aa == -a0 && bb == -b0),
            (cc == c0 && dd == d0) || (cc == -c0 && dd == -d0),
    ;
    if dd <= 0 {
        if bb >= 0 {
            assert(aa * bb >= 0 && cc * dd <= 0 && ((aa == 0 || bb == 0) <==> aa * bb == 0) && ((cc == 0
                || dd == 0) <==> cc * dd == 0)) by (nonlinear_arith)
                requires
                    aa >= 0,
                    bb >= 0,
                    cc >= 0,
                    dd <= 0,
            ;
            return if (aa == 0 || bb == 0) && (cc == 0 || dd == 0) {
                0
            } else {
                1
            };
        }
        if dd == 0 {
            assert(cc * dd == 0 && aa * bb <= 0 && (aa == 0 <==> aa * bb == 0)) by (nonlinear_arith)
                requires
                    aa >= 0,
                    bb < 0,
                    dd == 0,
            ;
            return if aa == 0 {
                0
            } else {
                -1
            };
        }
        let ghost (a1, b1, c1, d1) = (aa as int, bb as int, cc as int, dd as int);
        let t: i32 = aa;
        aa = cc;
        cc = t;
        let t: i32 = bb;
        bb = dd;
        dd = t;
        bb = -bb;
        dd = -dd;
        assert(aa * bb - cc * dd == a1 * b1 - c1 * d1) by (nonlinear_arith)
            requires
                aa == c1,
                cc == a1,
                bb == -d1,
                dd == -b1,
        ;
    } else if bb <= 0 {
        assert(cc * dd >= 0 && aa * bb <= 0 && (bb < 0 && aa > 0 ==> aa * bb < 0) && (cc == 0 <==> cc * dd
            == 0) && (aa == 0 || bb == 0 ==> aa * bb == 0)) by (nonlinear_arith)
            requires
                aa >= 0,
                bb <= 0,
                cc >= 0,
                dd > 0,
        ;
        return if bb < 0 && aa > 0 {
            -1
        } else if cc == 0 {
            0
        } else {
            -1
        };
    }
    loop
        invariant
            a0 == a,
            b0 == b,
            c0 == c,
            d0 == d,
            aa >= 0,
            cc >= 0,
            bb > 0,
            dd > 0,
            ab_vs_cd_spec(aa as int, bb as int, cc as int, dd as int) == ab_vs_cd_spec(a0, b0, c0, d0),
        decreases bb + dd,
    {
        let q: i32 = aa / dd;
        let r: i32 = cc / bb;
        proof {
            lemma_fundamental_div_mod(aa as int, dd as int);
            lemma_fundamental_div_mod(cc as int, bb as int);
        }
        let ghost am = (aa as int) % (dd as int);
        let ghost cm = (cc as int) % (bb as int);
        if q != r {
            assert(q > r ==> aa * bb > cc * dd) by (nonlinear_arith)
                requires
                    aa == dd * q + am,
                    cc == bb * r + cm,
                    0 <= am < dd,
                    0 <= cm < bb,
                    bb > 0,
                    dd > 0,
            ;
            assert(q < r ==> aa * bb < cc * dd) by (nonlinear_arith)
                requires
                    aa == dd * q + am,
                    cc == bb * r + cm,
                    0 <= am < dd,
                    0 <= cm < bb,
                    bb > 0,
                    dd > 0,
            ;
            return if q > r {
                1
            } else {
                -1
            };
        }
        assert(aa * bb - cc * dd == am * bb - cm * dd) by (nonlinear_arith)
            requires
                aa == dd * q + am,
                cc == bb * r + cm,
                q == r,
        ;
        let q: i32 = aa % dd;
        let r: i32 = cc % bb;
        if r == 0 {
            assert(cm * dd == 0 && (am == 0 <==> am * bb == 0) && am * bb >= 0) by (nonlinear_arith)
                requires
                    cm == 0,
                    am >= 0,
                    bb > 0,
            ;
            return if q == 0 {
                0
            } else {
                1
            };
        }
        if q == 0 {
            assert(am * bb == 0 && cm * dd > 0) by (nonlinear_arith)
                requires
                    am == 0,
                    cm > 0,
                    dd > 0,
            ;
            return -1;
        }
        assert(bb * am - dd * cm == am * bb - cm * dd) by (nonlinear_arith);
        aa = bb;
        bb = q;
        cc = dd;
        dd = r;
    }
}

/// The powers of two from 2^0 to 2^30.
pub const TWO_TO_THE: [i32; 31] = [
    1, 2, 4, 8, 16, 32, 64, 128, 256, 512, 1024, 2048, 4096, 8192, 16384, 32768, 65536, 131072,
    262144, 524288, 1048576, 2097152, 4194304, 8388608, 16777216, 33554432, 67108864, 134217728,
    268435456, 536870912, 1073741824,
];

/// `SPEC_LOG[k]`, for `k` from 1 to 28, is `2^27 * ln(1 / (1 - 2^-k))`
/// rounded to the nearest integer.
pub const SPEC_LOG: [i32; 29] = [
    0, 93032640, 38612034, 17922280, 8662214, 4261238, 2113709, 1052693, 525315, 262400, 131136,
    65552, 32772, 16385, 8192, 4096, 2048, 1024, 512, 256, 128, 64, 32, 16, 8, 4, 2, 1, 1,
];

/// Each entry of the table of powers is twice the one before it.
proof fn lemma_two_to_the(k: int)
    requires
        0 <= k < 30,
    ensures
        TWO_TO_THE[k] >= 1,
        TWO_TO_THE[k + 1] == 2 * TWO_TO_THE[k],
        TWO_TO_THE[30] == 0x4000_0000,
        TWO_TO_THE[0] == 1,
{
    assert(k == 0 || k == 1 || k == 2 || k == 3 || k == 4 || k == 5 || k == 6 || k == 7 || k == 8
        || k == 9 || k == 10 || k == 11 || k == 12 || k == 13 || k == 14 || k == 15 || k == 16 || k
        == 17 || k == 18 || k == 19 || k == 20 || k == 21 || k == 22 || k == 23 || k == 24 || k
        == 25 || k == 26 || k == 27 || k == 28 || k == 29);
}

/// Five times a table entry does not exceed the matching step: with
/// `x >= 2^30`, the step `(x - 1) / 2^k + 1` is at least `2^(30 - k) + 1`.
proof fn lemma_spec_log_small(k: int)
    requires
        2 <= k <= 28,
    ensures
        0 < SPEC_LOG[k],
        5 * SPEC_LOG[k] <= 0x4000_0000int / (TWO_TO_THE[k] as int) + 1,
{
    assert(k == 2 || k == 3 || k == 4 || k == 5 || k == 6 || k == 7 || k == 8 || k == 9 || k
        == 10 || k == 11 || k == 12 || k == 13 || k == 14 || k == 15 || k == 16 || k == 17 || k
        == 18 || k == 19 || k == 20 || k == 21 || k == 22 || k == 23 || k == 24 || k == 25 || k
        == 26 || k == 27 || k == 28);
}

/// The first stage of the logarithm: `x` is doubled until it reaches 2^30,
/// and each doubling takes `ln 2` off the running value `y` and a
/// correction off `z`.
pub open spec fn m_log_scale_up(x: int, y: int, z: int) -> (int, int, int)
    decreases
        (if x < 0x4000_0000 {
            0x4000_0000 - x
        } else {
            0
        }),
{
    if 0 < x < 0x4000_0000 {
        m_log_scale_up(2 * x, y - 93032639, z - 48782)
    } else {
        (x, y, z)
    }
}

/// The second stage picks the factor `1 - 2^-k`: the step `z` is halved,
/// rounding up, and `k` raised until `x - z` stays at or above 2^30.
pub open spec fn m_log_pick(x: int, z: int, k: int) -> (int, int)
    decreases z,
{
    if x < 0x4000_0000 + z && z > 1 {
        m_log_pick(x, (z + 1) / 2, k + 1)
    } else {
        (z, k)
    }
}

/// The third stage: while `x` exceeds 2^30 + 4 it is multiplied by the
/// largest factor `1 - 2^-k` that keeps it at or above 2^30, and the
/// logarithm of that factor's reciprocal is added to `y`.
pub open spec fn m_log_reduce(x: int, y: int, k: int) -> int
    decreases x,
{
    if x > 0x4000_0004 && 0 <= k <= 28 {
        let (z, k2) = m_log_pick(x, (x - 1) / (TWO_TO_THE[k] as int) + 1, k);
        if z >= 1 && x - z >= 0x4000_0000 && 0 <= k2 <= 28 {
            m_log_reduce(x - z, y + SPEC_LOG[k2], k2)
        } else {
            y
        }
    } else {
        y
    }
}

/// The logarithm computed by [`m_log`] for a positive `x`: with `x` a
/// `scaled` value, `2^24 * ln(x / 2^16)` as the three stages approximate it.
pub open spec fn m_log_spec(x: int) -> int
    recommends
        x > 0,
{
    let (x1, y1, z1) = m_log_scale_up(x, 1302456860, 6581195);
    trunc_div(m_log_reduce(x1, y1 + z1 / 65536, 2), 8)
}

/// The logarithm of a positive `scaled` value, scaled by 2^24; `None` for
/// a value that has no logarithm.
pub fn m_log(x: i32) -> (r: Option<i32>)
    ensures
        x <= 0 <==> r.is_none(),
        x > 0 ==> r == Some(m_log_spec(x as int) as i32),
        x > 0 ==> -0x1000_0000 < m_log_spec(x as int) < 0x1000_0000,
{
    if x <= 0 {
        return None;
    }
    let ghost x0 = x as int;
    let mut x: i32 = x;
    let mut y: i32 = 1302456860;
    let mut z: i32 = 6581195;
    let ghost mut i: int = 0;
    proof {
        lemma_two_to_the(0);
    }
    while x < 0x4000_0000
        invariant
            0 <= i <= 30,
            x >= TWO_TO_THE[i],
            x > 0,
            y == 1302456860 - i * 93032639,
            z == 6581195 - i * 48782,
            m_log_scale_up(x as int, y as int, z as int) == m_log_scale_up(
                x0,
                1302456860,
                6581195,
            ),
        decreases
            (if x < 0x4000_0000 {
                0x4000_0000 - x
            } else {
                0
            }),
    {
        proof {
            if i < 30 {
                lemma_two_to_the(i);
            } else {
                lemma_two_to_the(29);
            }
        }
        x *= 2;
        y -= 93032639;
        z -= 48782;
        proof {
            i = i + 1;
        }
    }
    y += z / 65536;
    let mut k: usize = 2;
    let ghost y1 = y as int;
    let ghost x1 = x as int;
    while x > 0x4000_0004
        invariant
            0x4000_0000 <= x,
            2 <= k <= 28,
            5 * y + x <= 5 * y1 + x1,
            x1 <= i32::MAX,
            y1 <= y,
            -1488522310 <= y1 <= 1302456960,
            m_log_reduce(x as int, y as int, k as int) == m_log_reduce(x1, y1, 2),
        decreases x,
    {
        proof {
            lemma_m_log_step_bound(x as int, k as int);
        }
        z = ((x - 1) / TWO_TO_THE[k]) + 1;
        let ghost k_in = k as int;
        let ghost z_in = z as int;
        while x < 0x4000_0000 + z
            invariant
                0x4000_0004 < x,
                2 <= k <= 28,
                z == (x - 1) / (TWO_TO_THE[k as int] as int) + 1,
                5 <= z <= 0x2000_0000,
                m_log_pick(x as int, z as int, k as int) == m_log_pick(x as int, z_in, k_in),
            decreases 28 - k,
        {
            proof {
                if k == 28 {
                    assert(TWO_TO_THE[28] == 268435456);
                    let t = (x - 1) / 268435456;
                    assert(z == t + 1);
                    assert(t <= 7);
                    assert(x < 0x4000_0000 + 8);
                    assert(t == 4);
                    assert(false);
                }
                lemma_m_log_step_bound(x as int, k + 1);
                lemma_two_to_the(k as int);
                lemma_div_denominator((x - 1) as int, TWO_TO_THE[k as int] as int, 2);
                assert((x - 1) / (TWO_TO_THE[k as int] as int) >= 4) by {
                    lemma_m_log_step_bound(x as int, k as int);
                }
            }
            z = (z + 1) / 2;
            k += 1;
        }
        proof {
            lemma_m_log_step_bound(x as int, k as int);
            lemma_spec_log_small(k as int);
            assert(z > 1);
        }
        y += SPEC_LOG[k];
        x -= z;
    }
    Some(y / 8)
}

/// With `x` above 2^30 the step `(x - 1) / 2^k + 1` is at least
/// `2^(30 - k) + 1`, for `k` up to 28.
proof fn lemma_m_log_step_bound(x: int, k: int)
    requires
        0x4000_0000 < x,
        2 <= k <= 28,
    ensures
        (x - 1) / (TWO_TO_THE[k] as int) + 1 >= 0x4000_0000int / (TWO_TO_THE[k] as int) + 1,
        0x4000_0000int / (TWO_TO_THE[k] as int) >= 4,
        x <= i32::MAX ==> (x - 1) / (TWO_TO_THE[k] as int) + 1 <= 0x2000_0000,
{
    lemma_two_to_the(k);
    let t = TWO_TO_THE[k] as int;
    vstd::arithmetic::div_mod::lemma_div_is_ordered(0x4000_0000, x - 1, t);
    if x <= i32::MAX {
        vstd::arithmetic::div_mod::lemma_div_is_ordered_by_denominator(x - 1, 4, t);
    }
    assert(k == 2 || k == 3 || k == 4 || k == 5 || k == 6 || k == 7 || k == 8 || k == 9 || k
        == 10 || k == 11 || k == 12 || k == 13 || k == 14 || k == 15 || k == 16 || k == 17 || k
        == 18 || k == 19 || k == 20 || k == 21 || k == 22 || k == 23 || k == 24 || k == 25 || k
        == 26 || k == 27 || k == 28);
}

/// `q * f / 2^28` rounded to the nearest integer with ties away from zero,
/// and held to the largest value: what [`take_frac`] returns.
pub open spec fn take_frac_spec(q: int, f: int) -> int {
    let m = take_frac_magnitude(abs_int(q), abs_int(f));
    neg_if(
        (f < 0) != (q < 0),
        if m > EL_GORDO {
            EL_GORDO as int
        } else {
            m
        },
    )
}

/// `2^28 * p / q` rounded to the nearest integer with ties away from zero,
/// or the largest value where the quotient reaches eight: what
/// [`make_frac`] returns.
pub open spec fn make_frac_spec(p: int, q: int) -> int
    recommends
        q != 0,
{
    neg_if(
        (p < 0) != (q < 0),
        if abs_int(p) / abs_int(q) >= 8 {
            EL_GORDO as int
        } else {
            make_frac_magnitude(abs_int(p), abs_int(q))
        },
    )
}

/// The state of the additive random number generator: 55 values below
/// 2^28, and the index of the value that was handed out last.
pub struct Randoms {
    pub table: [i32; 55],
    pub j_random: usize,
}

/// The mathematical content of a [`Randoms`].
pub struct RandomsView {
    pub table: Seq<i32>,
    pub j_random: nat,
}

impl View for Randoms {
    type V = RandomsView;

    open spec fn view(&self) -> RandomsView {
        RandomsView { table: self.table@, j_random: self.j_random as nat }
    }
}

/// `a - b` modulo 2^28, for `a` and `b` below 2^28.
pub open spec fn sub_fraction(a: int, b: int) -> int {
    if a - b < 0 {
        a - b + 0x1000_0000
    } else {
        a - b
    }
}

/// Entry `k` of a refreshed table: each entry has the entry 24 places
/// before it, or 31 places after it, taken off, and the entries are
/// refreshed in order, so that the entry 24 places before is the new one.
pub open spec fn refreshed_at(t: Seq<i32>, k: int) -> int
    decreases k,
{
    if k < 0 || k >= 55 {
        0
    } else if k < 24 {
        sub_fraction(t[k] as int, t[k + 31] as int)
    } else {
        sub_fraction(t[k] as int, refreshed_at(t, k - 24))
    }
}

/// The table that [`new_randoms`] leaves.
pub open spec fn refresh(t: Seq<i32>) -> Seq<i32> {
    Seq::new(55, |k: int| refreshed_at(t, k) as i32)
}

/// Every entry lies in `0 .. 2^28`.
pub open spec fn table_in_range(t: Seq<i32>) -> bool {
    &&& t.len() == 55
    &&& forall|i: int| 0 <= i < 55 ==> 0 <= #[trigger] t[i] < 0x1000_0000
}

impl RandomsView {
    /// The invariant of the generator's state.
    pub open spec fn wf(self) -> bool {
        table_in_range(self.table) && self.j_random < 55
    }

    /// The state after the generator has moved to its next value.
    pub open spec fn advance(self) -> RandomsView {
        if self.j_random == 0 {
            RandomsView { table: refresh(self.table), j_random: 54 }
        } else {
            RandomsView { table: self.table, j_random: (self.j_random - 1) as nat }
        }
    }

    /// The value that the generator stands on.
    pub open spec fn current(self) -> int {
        self.table[self.j_random as int] as int
    }
}

/// A refreshed table stays in range.
pub proof fn lemma_refresh_in_range(t: Seq<i32>)
    requires
        table_in_range(t),
    ensures
        table_in_range(refresh(t)),
        forall|k: int| 0 <= k < 55 ==> 0 <= #[trigger] refreshed_at(t, k) < 0x1000_0000,
{
    assert forall|k: int| 0 <= k < 55 implies 0 <= #[trigger] refreshed_at(t, k) < 0x1000_0000 by {
        lemma_refreshed_at_in_range(t, k);
    }
    assert forall|i: int| 0 <= i < 55 implies 0 <= #[trigger] refresh(t)[i] < 0x1000_0000 by {
        lemma_refreshed_at_in_range(t, i);
    }
}

proof fn lemma_refreshed_at_in_range(t: Seq<i32>, k: int)
    requires
        table_in_range(t),
        0 <= k < 55,
    ensures
        0 <= refreshed_at(t, k) < 0x1000_0000,
    decreases k,
{
    if k >= 24 {
        lemma_refreshed_at_in_range(t, k - 24);
    }
}

impl Randoms {
    /// A copy of the generator's state.
    pub fn clone_state(&self) -> (r: Randoms)
        ensures
            r@ == self@,
    {
        Randoms { table: self.table, j_random: self.j_random }
    }

    /// A generator with every value zero, standing on the first.
    pub fn new() -> (r: Randoms)
        ensures
            r@.wf(),
            r@.j_random == 0,
            forall|i: int| 0 <= i < 55 ==> r@.table[i] == 0,
    {
        Randoms { table: [0i32;55], j_random: 0 }
    }
}

/// Refreshes all 55 values and stands on the last.
pub fn new_randoms(randoms: &mut Randoms)
    requires
        old(randoms)@.wf(),
    ensures
        final(randoms)@.wf(),
        final(randoms)@.j_random == 54,
        final(randoms)@.table == refresh(old(randoms)@.table),
{
    let ghost t0 = randoms.table@;
    proof {
        lemma_refresh_in_range(t0);
    }
    let mut k: usize = 0;
    while k < 24
        invariant
            k <= 24,
            table_in_range(t0),
            randoms.table@.len() == 55,
            forall|i: int| 0 <= i < k ==> randoms.table@[i] == refreshed_at(t0, i),
            forall|i: int| k <= i < 55 ==> randoms.table@[i] == t0[i],
            forall|i: int| 0 <= i < 55 ==> 0 <= #[trigger] refreshed_at(t0, i) < 0x1000_0000,
        decreases 24 - k,
    {
        proof {
            assert(randoms.table@[k as int] == t0[k as int]);
            assert(randoms.table@[k + 31] == t0[k + 31]);
            assert(0 <= t0[k as int] < 0x1000_0000 && 0 <= t0[k + 31] < 0x1000_0000);
        }
        let mut x: i32 = randoms.table[k] - randoms.table[k + 31];
        if x < 0 {
            x += 0x1000_0000;
        }
        randoms.table[k] = x;
        k += 1;
    }
    while k < 55
        invariant
            24 <= k <= 55,
            table_in_range(t0),
            randoms.table@.len() == 55,
            forall|i: int| 0 <= i < k ==> randoms.table@[i] == refreshed_at(t0, i),
            forall|i: int| k <= i < 55 ==> randoms.table@[i] == t0[i],
            forall|i: int| 0 <= i < 55 ==> 0 <= #[trigger] refreshed_at(t0, i) < 0x1000_0000,
        decreases 55 - k,
    {
        proof {
            assert(randoms.table@[k as int] == t0[k as int]);
            assert(randoms.table@[k - 24] == refreshed_at(t0, k - 24));
            assert(0 <= t0[k as int] < 0x1000_0000);
        }
        let mut x: i32 = randoms.table[k] - randoms.table[k - 24];
        if x < 0 {
            x += 0x1000_0000;
        }
        randoms.table[k] = x;
        k += 1;
    }
    randoms.j_random = 54;
    assert(randoms.table@ =~= refresh(t0));
}

/// How a seed is brought below 2^28: its magnitude is halved until it fits.
pub open spec fn reduce_seed(j: int) -> int
    decreases j,
{
    if j >= 0x1000_0000 {
        reduce_seed(j / 2)
    } else {
        j
    }
}

/// The pair `(j, k)` after `i` steps of seeding from `(s, 1)`: each step
/// replaces `(j, k)` by `(k, j - k)` modulo 2^28.
pub open spec fn seed_pair(s: int, i: nat) -> (int, int)
    decreases i,
{
    if i == 0 {
        (s, 1)
    } else {
        let (j, k) = seed_pair(s, (i - 1) as nat);
        (k, sub_fraction(j, k))
    }
}

/// The table that seeding fills before it is refreshed: step `i` writes
/// its `j` to place `21 * i mod 55`, so place `p` holds the `j` of step
/// `21 * p mod 55`.
pub open spec fn seeded_table(s: int) -> Seq<i32> {
    Seq::new(55, |p: int| seed_pair(s, (seed_step(p) + 1) as nat).0 as i32)
}

/// The seeding step that writes place `p` of the table.
pub open spec fn seed_step(p: int) -> int {
    (21 * p) % 55
}

/// The table that [`init_randoms`] leaves for a seed.
pub open spec fn init_randoms_spec(seed: int) -> Seq<i32> {
    refresh(refresh(refresh(seeded_table(reduce_seed(abs_int(seed))))))
}

proof fn lemma_seed_pair_in_range(s: int, i: nat)
    requires
        0 <= s < 0x1000_0000,
    ensures
        0 <= seed_pair(s, i).0 < 0x1000_0000,
        0 <= seed_pair(s, i).1 < 0x1000_0000,
    decreases i,
{
    if i > 0 {
        lemma_seed_pair_in_range(s, (i - 1) as nat);
    }
}

/// Multiplying by 21 modulo 55 is its own inverse.
proof fn lemma_times_21(a: int)
    requires
        0 <= a < 55,
    ensures
        (21 * ((21 * a) % 55)) % 55 == a,
        0 <= (21 * a) % 55 < 55,
{
    let q = (21 * a) / 55;
    let p = (21 * a) % 55;
    lemma_fundamental_div_mod(21 * a, 55);
    assert(21 * p == (8 * a - 21 * q) * 55 + a);
    lemma_div_from_bounds(21 * p, 55, 8 * a - 21 * q);
}

/// Seeds the generator: fills the table from the seed, then refreshes it
/// three times.
pub fn init_randoms(seed: i32, randoms: &mut Randoms)
    requires
        seed > i32::MIN,
    ensures
        final(randoms)@.wf(),
        final(randoms)@.j_random == 54,
        final(randoms)@.table == init_randoms_spec(seed as int),
{
    let mut j: i32 = if seed < 0 { -seed } else { seed };
    while j >= 0x1000_0000
        invariant
            0 <= j,
            reduce_seed(j as int) == reduce_seed(abs_int(seed as int)),
        decreases j,
    {
        j = j / 2;
    }
    let ghost s = j as int;
    let mut k: i32 = 1;
    let mut i: usize = 0;
    while i < 55
        invariant
            i <= 55,
            0 <= s < 0x1000_0000,
            (j as int, k as int) == seed_pair(s, i as nat),
            0 <= j < 0x1000_0000,
            0 <= k < 0x1000_0000,
            randoms.table@.len() == 55,
            forall|p: int|
                0 <= p < 55 && #[trigger] seed_step(p) < i ==> randoms.table@[p] == seeded_table(
                    s,
                )[p],
        decreases 55 - i,
    {
        let jj: i32 = k;
        k = j - k;
        j = jj;
        if k < 0 {
            k += 0x1000_0000;
        }
        let place: usize = (i * 21) % 55;
        proof {
            lemma_seed_pair_in_range(s, (i + 1) as nat);
            lemma_times_21(i as int);
            assert forall|p: int| 0 <= p < 55 && #[trigger] seed_step(p) == i implies p
                == place by {
                lemma_times_21(p);
            }
        }
        randoms.table[place] = j;
        i += 1;
    }
    proof {
        assert forall|p: int| 0 <= p < 55 implies 0 <= #[trigger] randoms.table@[p]
            < 0x1000_0000 by {
            lemma_times_21(p);
            assert(seed_step(p) < 55);
            lemma_seed_pair_in_range(s, (seed_step(p) + 1) as nat);
        }
        assert(randoms.table@ =~= seeded_table(s));
    }
    randoms.j_random = 0;
    new_randoms(randoms);
    new_randoms(randoms);
    new_randoms(randoms);
}

/// Moves the generator to its next value.
pub fn next_random(randoms: &mut Randoms) -> (r: i32)
    requires
        old(randoms)@.wf(),
    ensures
        final(randoms)@ == old(randoms)@.advance(),
        final(randoms)@.wf(),
        r == final(randoms)@.current(),
        0 <= r < 0x1000_0000,
{
    if randoms.j_random == 0 {
        new_randoms(randoms);
    } else {
        randoms.j_random = randoms.j_random - 1;
    }
    randoms.table[randoms.j_random]
}

/// The uniform value for the bound `x` and the generator's value `f`: the
/// product of `|x|` and the fraction `f`, with the sign of `x`, and 0 where
/// the product reaches `|x|`.
pub open spec fn unif_rand_spec(x: int, f: int) -> int {
    let y = take_frac_spec(abs_int(x), f);
    if y == abs_int(x) {
        0
    } else if x > 0 {
        y
    } else {
        -y
    }
}

/// The product of a fraction below one and `q` does not exceed `q`.
proof fn lemma_take_frac_below_one(q: int, f: int)
    requires
        0 <= q <= i32::MAX,
        0 <= f <= 0x1000_0000,
    ensures
        0 <= take_frac_magnitude(q, f) <= q,
{
    let a = q * f + 0x0800_0000;
    lemma_fundamental_div_mod(a, 0x1000_0000);
    let r = a / 0x1000_0000;
    let m = a % 0x1000_0000;
    assert(0 <= q * f <= q * 0x1000_0000) by (nonlinear_arith)
        requires
            0 <= q,
            0 <= f <= 0x1000_0000,
    ;
    if q == 0 {
    } else {
    }
}

/// A uniformly distributed value between 0 and `x`, zero included and `x`
/// excluded.
pub fn unif_rand(x: i32, randoms: &mut Randoms, arith: &mut Arith) -> (r: i32)
    requires
        x > i32::MIN,
        old(randoms)@.wf(),
    ensures
        final(randoms)@ == old(randoms)@.advance(),
        final(randoms)@.wf(),
        *final(arith) == *old(arith),
        r == unif_rand_spec(x as int, final(randoms)@.current()),
        abs_int(r as int) < abs_int(x as int) || r == 0,
{
    let f: i32 = next_random(randoms);
    let ax: i32 = if x < 0 { -x } else { x };
    proof {
        lemma_take_frac_below_one(ax as int, f as int);
    }
    let y: i32 = take_frac(ax, f, arith);
    if y == ax {
        0
    } else if x > 0 {
        y
    } else {
        -y
    }
}

/// One try at a normal deviate from the state `v`: the state it leaves,
/// and the deviate if the try was accepted. A try takes two values `x` and
/// `u` from the generator and accepts `x / u` when `|x| < u` and
/// `x^2 / u^2 <= -4 ln u`, both on the generator's scale.
pub open spec fn norm_rand_try(v: RandomsView) -> (RandomsView, Option<int>) {
    let v1 = v.advance();
    let x = take_frac_spec(112429, v1.current() - 0x0800_0000);
    let v2 = v1.advance();
    let u = v2.current();
    if abs_int(x) < u {
        let xx = make_frac_spec(x, u);
        let l = 139548960 - m_log_spec(u);
        if ab_vs_cd_spec(1024, l, xx, xx) >= 0 {
            (v2, Some(xx))
        } else {
            (v2, None)
        }
    } else {
        (v2, None)
    }
}

/// The outcome of up to `tries` tries from the state `v`: the state after
/// the last try made, and the first deviate accepted.
pub open spec fn norm_rand_spec(v: RandomsView, tries: nat) -> (RandomsView, Option<int>)
    decreases tries,
{
    if tries == 0 {
        (v, None)
    } else {
        let (v2, d) = norm_rand_try(v);
        if d.is_some() {
            (v2, d)
        } else {
            norm_rand_spec(v2, (tries - 1) as nat)
        }
    }
}

/// One try at a normal deviate: see [`norm_rand_try`].
pub fn norm_rand_attempt(randoms: &mut Randoms, arith: &mut Arith) -> (r: Option<i32>)
    requires
        old(randoms)@.wf(),
    ensures
        final(randoms)@.wf(),
        final(randoms)@ == norm_rand_try(old(randoms)@).0,
        r.is_some() == norm_rand_try(old(randoms)@).1.is_some(),
        r.is_some() ==> r.unwrap() == norm_rand_try(old(randoms)@).1.unwrap(),
        *final(arith) == *old(arith),
{
    let f: i32 = next_random(randoms);
    proof {
        lemma_take_frac_below_one(112429, abs_int(f - 0x0800_0000));
    }
    let x: i32 = take_frac(112429, f - 0x0800_0000, arith);
    let u: i32 = next_random(randoms);
    let ax: i32 = if x < 0 { -x } else { x };
    if ax < u {
        proof {
            vstd::arithmetic::div_mod::lemma_basic_div(ax as int, u as int);
        }
        let xx: i32 = make_frac(x, u, arith);
        let l: i32 = match m_log(u) {
            Some(m) => 139548960 - m,
            None => 0,
        };
        if ab_vs_cd(1024, l, xx, xx) >= 0 {
            Some(xx)
        } else {
            None
        }
    } else {
        None
    }
}

/// A normal deviate with mean zero and standard deviation 2^16, found by
/// rejection: up to `max_tries` tries are made, and `None` says that none
/// of them was accepted.
pub fn norm_rand(randoms: &mut Randoms, arith: &mut Arith, max_tries: usize) -> (r: Option<i32>)
    requires
        old(randoms)@.wf(),
    ensures
        final(randoms)@.wf(),
        final(randoms)@ == norm_rand_spec(old(randoms)@, max_tries as nat).0,
        r.is_some() == norm_rand_spec(old(randoms)@, max_tries as nat).1.is_some(),
        r.is_some() ==> r.unwrap() == norm_rand_spec(old(randoms)@, max_tries as nat).1.unwrap(),
        *final(arith) == *old(arith),
{
    let mut left: usize = max_tries;
    while left > 0
        invariant
            randoms@.wf(),
            *arith == *old(arith),
            norm_rand_spec(randoms@, left as nat) == norm_rand_spec(
                old(randoms)@,
                max_tries as nat,
            ),
        decreases left,
    {
        let d = norm_rand_attempt(randoms, arith);
        if d.is_some() {
            return d;
        }
        left -= 1;
    }
    None
}

} // verus!
