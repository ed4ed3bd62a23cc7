//! Fixed-point arithmetic: a real number `x` is held as the integer
//! `x * ONE`, rounded down. Products and quotients are computed in `i128`
//! and rounded towards negative infinity.
use vstd::prelude::*;
use vstd::arithmetic::div_mod::{lemma_div_is_ordered, lemma_fundamental_div_mod_converse};

verus! {

/// The fixed-point representation of 1.0.
pub const ONE: i64 = 1_000_000;

/// Largest magnitude that a stored coordinate, speed or coefficient may have.
pub const MAX_MAGNITUDE: i64 = 1_000_000_000_000;

/// Product of two fixed-point numbers, rounded down.
pub open spec fn fx_mul(a: int, b: int) -> int {
    (a * b) / (ONE as int)
}

/// Quotient of two fixed-point numbers (`b > 0`), rounded down.
pub open spec fn fx_div(a: int, b: int) -> int {
    (a * ONE) / b
}

/// `v` brought into `[-MAX_MAGNITUDE, MAX_MAGNITUDE]`.
pub open spec fn saturate(v: int) -> int {
    if v > MAX_MAGNITUDE {
        MAX_MAGNITUDE as int
    } else if v < -MAX_MAGNITUDE {
        -MAX_MAGNITUDE
    } else {
        v
    }
}

pub open spec fn abs(v: int) -> int {
    if v < 0 { -v } else { v }
}

pub open spec fn in_range(v: int) -> bool {
    -MAX_MAGNITUDE <= v <= MAX_MAGNITUDE
}

/// Division rounded towards negative infinity.
pub fn floor_div(a: i128, b: i128) -> (r: i128)
    requires
        b > 0,
        a > i128::MIN,
    ensures
        r == a / b,
{
    if a >= 0 {
        a / b
    } else {
        let n: i128 = -a - 1;
        let q: i128 = n / b;
        proof {
            let rem: int = (n as int) % (b as int);
            assert(n == q * b + rem) by {
                vstd::arithmetic::div_mod::lemma_fundamental_div_mod(n as int, b as int);
            }
            assert(a == (-q - 1) * b + (b - rem - 1)) by (nonlinear_arith)
                requires
                    a == -n - 1,
                    n == q * b + rem,
            ;
            lemma_fundamental_div_mod_converse(a as int, b as int, -q - 1, b - rem - 1);
        }
        -q - 1
    }
}

/// `|x / d| <= X / d + 1` whenever `|x| <= X`.
pub proof fn lemma_div_bound(x: int, bound: int, d: int)
    requires
        d > 0,
        abs(x) <= bound,
    ensures
        -(bound / d) - 1 <= x / d <= bound / d,
{
    lemma_div_is_ordered(x, bound, d);
    lemma_div_is_ordered(-bound, x, d);
    let q = bound / d;
    let rem = bound % d;
    vstd::arithmetic::div_mod::lemma_fundamental_div_mod(bound, d);
    if rem == 0 {
        assert(-bound == (-q) * d + 0) by (nonlinear_arith)
            requires
                bound == d * q + rem,
                rem == 0,
        ;
        lemma_fundamental_div_mod_converse(-bound, d, -q, 0);
    } else {
        assert(-bound == (-q - 1) * d + (d - rem)) by (nonlinear_arith)
            requires
                bound == d * q + rem,
        ;
        lemma_fundamental_div_mod_converse(-bound, d, -q - 1, d - rem);
    }
}

/// `|a * b| <= A * B` whenever `|a| <= A` and `|b| <= B`.
pub proof fn lemma_mul_bound(a: int, b: int, ba: int, bb: int)
    requires
        abs(a) <= ba,
        abs(b) <= bb,
    ensures
        abs(a * b) <= ba * bb,
        -(ba * bb) <= a * b <= ba * bb,
{
    assert(abs(a * b) == abs(a) * abs(b)) by (nonlinear_arith);
    assert(abs(a) * abs(b) <= ba * bb) by (nonlinear_arith)
        requires
            0 <= abs(a) <= ba,
            0 <= abs(b) <= bb,
    ;
}

/// Bounds on a fixed-point product from bounds on its factors.
pub proof fn lemma_fx_mul_bound(a: int, b: int, ba: int, bb: int)
    requires
        abs(a) <= ba,
        abs(b) <= bb,
    ensures
        -(ba * bb) <= a * b <= ba * bb,
        abs(fx_mul(a, b)) <= ba * bb / (ONE as int) + 1,
{
    lemma_mul_bound(a, b, ba, bb);
    lemma_div_bound(a * b, ba * bb, ONE as int);
}

/// Bounds on a fixed-point quotient by a divisor of at least one unit.
pub proof fn lemma_fx_div_bound(a: int, d: int, ba: int)
    requires
        abs(a) <= ba,
        d >= 1,
    ensures
        -(ba * ONE) <= a * ONE <= ba * ONE,
        abs(fx_div(a, d)) <= ba * ONE + 1,
{
    lemma_mul_bound(a, ONE as int, ba, ONE as int);
    lemma_div_bound(a * ONE, ba * ONE, d);
    vstd::arithmetic::div_mod::lemma_div_is_ordered_by_denominator(ba * ONE, 1, d);
}

/// `r / ONE` of a whole `s` lies in `[0, s]`, and below `s` when `s > 0`.
pub proof fn lemma_fraction_of(r: int, s: int)
    requires
        0 <= r < ONE,
        s >= 0,
    ensures
        0 <= fx_mul(r, s) <= s,
        s > 0 ==> fx_mul(r, s) < s,
        r * s <= ONE * s,
{
    let q = fx_mul(r, s);
    let m = (r * s) % (ONE as int);
    vstd::arithmetic::div_mod::lemma_fundamental_div_mod(r * s, ONE as int);
    assert(0 <= q <= s && (s > 0 ==> q < s) && r * s <= ONE * s) by (nonlinear_arith)
        requires
            r * s == ONE * q + m,
            0 <= m < ONE,
            0 <= r < ONE,
            s >= 0,
    ;
}

/// `a / b` for `b > 0`, rounded towards zero.
pub open spec fn quot_toward_zero(a: int, b: int) -> int {
    if a >= 0 {
        a / b
    } else {
        -((-a) / b)
    }
}

/// The magnitude of a quotient rounded towards zero, times the divisor,
/// is at most the magnitude of the dividend.
pub proof fn lemma_quot_toward_zero(a: int, b: int)
    requires
        b > 0,
    ensures
        abs(quot_toward_zero(a, b)) == abs(a) / b,
        b * abs(quot_toward_zero(a, b)) <= abs(a),
{
    vstd::arithmetic::div_mod::lemma_fundamental_div_mod(abs(a), b);
    vstd::arithmetic::div_mod::lemma_div_is_ordered(0, abs(a), b);
    assert(0int / b == 0) by {
        vstd::arithmetic::div_mod::lemma_fundamental_div_mod_converse(0, b, 0, 0);
    }
}

/// Division of a wide value rounded towards zero.
pub fn div_toward_zero(a: i128, b: i128) -> (r: i128)
    requires
        b > 0,
        a > i128::MIN,
    ensures
        r == quot_toward_zero(a as int, b as int),
{
    if a >= 0 {
        a / b
    } else {
        -((-a) / b)
    }
}

/// Fixed-point product.
pub fn mul_fx(a: i128, b: i128) -> (r: i128)
    requires
        i128::MIN < a * b <= i128::MAX,
    ensures
        r == fx_mul(a as int, b as int),
{
    floor_div(a * b, ONE as i128)
}

/// Fixed-point quotient by a positive divisor.
pub fn div_fx(a: i128, b: i128) -> (r: i128)
    requires
        b > 0,
        i128::MIN < a * ONE <= i128::MAX,
    ensures
        r == fx_div(a as int, b as int),
{
    floor_div(a * (ONE as i128), b)
}

/// Brings a wide value into the stored range.
pub fn saturate_wide(v: i128) -> (r: i64)
    ensures
        r == saturate(v as int),
{
    if v > MAX_MAGNITUDE as i128 {
        MAX_MAGNITUDE
    } else if v < -(MAX_MAGNITUDE as i128) {
        -MAX_MAGNITUDE
    } else {
        v as i64
    }
}

} // verus!
