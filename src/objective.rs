//! The function being minimised.
use vstd::prelude::*;
use crate::fixed::{abs, fx_mul, lemma_div_bound, lemma_mul_bound, mul_fx, ONE};
use crate::vector::Vector;

verus! {

/// A cost to be minimised: smaller values are better.
pub trait Objective {
    /// The cost of a point.
    spec fn value(&self, p: Vector) -> int;

    /// Computes the cost of a point of the stored range.
    fn evaluate(&self, p: Vector) -> (r: i128)
        requires
            p.bounded(),
        ensures
            r as int == self.value(p),
    ;
}

/// Himmelblau's function `(x² + y − 11)² + (x + y² − 7)²`, each product
/// rounded down to the fixed-point grid.
pub open spec fn himmelblau(p: Vector) -> int {
    let a = fx_mul(p.x as int, p.x as int) + p.y - 11 * ONE;
    let b = p.x + fx_mul(p.y as int, p.y as int) - 7 * ONE;
    fx_mul(a, a) + fx_mul(b, b)
}

/// Himmelblau's function is never negative, and is zero at (3, 2).
pub proof fn lemma_himmelblau_root(p: Vector)
    ensures
        himmelblau(p) >= 0,
        himmelblau(Vector { x: 3_000_000i64, y: 2_000_000i64 }) == 0,
{
    let a = fx_mul(p.x as int, p.x as int) + p.y - 11 * ONE;
    let b = p.x + fx_mul(p.y as int, p.y as int) - 7 * ONE;
    assert(a * a >= 0) by (nonlinear_arith);
    assert(b * b >= 0) by (nonlinear_arith);
    vstd::arithmetic::div_mod::lemma_div_is_ordered(0, a * a, ONE as int);
    vstd::arithmetic::div_mod::lemma_div_is_ordered(0, b * b, ONE as int);
    assert(0int / (ONE as int) == 0) by {
        vstd::arithmetic::div_mod::lemma_fundamental_div_mod_converse(0, ONE as int, 0, 0);
    }
    assert(fx_mul(3 * ONE, 3 * ONE) == 9 * ONE) by {
        vstd::arithmetic::div_mod::lemma_fundamental_div_mod_converse(
            9_000_000_000_000,
            ONE as int,
            9 * ONE,
            0,
        );
    }
    assert(fx_mul(2 * ONE, 2 * ONE) == 4 * ONE) by {
        vstd::arithmetic::div_mod::lemma_fundamental_div_mod_converse(
            4_000_000_000_000,
            ONE as int,
            4 * ONE,
            0,
        );
    }
    let r = Vector { x: 3_000_000i64, y: 2_000_000i64 };
    let ra = fx_mul(r.x as int, r.x as int) + r.y - 11 * ONE;
    let rb = r.x + fx_mul(r.y as int, r.y as int) - 7 * ONE;
    assert(ra == 0 && rb == 0);
    assert(fx_mul(0, 0) == 0);
    assert(himmelblau(r) == fx_mul(ra, ra) + fx_mul(rb, rb));
}

/// The two-dimensional benchmark with four global minima of value zero,
/// one of them at (3, 2).
#[derive(Clone, Copy, Debug)]
pub struct Himmelblau;

/// Bound on `fx_mul(v, v) + w` for `|v|, |w| <= 10^12`.
proof fn lemma_square_term(v: int, w: int, c: int)
    requires
        abs(v) <= 1_000_000_000_000,
        abs(w) <= 1_000_000_000_000,
        0 <= c <= 11_000_000,
    ensures
        abs(fx_mul(v, v) + w - c) <= 2_000_000_000_000_000_000,
{
    lemma_mul_bound(v, v, 1_000_000_000_000, 1_000_000_000_000);
    lemma_div_bound(v * v, 1_000_000_000_000_000_000_000_000, ONE as int);
}

/// Bound on `fx_mul(a, a)` for `|a| <= 2 * 10^18`.
proof fn lemma_square_cost(a: int)
    requires
        abs(a) <= 2_000_000_000_000_000_000,
    ensures
        0 <= a * a <= 4_000_000_000_000_000_000_000_000_000_000_000_000,
        abs(fx_mul(a, a)) <= 4_000_000_000_000_000_000_000_000_000_000,
{
    assert(a * a >= 0) by (nonlinear_arith);
    lemma_mul_bound(a, a, 2_000_000_000_000_000_000, 2_000_000_000_000_000_000);
    lemma_div_bound(
        a * a,
        4_000_000_000_000_000_000_000_000_000_000_000_000,
        ONE as int,
    );
}

impl Objective for Himmelblau {
    open spec fn value(&self, p: Vector) -> int {
        himmelblau(p)
    }

    fn evaluate(&self, p: Vector) -> (r: i128) {
        let x = p.x as i128;
        let y = p.y as i128;
        proof {
            lemma_mul_bound(x as int, x as int, 1_000_000_000_000, 1_000_000_000_000);
            lemma_mul_bound(y as int, y as int, 1_000_000_000_000, 1_000_000_000_000);
            lemma_square_term(x as int, y as int, 11 * ONE);
            lemma_square_term(y as int, x as int, 7 * ONE);
        }
        let a = mul_fx(x, x) + y - 11 * (ONE as i128);
        let b = x + mul_fx(y, y) - 7 * (ONE as i128);
        proof {
            lemma_square_cost(a as int);
            lemma_square_cost(b as int);
        }
        mul_fx(a, a) + mul_fx(b, b)
    }
}

} // verus!
