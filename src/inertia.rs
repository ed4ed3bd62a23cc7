//! The inertia weight's schedule: multiplied by `beta` after every step, and
//! never below a floor.
use vstd::prelude::*;
use crate::fixed::{fx_mul, in_range, lemma_fx_mul_bound, mul_fx, saturate, saturate_wide, ONE};

verus! {

/// `max(w * beta, floor)`, saturated to the stored range.
pub open spec fn decayed(w: int, beta: int, floor: int) -> int {
    let d = fx_mul(w, beta);
    saturate(
        if d < floor {
            floor
        } else {
            d
        },
    )
}

/// The weight after `n` decay steps from `w`.
pub open spec fn decayed_times(w: int, beta: int, floor: int, n: nat) -> int
    decreases n,
{
    if n == 0 {
        w
    } else {
        decayed(decayed_times(w, beta, floor, (n - 1) as nat), beta, floor)
    }
}

/// Applies one decay step to the inertia weight.
pub fn decay_inertia(w: i64, beta: i64, floor: i64) -> (r: i64)
    requires
        in_range(w as int),
        in_range(beta as int),
        in_range(floor as int),
    ensures
        r == decayed(w as int, beta as int, floor as int),
        in_range(r as int),
{
    proof {
        lemma_fx_mul_bound(w as int, beta as int, 1_000_000_000_000, 1_000_000_000_000);
    }
    let d = mul_fx(w as i128, beta as i128);
    if d < floor as i128 {
        saturate_wide(floor as i128)
    } else {
        saturate_wide(d)
    }
}

/// After one or more decay steps the weight is never below the floor.
pub proof fn lemma_inertia_at_least_floor(w: int, beta: int, floor: int, n: nat)
    requires
        n >= 1,
        in_range(floor),
    ensures
        decayed_times(w, beta, floor, n) >= floor,
{
    assert(decayed_times(w, beta, floor, n) == decayed(
        decayed_times(w, beta, floor, (n - 1) as nat),
        beta,
        floor,
    ));
}

/// With a multiplier in `[0, 1]` and a non-negative floor, the weight never
/// increases from one decay step to the next once a step has been applied,
/// and once it equals the floor it stays there.
pub proof fn lemma_inertia_non_increasing(w: int, beta: int, floor: int, n: nat)
    requires
        n >= 1,
        0 <= floor,
        in_range(floor),
        0 <= beta <= ONE,
    ensures
        decayed_times(w, beta, floor, n + 1) <= decayed_times(w, beta, floor, n),
        decayed_times(w, beta, floor, n) == floor ==> decayed_times(w, beta, floor, n + 1)
            == floor,
{
    let u = decayed_times(w, beta, floor, n);
    lemma_inertia_at_least_floor(w, beta, floor, n);
    assert(decayed_times(w, beta, floor, n + 1) == decayed(u, beta, floor));
    assert(u * beta <= u * ONE) by (nonlinear_arith)
        requires
            u >= 0,
            0 <= beta <= ONE,
    ;
    vstd::arithmetic::div_mod::lemma_div_is_ordered(u * beta, u * ONE, ONE as int);
    vstd::arithmetic::div_mod::lemma_div_multiples_vanish(u, ONE as int);
}

} // verus!
