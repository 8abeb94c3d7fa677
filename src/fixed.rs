use vstd::prelude::*;
use vstd::arithmetic::div_mod::{
    lemma_div_nonincreasing, lemma_div_pos_is_pos, lemma_fundamental_div_mod, lemma_mod_pos_bound,
};

verus! {

/// Fixed-point units per plane unit: a plane coordinate `c` is held as the
/// integer `c * SCALE`, truncated.
pub const SCALE: i64 = 4294967296;

/// Division rounding toward zero, the rounding of Rust's integer `/`.
pub open spec fn trunc_div(a: int, b: int) -> int {
    if a >= 0 {
        a / b
    } else {
        -((-a) / b)
    }
}

/// Whether an integer fits in an `i64`.
pub open spec fn fits_i64(a: int) -> bool {
    i64::MIN <= a <= i64::MAX
}

/// Truncating division by a positive divisor never grows the magnitude.
pub proof fn lemma_trunc_div_shrinks(a: int, b: int)
    requires
        b >= 1,
    ensures
        a >= 0 ==> 0 <= trunc_div(a, b) <= a,
        a < 0 ==> a <= trunc_div(a, b) <= 0,
{
    if a >= 0 {
        lemma_div_pos_is_pos(a, b);
        lemma_div_nonincreasing(a, b);
    } else {
        lemma_div_pos_is_pos(-a, b);
        lemma_div_nonincreasing(-a, b);
    }
}

/// Truncating division by a positive divisor is off by less than one divisor:
/// the quotient times the divisor lies between zero and the dividend, and
/// within `b` of it.
pub proof fn lemma_trunc_div_error(a: int, b: int)
    requires
        b >= 1,
    ensures
        a >= 0 ==> 0 <= a - trunc_div(a, b) * b < b,
        a < 0 ==> 0 <= trunc_div(a, b) * b - a < b,
{
    if a >= 0 {
        lemma_fundamental_div_mod(a, b);
        lemma_mod_pos_bound(a, b);
        assert(a == b * (a / b) + a % b);
        assert(trunc_div(a, b) * b == b * (a / b)) by (nonlinear_arith)
            requires
                trunc_div(a, b) == a / b,
        ;
    } else {
        lemma_fundamental_div_mod(-a, b);
        lemma_mod_pos_bound(-a, b);
        assert(-a == b * ((-a) / b) + (-a) % b);
        assert(trunc_div(a, b) * b == -(b * ((-a) / b))) by (nonlinear_arith)
            requires
                trunc_div(a, b) == -((-a) / b),
        ;
    }
}

} // verus!
