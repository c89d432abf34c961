use vstd::prelude::*;

use vstd::arithmetic::div_mod::{
    lemma_div_by_multiple, lemma_div_is_ordered, lemma_div_multiples_vanish_fancy,
    lemma_fundamental_div_mod, lemma_mod_division_less_than_divisor,
};
use vstd::arithmetic::mul::{lemma_mul_inequality, lemma_mul_nonnegative};

verus! {

/// Flooring division almost distributes over addition: splitting a
/// numerator costs at most one unit of quotient.
pub proof fn lemma_floor_sum_bounds(x: int, y: int, d: int)
    requires
        x >= 0,
        y >= 0,
        d > 0,
    ensures
        x / d + y / d <= (x + y) / d,
        (x + y) / d <= x / d + y / d + 1,
{
    let q1 = x / d;
    let r1 = x % d;
    let q2 = y / d;
    let r2 = y % d;
    lemma_fundamental_div_mod(x, d);
    lemma_fundamental_div_mod(y, d);
    lemma_mod_division_less_than_divisor(x, d);
    lemma_mod_division_less_than_divisor(y, d);
    if r1 + r2 < d {
        assert(d * (q1 + q2) == d * q1 + d * q2) by (nonlinear_arith);
        assert(x + y == d * (q1 + q2) + (r1 + r2));
        lemma_div_multiples_vanish_fancy(q1 + q2, r1 + r2, d);
        assert((x + y) / d == q1 + q2);
    } else {
        assert(d * (q1 + q2 + 1) == d * q1 + d * q2 + d) by (nonlinear_arith);
        assert(x + y == d * (q1 + q2 + 1) + (r1 + r2 - d));
        lemma_div_multiples_vanish_fancy(q1 + q2 + 1, r1 + r2 - d, d);
        assert((x + y) / d == q1 + q2 + 1);
    }
}

/// A product scaled down by a divisor at least as large as one factor is
/// bounded by the other factor: `a * s / d <= a` when `0 <= s <= d`.
pub proof fn lemma_scaled_part_le(a: int, s: int, d: int)
    requires
        a >= 0,
        0 <= s <= d,
        d > 0,
    ensures
        0 <= a * s / d <= a,
{
    lemma_mul_nonnegative(a, s);
    lemma_mul_inequality(s, d, a);
    assert(s * a == a * s) by (nonlinear_arith);
    assert(d * a == a * d) by (nonlinear_arith);
    lemma_div_is_ordered(a * s, a * d, d);
    lemma_div_by_multiple(a, d);
    assert(a * s / d >= 0) by {
        lemma_div_is_ordered(0, a * s, d);
    }
}

} // verus!
