use vstd::prelude::*;
use vstd::arithmetic::div_mod::{
    lemma_div_is_ordered, lemma_div_pos_is_pos, lemma_fundamental_div_mod,
    lemma_fundamental_div_mod_converse_div, lemma_mod_division_less_than_divisor,
};
use vstd::arithmetic::mul::{
    lemma_mul_inequality, lemma_mul_is_commutative, lemma_mul_is_distributive_add,
    lemma_mul_nonnegative,
};

verus! {

// Both calendar engines count days in nested cycles (4-year cycles, centuries,
// 5-month runs), where slot `y` of a cycle starts at day `(a * y + c) / b` for
// fixed constants `a`, `b`, `c`.  The two lemmas below relate a slot number to
// the days it spans, in both directions.

/// A day `e` lying in the span of slot `y` determines `y` by one division.
pub(crate) proof fn lemma_cycle_extract(a: int, b: int, c: int, y: int, e: int)
    requires
        1 <= a,
        1 <= b,
        0 <= c < b,
        c < a,
        0 <= y,
        (a * y + c) / b <= e,
        e < (a * (y + 1) + c) / b,
    ensures
        (b * e + b - 1 - c) / a == y,
{
    let x = a * y + c;
    lemma_mul_nonnegative(a, y);
    lemma_fundamental_div_mod(x, b);
    lemma_mod_division_less_than_divisor(x, b);
    lemma_mul_inequality(x / b, e, b);
    lemma_mul_is_commutative(x / b, b);
    lemma_mul_is_commutative(e, b);
    assert(a * y <= b * e + b - 1 - c);
    let z = a * (y + 1) + c;
    lemma_mul_is_distributive_add(a, y, 1);
    lemma_fundamental_div_mod(z, b);
    lemma_mod_division_less_than_divisor(z, b);
    lemma_mul_inequality(e + 1, z / b, b);
    lemma_mul_is_commutative(z / b, b);
    lemma_mul_is_commutative(e + 1, b);
    lemma_mul_is_distributive_add(b, e, 1);
    assert(b * e + b - 1 - c < a * y + a);
    let w = b * e + b - 1 - c;
    lemma_mul_is_commutative(y, a);
    lemma_fundamental_div_mod_converse_div(w, a, y, w - a * y);
}

/// The slot computed from day `e` by that division does span `e`.
pub(crate) proof fn lemma_cycle_bounds(a: int, b: int, c: int, e: int)
    requires
        1 <= a,
        1 <= b,
        0 <= c < b,
        c < a,
        0 <= e,
    ensures
        ({
            let y = (b * e + b - 1 - c) / a;
            0 <= y && (a * y + c) / b <= e && e < (a * (y + 1) + c) / b
        }),
{
    let w = b * e + b - 1 - c;
    lemma_mul_nonnegative(b, e);
    let y = w / a;
    lemma_div_pos_is_pos(w, a);
    lemma_fundamental_div_mod(w, a);
    lemma_mod_division_less_than_divisor(w, a);
    assert(a * y + c <= b * e + b - 1);
    lemma_div_is_ordered(a * y + c, b * e + b - 1, b);
    lemma_mul_is_commutative(e, b);
    lemma_fundamental_div_mod_converse_div(b * e + b - 1, b, e, b - 1);
    lemma_mul_is_distributive_add(a, y, 1);
    lemma_mul_is_distributive_add(b, e, 1);
    assert(b * (e + 1) <= a * (y + 1) + c);
    lemma_div_is_ordered(b * (e + 1), a * (y + 1) + c, b);
    lemma_mul_is_commutative(e + 1, b);
    lemma_fundamental_div_mod_converse_div(b * (e + 1), b, e + 1, 0);
}

} // verus!
