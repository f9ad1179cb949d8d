//! The division behind an opening proof: `p(x) - y` by `x - z`.

use crate::algebra::{
    congruent, lemma_congruent_add, lemma_congruent_mod, lemma_congruent_mul,
    lemma_congruent_sub,
};
use crate::division::{divide_spec, division_defined, lemma_division_law};
use crate::evaluation::{
    eval_int, lemma_eval_constant, lemma_eval_linear, lemma_eval_sum_update,
    lemma_eval_sum_zero_tail,
};
use crate::polynomial::{
    degree_of, is_zero_poly, lemma_degree_of, lemma_degree_unique, poly_eval, zero_poly,
};
use crate::scalar::modulus;
use vstd::arithmetic::div_mod::lemma_small_mod;
use vstd::arithmetic::power::lemma_pow0;
use vstd::prelude::*;

verus! {

/// The polynomial `p(x) - y`: `p` with its constant term reduced by `y`.
pub open spec fn opening_numerator(p: Seq<int>, y: int) -> Seq<int> {
    p.update(0, (p[0] - y) % modulus())
}

/// The polynomial `x - z`, held in the given length.
pub open spec fn opening_divisor(len: nat, z: int) -> Seq<int> {
    Seq::new(
        len,
        |i: int|
            if i == 0 {
                (0 - z) % modulus()
            } else if i == 1 {
                1
            } else {
                0
            },
    )
}

/// The quotient of `p(x) - y` by `x - z`, of the length of `p`.
pub open spec fn opening_quotient(p: Seq<int>, z: int, y: int) -> Seq<int> {
    divide_spec(
        opening_numerator(p, y),
        opening_divisor(p.len() + 1, z),
        zero_poly(p.len()),
    ).0
}

/// The remainder of `p(x) - y` by `x - z`.
pub open spec fn opening_remainder(p: Seq<int>, z: int, y: int) -> Seq<int> {
    divide_spec(
        opening_numerator(p, y),
        opening_divisor(p.len() + 1, z),
        zero_poly(p.len()),
    ).1
}

/// The divisor `x - z` has degree one and the value `x - z`, and the
/// division of `p(x) - y` by it is defined.
pub proof fn lemma_opening_divisor(p: Seq<int>, z: int, y: int, x: int)
    requires
        p.len() >= 1,
    ensures
        degree_of(opening_divisor(p.len() + 1, z)) == Some(1nat),
        !is_zero_poly(opening_divisor(p.len() + 1, z)),
        congruent(eval_int(opening_divisor(p.len() + 1, z), x), x - z),
        division_defined(opening_numerator(p, y), opening_divisor(p.len() + 1, z), p.len()),
{
    let divisor = opening_divisor(p.len() + 1, z);
    let numerator = opening_numerator(p, y);
    assert(divisor[1] == 1);
    lemma_degree_unique(divisor, 1);
    lemma_degree_of(divisor);
    lemma_degree_of(numerator);
    lemma_eval_linear(divisor, x);
    assert(1 * x == x);
    lemma_congruent_mod(0 - z);
    lemma_congruent_add((0 - z) % modulus(), 0 - z, x, x);
}

/// The law of the opening: at every point `x`, `p(x) - y` is the quotient's
/// value times `x - z`, plus the remainder, which is a constant.
pub proof fn lemma_opening_law(p: Seq<int>, z: int, y: int, x: int)
    requires
        p.len() >= 1,
    ensures
        opening_quotient(p, z, y).len() == p.len(),
        opening_remainder(p, z, y).len() >= 1,
        0 <= opening_remainder(p, z, y)[0] < modulus(),
        forall|k: int|
            1 <= k < opening_remainder(p, z, y).len() ==> #[trigger] opening_remainder(p, z, y)[k]
                == 0,
        congruent(
            eval_int(p, x) - y,
            eval_int(opening_quotient(p, z, y), x) * (x - z) + opening_remainder(p, z, y)[0],
        ),
{
    let numerator = opening_numerator(p, y);
    let divisor = opening_divisor(p.len() + 1, z);
    let start = zero_poly(p.len());
    let quotient = opening_quotient(p, z, y);
    let rest = opening_remainder(p, z, y);
    lemma_opening_divisor(p, z, y, x);
    lemma_small_mod(1, modulus() as nat);
    assert(divisor[1] * 1 == 1);
    lemma_congruent_mod(p[0] - y);
    lemma_division_law(numerator, divisor, start, 1, x);
    lemma_eval_sum_zero_tail(start, x, 0, start.len());
    lemma_eval_constant(rest, x);
    // The numerator's value is that of `p`, less `y`.
    lemma_eval_sum_update(p, 0, (p[0] - y) % modulus(), x, p.len());
    lemma_pow0(x);
    let shift = (p[0] - y) % modulus() - p[0];
    assert(shift * 1 == shift);
    assert(eval_int(numerator, x) == eval_int(p, x) + shift);
    lemma_congruent_sub((p[0] - y) % modulus(), p[0] - y, p[0], p[0]);
    lemma_congruent_add(eval_int(p, x), eval_int(p, x), shift, 0 - y);
    // The divisor's value is `x - z`.
    let value_q = eval_int(quotient, x);
    assert((value_q - 0) * eval_int(divisor, x) == value_q * eval_int(divisor, x));
    lemma_congruent_mul(value_q, value_q, eval_int(divisor, x), x - z);
    lemma_congruent_add(
        value_q * eval_int(divisor, x),
        value_q * (x - z),
        eval_int(rest, x),
        rest[0],
    );
}

/// The remainder of the opening is zero exactly where `y` is the value of
/// `p` at `z`.
pub proof fn lemma_opening_remainder(p: Seq<int>, z: int, y: int)
    requires
        p.len() >= 1,
        0 <= y < modulus(),
    ensures
        is_zero_poly(opening_remainder(p, z, y)) <==> y == poly_eval(p, z),
{
    let rest = opening_remainder(p, z, y);
    lemma_opening_law(p, z, y, z);
    let value_q = eval_int(opening_quotient(p, z, y), z);
    assert(value_q * (z - z) == 0) by (nonlinear_arith);
    lemma_congruent_mod(eval_int(p, z));
    lemma_small_mod(y as nat, modulus() as nat);
    lemma_small_mod(rest[0] as nat, modulus() as nat);
    lemma_small_mod(0, modulus() as nat);
    if y == poly_eval(p, z) {
        lemma_congruent_sub(eval_int(p, z), y, y, y);
        assert(rest[0] == 0);
    }
    if is_zero_poly(rest) {
        assert(rest[0] == 0);
        lemma_congruent_sub(eval_int(p, z), eval_int(p, z), eval_int(p, z) - y, 0);
    }
}

} // verus!
