//! Facts of arithmetic modulo the order of the scalar field.

use crate::scalar::modulus;
use vstd::arithmetic::div_mod::{
    lemma_add_mod_noop, lemma_mod_twice, lemma_mul_mod_noop, lemma_mul_mod_noop_right,
    lemma_small_mod, lemma_sub_mod_noop,
};
use vstd::arithmetic::power::{lemma_pow0, pow};
use vstd::prelude::*;

verus! {

/// Whether `r` is the representative of the multiplicative inverse of `a`.
pub open spec fn is_inverse(a: int, r: int) -> bool {
    0 <= r < modulus() && (a * r) % modulus() == 1
}

/// The representative of the multiplicative inverse of `a`, where `a` has one.
pub open spec fn field_inverse(a: int) -> int {
    choose|r: int| is_inverse(a, r)
}

/// Whether two integers stand for the same element of the field.
pub open spec fn congruent(a: int, b: int) -> bool {
    a % modulus() == b % modulus()
}

/// An integer and its residue stand for the same element.
pub proof fn lemma_congruent_mod(a: int)
    ensures
        congruent(a % modulus(), a),
        0 <= a % modulus() < modulus(),
{
    lemma_mod_twice(a, modulus());
}

/// Sums of congruent integers are congruent.
pub proof fn lemma_congruent_add(a: int, b: int, c: int, d: int)
    requires
        congruent(a, b),
        congruent(c, d),
    ensures
        congruent(a + c, b + d),
{
    lemma_add_mod_noop(a, c, modulus());
    lemma_add_mod_noop(b, d, modulus());
}

/// Differences of congruent integers are congruent.
pub proof fn lemma_congruent_sub(a: int, b: int, c: int, d: int)
    requires
        congruent(a, b),
        congruent(c, d),
    ensures
        congruent(a - c, b - d),
{
    lemma_sub_mod_noop(a, c, modulus());
    lemma_sub_mod_noop(b, d, modulus());
}

/// Products of congruent integers are congruent.
pub proof fn lemma_congruent_mul(a: int, b: int, c: int, d: int)
    requires
        congruent(a, b),
        congruent(c, d),
    ensures
        congruent(a * c, b * d),
{
    lemma_mul_mod_noop(a, c, modulus());
    lemma_mul_mod_noop(b, d, modulus());
}

/// Two integers of the range of the field that are congruent are equal.
pub proof fn lemma_congruent_equal(a: int, b: int)
    requires
        0 <= a < modulus(),
        0 <= b < modulus(),
        congruent(a, b),
    ensures
        a == b,
{
    lemma_small_mod(a as nat, modulus() as nat);
    lemma_small_mod(b as nat, modulus() as nat);
}

/// The next power of `x`, from the residue of the one before.
pub proof fn lemma_pow_step(x: int, i: nat)
    ensures
        pow(x, 0) % modulus() == 1,
        ((pow(x, i) % modulus()) * x) % modulus() == pow(x, i + 1) % modulus(),
{
    lemma_pow0(x);
    lemma_small_mod(1, modulus() as nat);
    reveal(pow);
    assert(pow(x, i + 1) == x * pow(x, i));
    lemma_mul_mod_noop(pow(x, i), x, modulus());
    lemma_mul_mod_noop(pow(x, i) % modulus(), x, modulus());
    lemma_mod_twice(pow(x, i), modulus());
    assert(pow(x, i) * x == x * pow(x, i)) by (nonlinear_arith);
}

/// An element has at most one inverse.
pub proof fn lemma_inverse_unique(a: int, r: int)
    requires
        0 <= r < modulus(),
        (a * r) % modulus() == 1,
    ensures
        field_inverse(a) == r,
{
    let m = modulus();
    assert(is_inverse(a, r));
    let s = field_inverse(a);
    assert(is_inverse(a, s));
    lemma_mul_mod_noop_right(r, a * s, m);
    lemma_mul_mod_noop_right(s, a * r, m);
    assert(r * (a * s) == s * (a * r)) by (nonlinear_arith);
    assert(r * 1 == r && s * 1 == s);
    lemma_small_mod(r as nat, m as nat);
    lemma_small_mod(s as nat, m as nat);
}

/// Multiplying by `a` undoes a multiplication by its inverse.
pub proof fn lemma_inverse_cancels(x: int, a: int, inverse: int)
    requires
        (a * inverse) % modulus() == 1,
    ensures
        (a * ((x * inverse) % modulus())) % modulus() == x % modulus(),
{
    let m = modulus();
    lemma_mul_mod_noop_right(a, x * inverse, m);
    assert(a * (x * inverse) == x * (a * inverse)) by (nonlinear_arith);
    lemma_mul_mod_noop_right(x, a * inverse, m);
    assert(x * 1 == x);
}

} // verus!
