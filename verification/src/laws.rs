//! What holds of the scheme as a whole.

use crate::algebra::{
    congruent, lemma_congruent_add, lemma_congruent_equal, lemma_congruent_mod,
    lemma_congruent_mul, lemma_congruent_sub,
};
use crate::evaluation::eval_int;
use crate::kzg::{commitment_of, g1_exponents, pairing_equation, weighted_sum, PublicParams};
use crate::opening::{
    lemma_opening_law, lemma_opening_remainder, opening_quotient, opening_remainder,
};
use crate::polynomial::{add_spec, eval_sum, poly_eval};
use crate::scalar::modulus;
use vstd::arithmetic::power::{lemma_pow1, pow};
use vstd::prelude::*;

verus! {

/// Under points that are the powers of `secret`, the sum over the first `n`
/// indices is the polynomial's sum at `secret`, in the field.
proof fn lemma_weighted_sum_is_value(points: Seq<int>, coeffs: Seq<int>, secret: int, n: nat)
    requires
        n <= points.len(),
        n <= coeffs.len(),
        forall|i: int| 0 <= i < n ==> points[i] == pow(secret, i as nat) % modulus(),
    ensures
        congruent(weighted_sum(points, coeffs, n), eval_sum(coeffs, secret, n)),
    decreases n,
{
    if n > 0 {
        let k = n - 1;
        lemma_weighted_sum_is_value(points, coeffs, secret, k as nat);
        lemma_congruent_mod(pow(secret, k as nat));
        lemma_congruent_mul(points[k], pow(secret, k as nat), coeffs[k], coeffs[k]);
        assert(pow(secret, k as nat) * coeffs[k] == coeffs[k] * pow(secret, k as nat))
            by (nonlinear_arith);
        lemma_congruent_add(
            weighted_sum(points, coeffs, k as nat),
            eval_sum(coeffs, secret, k as nat),
            points[k] * coeffs[k],
            coeffs[k] * pow(secret, k as nat),
        );
    }
}

/// The commitment to a polynomial under the parameters of a setup is the
/// polynomial's value at the setup's secret, as an exponent.
pub proof fn lemma_commitment_is_value(pp: PublicParams, secret: int, coeffs: Seq<int>)
    requires
        pp.derived_from(secret),
        coeffs.len() == pp.n,
    ensures
        commitment_of(g1_exponents(pp.g1_elements@), coeffs) == poly_eval(coeffs, secret),
{
    lemma_weighted_sum_is_value(g1_exponents(pp.g1_elements@), coeffs, secret, coeffs.len());
}

/// With both generators at exponent one, the equation of `verify` says that
/// `point * (s - z)` and `commitment - y` are the same element of the field.
pub proof fn lemma_pairing_equation(s_2: int, point: int, z: int, y: int, commitment: int)
    ensures
        pairing_equation(1, 1, s_2, point, z, y, commitment) <==> congruent(
            point * (s_2 - z),
            commitment - y,
        ),
{
    let m = modulus();
    assert(1 * z == z && 1 * y == y);
    lemma_congruent_mod(z);
    lemma_congruent_mod(y);
    lemma_congruent_sub(s_2, s_2, z % m, z);
    lemma_congruent_mod(s_2 - z % m);
    lemma_congruent_mul(point, point, (s_2 - z % m) % m, s_2 - z);
    lemma_congruent_sub(commitment, commitment, y % m, y);
    lemma_congruent_mod(commitment - y % m);
    assert(((commitment - y % m) % m) * 1 == (commitment - y % m) % m);
}

/// What the honest witness and commitment stand for in the equation of
/// `verify`: the two sides that are compared are the quotient's value at the
/// secret times `secret - z`, and the polynomial's value at the secret less
/// the claimed value.
proof fn lemma_equation_of_opening(pp: PublicParams, secret: int, p: Seq<int>, z: int, y: int)
    requires
        pp.derived_from(secret),
        pp.n >= 2,
        p.len() == pp.n,
    ensures
        pairing_equation(
            pp.gen1@,
            pp.gen2@,
            pp.g2_elements@[1]@,
            commitment_of(
                g1_exponents(pp.g1_elements@),
                opening_quotient(p, z, poly_eval(p, z)),
            ),
            z,
            y,
            commitment_of(g1_exponents(pp.g1_elements@), p),
        ) <==> congruent(poly_eval(p, z), y),
{
    let value = poly_eval(p, z);
    let quotient = opening_quotient(p, z, value);
    let point = commitment_of(g1_exponents(pp.g1_elements@), quotient);
    let commitment = commitment_of(g1_exponents(pp.g1_elements@), p);
    let s_2 = pp.g2_elements@[1]@;
    lemma_opening_law(p, z, value, secret);
    lemma_congruent_mod(eval_int(p, z));
    lemma_opening_remainder(p, z, value);
    assert(opening_remainder(p, z, value)[0] == 0);
    lemma_commitment_is_value(pp, secret, quotient);
    lemma_commitment_is_value(pp, secret, p);
    lemma_pairing_equation(s_2, point, z, y, commitment);
    lemma_pow1(secret);
    lemma_congruent_mod(secret);
    lemma_congruent_mod(eval_int(quotient, secret));
    lemma_congruent_mod(eval_int(p, secret));
    // The left side is the quotient's value times `secret - z`.
    lemma_congruent_sub(s_2, secret, z, z);
    lemma_congruent_mul(point, eval_int(quotient, secret), s_2 - z, secret - z);
    // Which is the polynomial's value less its value at `z`.
    assert(congruent(point * (s_2 - z), eval_int(p, secret) - value));
    // The right side is the polynomial's value less the claimed one.
    lemma_congruent_sub(commitment, eval_int(p, secret), y, y);
    if congruent(point * (s_2 - z), commitment - y) {
        lemma_congruent_sub(
            eval_int(p, secret),
            eval_int(p, secret),
            eval_int(p, secret) - value,
            eval_int(p, secret) - y,
        );
    }
    if congruent(value, y) {
        lemma_congruent_sub(eval_int(p, secret), eval_int(p, secret), value, y);
    }
}

/// Completeness: the witness that `create_witness` makes for a polynomial
/// of the parameters' length at any point passes `verify` against the
/// polynomial's commitment.
pub proof fn lemma_completeness(pp: PublicParams, p: Seq<int>, z: int)
    requires
        exists|secret: int| pp.derived_from(secret),
        pp.n >= 2,
        p.len() == pp.n,
    ensures
        pairing_equation(
            pp.gen1@,
            pp.gen2@,
            pp.g2_elements@[1]@,
            commitment_of(
                g1_exponents(pp.g1_elements@),
                opening_quotient(p, z, poly_eval(p, z)),
            ),
            z,
            poly_eval(p, z),
            commitment_of(g1_exponents(pp.g1_elements@), p),
        ),
{
    let secret = choose|secret: int| pp.derived_from(secret);
    lemma_equation_of_opening(pp, secret, p, z, poly_eval(p, z));
}

/// Tamper rejection: with any other value in place of the polynomial's
/// value at `z`, the witness fails `verify`.
pub proof fn lemma_tamper_rejection(pp: PublicParams, p: Seq<int>, z: int, y: int)
    requires
        exists|secret: int| pp.derived_from(secret),
        pp.n >= 2,
        p.len() == pp.n,
        0 <= y < modulus(),
        y != poly_eval(p, z),
    ensures
        !pairing_equation(
            pp.gen1@,
            pp.gen2@,
            pp.g2_elements@[1]@,
            commitment_of(
                g1_exponents(pp.g1_elements@),
                opening_quotient(p, z, poly_eval(p, z)),
            ),
            z,
            y,
            commitment_of(g1_exponents(pp.g1_elements@), p),
        ),
{
    let secret = choose|secret: int| pp.derived_from(secret);
    lemma_equation_of_opening(pp, secret, p, z, y);
    lemma_congruent_mod(eval_int(p, z));
    if congruent(poly_eval(p, z), y) {
        lemma_congruent_equal(poly_eval(p, z), y);
    }
}

/// The sum over the first `n` indices of a sum of polynomials is the sum of
/// the two sums, in the field.
proof fn lemma_weighted_sum_additive(points: Seq<int>, a: Seq<int>, b: Seq<int>, n: nat)
    requires
        a.len() == b.len(),
        n <= a.len(),
    ensures
        congruent(
            weighted_sum(points, add_spec(a, b), n),
            weighted_sum(points, a, n) + weighted_sum(points, b, n),
        ),
    decreases n,
{
    if n > 0 {
        let k = n - 1;
        lemma_weighted_sum_additive(points, a, b, k as nat);
        assert(add_spec(a, b)[k] == (a[k] + b[k]) % modulus());
        lemma_congruent_mod(a[k] + b[k]);
        lemma_congruent_mul(points[k], points[k], add_spec(a, b)[k], a[k] + b[k]);
        assert(points[k] * (a[k] + b[k]) == points[k] * a[k] + points[k] * b[k])
            by (nonlinear_arith);
        lemma_congruent_add(
            weighted_sum(points, add_spec(a, b), k as nat),
            weighted_sum(points, a, k as nat) + weighted_sum(points, b, k as nat),
            points[k] * add_spec(a, b)[k],
            points[k] * a[k] + points[k] * b[k],
        );
    }
}

/// Homomorphism: the sum of the commitments to two polynomials of the same
/// length is the commitment to their sum.
pub proof fn lemma_commit_additive(points: Seq<int>, a: Seq<int>, b: Seq<int>)
    requires
        a.len() == b.len(),
    ensures
        (commitment_of(points, a) + commitment_of(points, b)) % modulus() == commitment_of(
            points,
            add_spec(a, b),
        ),
{
    let n: nat = if points.len() <= a.len() {
        points.len()
    } else {
        a.len()
    };
    lemma_weighted_sum_additive(points, a, b, n);
    lemma_congruent_mod(weighted_sum(points, a, n));
    lemma_congruent_mod(weighted_sum(points, b, n));
    lemma_congruent_add(
        commitment_of(points, a),
        weighted_sum(points, a, n),
        commitment_of(points, b),
        weighted_sum(points, b, n),
    );
}

} // verus!
