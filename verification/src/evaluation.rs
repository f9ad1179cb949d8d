//! How the value of a polynomial at a point follows its coefficients.

use crate::algebra::{congruent, lemma_congruent_add, lemma_congruent_mod, lemma_congruent_mul};
use crate::polynomial::{coeff_at, eval_sum, sub_spec};
use crate::scalar::modulus;
use vstd::arithmetic::power::{lemma_pow0, lemma_pow1, pow};
use vstd::prelude::*;

verus! {

/// The value at `x` as an integer, before it is reduced into the field.
pub open spec fn eval_int(p: Seq<int>, x: int) -> int {
    eval_sum(p, x, p.len())
}

/// The polynomial brought to the length `len` by zeros at its end.
pub open spec fn extend(p: Seq<int>, len: nat) -> Seq<int> {
    Seq::new(len, |i: int| coeff_at(p, i))
}

/// Coefficients that are zero add nothing to the value.
pub proof fn lemma_eval_sum_zero_tail(p: Seq<int>, x: int, from: nat, to: nat)
    requires
        from <= to,
        forall|k: int| from <= k < to ==> p[k] == 0,
    ensures
        eval_sum(p, x, to) == eval_sum(p, x, from),
    decreases to,
{
    if from < to {
        lemma_eval_sum_zero_tail(p, x, from, (to - 1) as nat);
        assert(p[to - 1] * pow(x, (to - 1) as nat) == 0) by (nonlinear_arith)
            requires
                p[to - 1] == 0,
        ;
    }
}

/// Polynomials with the same first `n` coefficients have the same sum over them.
pub proof fn lemma_eval_sum_same(p: Seq<int>, q: Seq<int>, x: int, n: nat)
    requires
        forall|k: int| 0 <= k < n ==> p[k] == q[k],
    ensures
        eval_sum(p, x, n) == eval_sum(q, x, n),
    decreases n,
{
    if n > 0 {
        lemma_eval_sum_same(p, q, x, (n - 1) as nat);
    }
}

/// Zeros at the end leave the value as it is.
pub proof fn lemma_eval_extend(p: Seq<int>, len: nat, x: int)
    requires
        p.len() <= len,
    ensures
        eval_int(extend(p, len), x) == eval_int(p, x),
{
    lemma_eval_sum_zero_tail(extend(p, len), x, p.len(), len);
    lemma_eval_sum_same(extend(p, len), p, x, p.len());
}

/// A new coefficient at `i` changes the value by the change of the
/// coefficient times `x^i`.
pub proof fn lemma_eval_sum_update(p: Seq<int>, i: int, v: int, x: int, n: nat)
    requires
        0 <= i < p.len(),
        n <= p.len(),
    ensures
        eval_sum(p.update(i, v), x, n) == eval_sum(p, x, n) + (if i < n {
            (v - p[i]) * pow(x, i as nat)
        } else {
            0
        }),
    decreases n,
{
    if n > 0 {
        lemma_eval_sum_update(p, i, v, x, (n - 1) as nat);
        if i == n - 1 {
            assert(v * pow(x, i as nat) == p[i] * pow(x, i as nat) + (v - p[i]) * pow(x, i as nat))
                by (nonlinear_arith);
        }
    }
}

/// The value of a difference is the difference of the values, in the field.
pub proof fn lemma_eval_sub(a: Seq<int>, b: Seq<int>, x: int)
    ensures
        congruent(eval_int(sub_spec(a, b), x), eval_int(a, x) - eval_int(b, x)),
{
    let len = sub_spec(a, b).len();
    lemma_eval_sub_prefix(a, b, x, len);
    lemma_eval_extend(a, len, x);
    lemma_eval_extend(b, len, x);
}

/// The sum over the first `n` coefficients of a difference is the
/// difference of the sums, in the field.
proof fn lemma_eval_sub_prefix(a: Seq<int>, b: Seq<int>, x: int, n: nat)
    requires
        n <= sub_spec(a, b).len(),
    ensures
        congruent(
            eval_sum(sub_spec(a, b), x, n),
            eval_sum(extend(a, sub_spec(a, b).len()), x, n) - eval_sum(
                extend(b, sub_spec(a, b).len()),
                x,
                n,
            ),
        ),
    decreases n,
{
    if n > 0 {
        let len = sub_spec(a, b).len();
        let k = n - 1;
        let w = pow(x, k as nat);
        lemma_eval_sub_prefix(a, b, x, k as nat);
        let ca = coeff_at(a, k);
        let cb = coeff_at(b, k);
        assert(sub_spec(a, b)[k] == (ca - cb) % modulus());
        lemma_congruent_mod(ca - cb);
        lemma_congruent_mul((ca - cb) % modulus(), ca - cb, w, w);
        assert((ca - cb) * w == ca * w - cb * w) by (nonlinear_arith);
        lemma_congruent_add(
            eval_sum(sub_spec(a, b), x, k as nat),
            eval_sum(extend(a, len), x, k as nat) - eval_sum(extend(b, len), x, k as nat),
            sub_spec(a, b)[k] * w,
            ca * w - cb * w,
        );
    }
}

/// The value of `c0 + c1 x`, held with zeros above.
pub proof fn lemma_eval_linear(p: Seq<int>, x: int)
    requires
        p.len() >= 2,
        forall|k: int| 2 <= k < p.len() ==> p[k] == 0,
    ensures
        eval_int(p, x) == p[0] + p[1] * x,
{
    lemma_eval_sum_zero_tail(p, x, 2, p.len());
    reveal_with_fuel(eval_sum, 3);
    lemma_pow0(x);
    lemma_pow1(x);
    assert(p[0] * 1 == p[0]);
}

/// The value of a polynomial whose coefficients above the first are zero.
pub proof fn lemma_eval_constant(p: Seq<int>, x: int)
    requires
        forall|k: int| 1 <= k < p.len() ==> p[k] == 0,
    ensures
        eval_int(p, x) == coeff_at(p, 0),
{
    if p.len() >= 1 {
        lemma_eval_sum_zero_tail(p, x, 1, p.len());
        reveal_with_fuel(eval_sum, 2);
        lemma_pow0(x);
        assert(p[0] * 1 == p[0]);
    }
}

/// The value of a polynomial with two coefficients next to each other and
/// zeros elsewhere.
pub proof fn lemma_eval_two_terms(p: Seq<int>, slot: int, x: int)
    requires
        0 <= slot,
        slot + 2 <= p.len(),
        forall|k: int| 0 <= k < p.len() && k != slot && k != slot + 1 ==> p[k] == 0,
    ensures
        eval_int(p, x) == (p[slot] + p[slot + 1] * x) * pow(x, slot as nat),
{
    lemma_eval_sum_zero_tail(p, x, (slot + 2) as nat, p.len());
    lemma_eval_sum_zero_tail(p, x, 0, slot as nat);
    reveal_with_fuel(eval_sum, 3);
    assert(eval_sum(p, x, (slot + 2) as nat) == eval_sum(p, x, slot as nat) + p[slot] * pow(
        x,
        slot as nat,
    ) + p[slot + 1] * pow(x, (slot + 1) as nat));
    reveal(pow);
    assert(pow(x, (slot + 1) as nat) == x * pow(x, slot as nat));
    let w = pow(x, slot as nat);
    assert(p[slot] * w + p[slot + 1] * (x * w) == (p[slot] + p[slot + 1] * x) * w)
        by (nonlinear_arith);
}

} // verus!
