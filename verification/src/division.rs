//! Long division of polynomials by a divisor of degree one.
//!
//! Each step takes the leading term of what is left of the dividend, divides
//! it by the leading term of the divisor, writes the result into the slot of
//! the quotient one below the dividend's degree, and subtracts the divisor
//! times that term. The slot is the right one for a divisor of degree one,
//! which is the only kind the scheme divides by.

use crate::algebra::{
    congruent, field_inverse, lemma_congruent_add, lemma_congruent_mod, lemma_congruent_mul,
    lemma_congruent_sub, lemma_inverse_cancels, lemma_inverse_unique,
};
use crate::evaluation::{
    eval_int, lemma_eval_linear, lemma_eval_sub, lemma_eval_sum_update,
    lemma_eval_sum_zero_tail, lemma_eval_two_terms,
};
use crate::polynomial::{
    coeff_at, degree_of, lemma_degree_of, mul_spec, product_sum, product_term, sub_spec,
    zero_poly,
};
use crate::scalar::modulus;
use vstd::arithmetic::div_mod::{lemma_small_mod, lemma_sub_mod_noop_right};
use vstd::arithmetic::power::pow;
use vstd::prelude::*;

verus! {

/// The polynomial of the given length with a single coefficient `c`, at `index`.
pub open spec fn monomial(len: nat, index: int, c: int) -> Seq<int> {
    Seq::new(len, |i: int| if i == index { c } else { 0 })
}

/// One more than the degree, and zero for the zero polynomial: what falls
/// with every step of the division.
pub open spec fn degree_rank(p: Seq<int>) -> nat {
    match degree_of(p) {
        Some(d) => d + 1,
        None => 0,
    }
}

/// The coefficient that a step writes into the quotient: the leading
/// coefficient of the dividend over that of the divisor.
pub open spec fn step_coefficient(dividend: Seq<int>, divisor: Seq<int>) -> int {
    (dividend[degree_of(dividend)->0 as int] * field_inverse(
        divisor[degree_of(divisor)->0 as int],
    )) % modulus()
}

/// What is left of the dividend after a step.
pub open spec fn step_remainder(dividend: Seq<int>, divisor: Seq<int>) -> Seq<int> {
    sub_spec(
        dividend,
        mul_spec(
            divisor,
            monomial(
                dividend.len(),
                degree_of(dividend)->0 - 1,
                step_coefficient(dividend, divisor),
            ),
        ),
    )
}

/// The inputs on which the division is defined: those on which it has
/// nothing to do, and those with a divisor of degree one that leaves its
/// last slot free, a dividend whose degree has a slot in the divisor, and a
/// quotient that has the slot one below that degree.
pub open spec fn division_defined(dividend: Seq<int>, divisor: Seq<int>, quotient_len: nat) -> bool {
    match (degree_of(dividend), degree_of(divisor)) {
        (Some(d), Some(e)) => d < e || (e == 1 && divisor.len() >= 3 && d < divisor.len() && d
            <= quotient_len),
        _ => true,
    }
}

/// Quotient and remainder of the long division that starts from the
/// quotient `quotient`.
///
/// A zero dividend leaves the quotient as it is, with a zero remainder. A
/// dividend of lower degree than the divisor is itself the remainder. Else a
/// step is taken, and the division goes on with what it leaves. (With a zero
/// divisor there is no division; on inputs outside `division_defined` a step
/// may fail to lower the degree, and the recursion ends there.)
pub open spec fn divide_spec(dividend: Seq<int>, divisor: Seq<int>, quotient: Seq<int>) -> (
    Seq<int>,
    Seq<int>,
)
    decreases degree_rank(dividend),
{
    match (degree_of(dividend), degree_of(divisor)) {
        (None, _) => (quotient, zero_poly(dividend.len())),
        (Some(_), None) => (quotient, dividend),
        (Some(d), Some(e)) => if d < e {
            (quotient, dividend)
        } else {
            let next_quotient = quotient.update(d - 1, step_coefficient(dividend, divisor));
            let rest = step_remainder(dividend, divisor);
            if degree_rank(rest) < degree_rank(dividend) {
                divide_spec(rest, divisor, next_quotient)
            } else {
                (next_quotient, rest)
            }
        },
    }
}

/// Terms that are all zero add nothing to a coefficient of the product.
pub proof fn lemma_product_sum_tail(a: Seq<int>, b: Seq<int>, k: int, from: nat, to: nat)
    requires
        from <= to,
        forall|i: int| from <= i < to ==> product_term(a, b, k, i) == 0,
    ensures
        product_sum(a, b, k, to) == product_sum(a, b, k, from),
    decreases to,
{
    if from < to {
        lemma_product_sum_tail(a, b, k, from, (to - 1) as nat);
    }
}

/// The bounded product of a polynomial `b0 + b1 x` and a single term `c x^slot`
/// is `b0 c x^slot + b1 c x^(slot + 1)`, where both polynomials leave their
/// last slot free.
pub proof fn lemma_linear_times_monomial(divisor: Seq<int>, len: nat, slot: int, c: int)
    requires
        divisor.len() >= 3,
        forall|i: int| 2 <= i < divisor.len() ==> divisor[i] == 0,
        0 <= slot,
        slot + 1 < len,
    ensures
        mul_spec(divisor, monomial(len, slot, c)).len() == divisor.len(),
        forall|k: int|
            0 <= k < divisor.len() ==> #[trigger] mul_spec(divisor, monomial(len, slot, c))[k]
                == (if k == slot {
                divisor[0] * c
            } else if k == slot + 1 {
                divisor[1] * c
            } else {
                0
            }) % modulus(),
{
    let term = monomial(len, slot, c);
    assert forall|k: int| 0 <= k < divisor.len() implies #[trigger] mul_spec(divisor, term)[k] == (
    if k == slot {
        divisor[0] * c
    } else if k == slot + 1 {
        divisor[1] * c
    } else {
        0
    }) % modulus() by {
        assert forall|i: int| 2 <= i < divisor.len() implies product_term(divisor, term, k, i)
            == 0 by {
            if i + 1 < divisor.len() && 0 <= k - i && k - i + 1 < term.len() {
                assert(divisor[i] == 0);
                assert(divisor[i] * term[k - i] == 0) by (nonlinear_arith)
                    requires
                        divisor[i] == 0,
                ;
            }
        }
        lemma_product_sum_tail(divisor, term, k, 2, divisor.len());
        reveal_with_fuel(product_sum, 3);
        assert(product_sum(divisor, term, k, 2) == product_term(divisor, term, k, 0)
            + product_term(divisor, term, k, 1));
        if 0 <= k && k + 1 < len && k != slot {
            assert(term[k] == 0);
            assert(divisor[0] * term[k] == 0) by (nonlinear_arith)
                requires
                    term[k] == 0,
            ;
        }
        if 0 <= k - 1 && k < len && k - 1 != slot {
            assert(term[k - 1] == 0);
            assert(divisor[1] * term[k - 1] == 0) by (nonlinear_arith)
                requires
                    term[k - 1] == 0,
            ;
        }
    }
}

/// A step of the division by a divisor of degree one cancels the leading
/// term of the dividend and leaves what stood above it at zero.
pub proof fn lemma_step_lowers_degree(dividend: Seq<int>, divisor: Seq<int>, inverse: int)
    requires
        degree_of(divisor) == Some(1nat),
        divisor.len() >= 3,
        degree_of(dividend) is Some,
        1 <= degree_of(dividend)->0 < divisor.len(),
        0 <= inverse < modulus(),
        (divisor[1] * inverse) % modulus() == 1,
    ensures
        field_inverse(divisor[1]) == inverse,
        step_remainder(dividend, divisor).len() == if dividend.len() >= divisor.len() {
            dividend.len()
        } else {
            divisor.len()
        },
        forall|k: int|
            degree_of(dividend)->0 <= k < step_remainder(dividend, divisor).len()
                ==> #[trigger] step_remainder(dividend, divisor)[k] == 0,
        degree_rank(step_remainder(dividend, divisor)) < degree_rank(dividend),
{
    let m = modulus();
    let d = degree_of(dividend)->0 as int;
    lemma_degree_of(dividend);
    lemma_degree_of(divisor);
    lemma_inverse_unique(divisor[1], inverse);
    let c = step_coefficient(dividend, divisor);
    assert(c == (dividend[d] * inverse) % m);
    let multiple = mul_spec(divisor, monomial(dividend.len(), d - 1, c));
    lemma_linear_times_monomial(divisor, dividend.len(), d - 1, c);
    let rest = step_remainder(dividend, divisor);
    assert(rest == sub_spec(dividend, multiple));
    lemma_inverse_cancels(dividend[d], divisor[1], inverse);
    lemma_small_mod(0, m as nat);
    assert forall|k: int| d <= k < rest.len() implies #[trigger] rest[k] == 0 by {
        assert(rest[k] == (coeff_at(dividend, k) - coeff_at(multiple, k)) % m);
        if k == d {
            assert(multiple[d] == (divisor[1] * c) % m);
            lemma_sub_mod_noop_right(dividend[d], dividend[d], m);
        } else {
            assert(coeff_at(dividend, k) == 0);
            if k < multiple.len() {
                assert(multiple[k] == 0int % m);
            }
        }
    }
    lemma_degree_of(rest);
    if degree_of(rest) is Some {
        let e = degree_of(rest)->0 as int;
        if e >= d {
            assert(rest[e] == 0);
        }
    }
}

/// What a step does to the value at `x`: it takes off the divisor's value
/// times the term that it writes into the quotient.
pub proof fn lemma_step_value(dividend: Seq<int>, divisor: Seq<int>, inverse: int, x: int)
    requires
        degree_of(divisor) == Some(1nat),
        divisor.len() >= 3,
        degree_of(dividend) is Some,
        1 <= degree_of(dividend)->0 < divisor.len(),
        0 <= inverse < modulus(),
        (divisor[1] * inverse) % modulus() == 1,
    ensures
        congruent(
            eval_int(step_remainder(dividend, divisor), x),
            eval_int(dividend, x) - step_coefficient(dividend, divisor) * pow(
                x,
                (degree_of(dividend)->0 - 1) as nat,
            ) * eval_int(divisor, x),
        ),
{
    let m = modulus();
    let d = degree_of(dividend)->0 as int;
    let slot = d - 1;
    let w = pow(x, slot as nat);
    lemma_degree_of(dividend);
    lemma_degree_of(divisor);
    let c = step_coefficient(dividend, divisor);
    let multiple = mul_spec(divisor, monomial(dividend.len(), slot, c));
    lemma_linear_times_monomial(divisor, dividend.len(), slot, c);
    lemma_small_mod(0, m as nat);
    lemma_eval_two_terms(multiple, slot, x);
    lemma_eval_linear(divisor, x);
    lemma_eval_sub(dividend, multiple, x);
    let low = divisor[0] * c;
    let high = divisor[1] * c;
    assert(multiple[slot] == low % m);
    assert(multiple[slot + 1] == high % m);
    lemma_congruent_mod(low);
    lemma_congruent_mod(high);
    lemma_congruent_mul(high % m, high, x, x);
    lemma_congruent_add(low % m, low, (high % m) * x, high * x);
    lemma_congruent_mul(multiple[slot] + multiple[slot + 1] * x, low + high * x, w, w);
    assert((low + high * x) * w == c * w * (divisor[0] + divisor[1] * x)) by (nonlinear_arith)
        requires
            low == divisor[0] * c,
            high == divisor[1] * c,
    ;
    lemma_congruent_sub(
        eval_int(dividend, x),
        eval_int(dividend, x),
        eval_int(multiple, x),
        c * w * eval_int(divisor, x),
    );
}

/// The law of the division by a divisor of degree one, on top of a quotient
/// whose slots below the dividend's degree are still zero.
///
/// The quotient keeps its length and its slots from the dividend's degree
/// on. The remainder is a constant. And at every point `x`, the dividend's
/// value is the divisor's value times the value of what was written into
/// the quotient, plus the remainder's.
pub proof fn lemma_division_law(
    dividend: Seq<int>,
    divisor: Seq<int>,
    quotient: Seq<int>,
    inverse: int,
    x: int,
)
    requires
        degree_of(divisor) == Some(1nat),
        0 <= inverse < modulus(),
        (divisor[1] * inverse) % modulus() == 1,
        division_defined(dividend, divisor, quotient.len()),
        degree_of(dividend) matches Some(d) ==> forall|k: int| 0 <= k < d ==> quotient[k] == 0,
    ensures
        divide_spec(dividend, divisor, quotient).0.len() == quotient.len(),
        dividend.len() >= 1 && 0 <= dividend[0] < modulus() ==> 0 <= divide_spec(
            dividend,
            divisor,
            quotient,
        ).1[0] < modulus(),
        forall|k: int|
            0 <= k < quotient.len() && (degree_of(dividend) matches Some(d) ==> d <= k)
                ==> #[trigger] divide_spec(dividend, divisor, quotient).0[k] == quotient[k],
        divide_spec(dividend, divisor, quotient).1.len() >= dividend.len(),
        forall|k: int|
            1 <= k < divide_spec(dividend, divisor, quotient).1.len() ==> #[trigger] divide_spec(
                dividend,
                divisor,
                quotient,
            ).1[k] == 0,
        congruent(
            eval_int(dividend, x),
            (eval_int(divide_spec(dividend, divisor, quotient).0, x) - eval_int(quotient, x))
                * eval_int(divisor, x) + eval_int(divide_spec(dividend, divisor, quotient).1, x),
        ),
    decreases degree_rank(dividend),
{
    let result = divide_spec(dividend, divisor, quotient);
    lemma_degree_of(dividend);
    lemma_degree_of(divisor);
    let value_d = eval_int(divisor, x);
    match degree_of(dividend) {
        None => {
            lemma_eval_sum_zero_tail(dividend, x, 0, dividend.len());
            lemma_eval_sum_zero_tail(zero_poly(dividend.len()), x, 0, dividend.len());
            assert((eval_int(quotient, x) - eval_int(quotient, x)) * value_d == 0)
                by (nonlinear_arith);
        },
        Some(d) => {
            if d < 1 {
                assert((eval_int(quotient, x) - eval_int(quotient, x)) * value_d == 0)
                    by (nonlinear_arith);
            } else {
                let c = step_coefficient(dividend, divisor);
                let slot = d - 1;
                let w = pow(x, slot as nat);
                let next_quotient = quotient.update(slot, c);
                let rest = step_remainder(dividend, divisor);
                lemma_step_lowers_degree(dividend, divisor, inverse);
                lemma_step_value(dividend, divisor, inverse, x);
                lemma_degree_of(rest);
                lemma_congruent_mod(coeff_at(dividend, 0) - coeff_at(
                    mul_spec(divisor, monomial(dividend.len(), slot, c)),
                    0,
                ));
                assert(result == divide_spec(rest, divisor, next_quotient));
                lemma_division_law(rest, divisor, next_quotient, inverse, x);
                lemma_eval_sum_update(quotient, slot, c, x, quotient.len());
                let t = c * w * value_d;
                let value_q = eval_int(result.0, x);
                let value_r = eval_int(result.1, x);
                let before = eval_int(quotient, x);
                assert(eval_int(next_quotient, x) == before + c * w) by {
                    assert((c - quotient[slot]) * w == c * w) by (nonlinear_arith)
                        requires
                            quotient[slot] == 0,
                    ;
                }
                lemma_congruent_add(eval_int(rest, x), eval_int(dividend, x) - t, t, t);
                lemma_congruent_add(
                    eval_int(rest, x),
                    (value_q - eval_int(next_quotient, x)) * value_d + value_r,
                    t,
                    t,
                );
                assert((value_q - (before + c * w)) * value_d + value_r + t == (value_q - before)
                    * value_d + value_r) by (nonlinear_arith)
                    requires
                        t == c * w * value_d,
                ;
                assert forall|k: int|
                    0 <= k < quotient.len() && d <= k implies #[trigger] result.0[k]
                    == quotient[k] by {
                    assert(next_quotient[k] == quotient[k]);
                }
            }
        },
    }
}

/// What the coefficient `b[k - slot]` adds to the coefficient of `x^k` in the
/// bounded product of a polynomial of length `len` with `b`, per unit of the
/// polynomial's coefficient at `slot`.
pub open spec fn product_factor(len: nat, b: Seq<int>, k: int, slot: int) -> int {
    if 0 <= slot && slot + 1 < len && 0 <= k - slot && k - slot + 1 < b.len() {
        b[k - slot]
    } else {
        0
    }
}

/// A new coefficient at `slot` changes a coefficient of the bounded product
/// by the change of the coefficient times its factor.
pub proof fn lemma_product_sum_update(a: Seq<int>, slot: int, c: int, b: Seq<int>, k: int, n: nat)
    requires
        0 <= slot < a.len(),
    ensures
        product_sum(a.update(slot, c), b, k, n) == product_sum(a, b, k, n) + (if slot < n {
            (c - a[slot]) * product_factor(a.len(), b, k, slot)
        } else {
            0
        }),
    decreases n,
{
    if n > 0 {
        lemma_product_sum_update(a, slot, c, b, k, (n - 1) as nat);
        let factor = product_factor(a.len(), b, k, slot);
        if slot == n - 1 {
            if factor == 0 {
                assert(c * factor == 0 && a[slot] * factor == 0) by (nonlinear_arith)
                    requires
                        factor == 0,
                ;
            }
            assert(c * factor == a[slot] * factor + (c - a[slot]) * factor) by (nonlinear_arith);
        } else {
            assert(product_term(a.update(slot, c), b, k, n - 1) == product_term(a, b, k, n - 1));
        }
    }
}

/// The coefficient of `x^k` in the dividend is the one in the remainder plus
/// what the division has added to the one in the bounded product of
/// quotient and divisor.
proof fn lemma_division_coefficient(
    dividend: Seq<int>,
    divisor: Seq<int>,
    quotient: Seq<int>,
    inverse: int,
    k: int,
)
    requires
        degree_of(divisor) == Some(1nat),
        0 <= inverse < modulus(),
        (divisor[1] * inverse) % modulus() == 1,
        division_defined(dividend, divisor, quotient.len()),
        degree_of(dividend) matches Some(d) ==> d < quotient.len() && forall|i: int|
            0 <= i < d ==> quotient[i] == 0,
        0 <= k,
    ensures
        congruent(
            coeff_at(dividend, k),
            product_sum(divide_spec(dividend, divisor, quotient).0, divisor, k, quotient.len())
                - product_sum(quotient, divisor, k, quotient.len()) + coeff_at(
                divide_spec(dividend, divisor, quotient).1,
                k,
            ),
        ),
    decreases degree_rank(dividend),
{
    let m = modulus();
    let len = quotient.len();
    lemma_degree_of(dividend);
    lemma_degree_of(divisor);
    if degree_of(dividend) is Some && degree_of(dividend)->0 >= 1 {
        let d = degree_of(dividend)->0 as int;
        let slot = d - 1;
        let c = step_coefficient(dividend, divisor);
        let next_quotient = quotient.update(slot, c);
        let multiple = mul_spec(divisor, monomial(dividend.len(), slot, c));
        let rest = step_remainder(dividend, divisor);
        let result = divide_spec(dividend, divisor, quotient);
        lemma_step_lowers_degree(dividend, divisor, inverse);
        lemma_linear_times_monomial(divisor, dividend.len(), slot, c);
        lemma_degree_of(rest);
        assert(result == divide_spec(rest, divisor, next_quotient));
        lemma_division_coefficient(rest, divisor, next_quotient, inverse, k);
        lemma_product_sum_update(quotient, slot, c, divisor, k, len);
        let factor = product_factor(len, divisor, k, slot);
        let added = c * factor;
        assert((c - quotient[slot]) * factor == added) by (nonlinear_arith)
            requires
                quotient[slot] == 0,
                added == c * factor,
        ;
        // What the step took from the dividend is what it added to the product.
        lemma_small_mod(0, m as nat);
        assert(congruent(coeff_at(multiple, k), added)) by {
            if k == slot {
                lemma_congruent_mod(divisor[0] * c);
                assert(divisor[0] * c == c * divisor[0]) by (nonlinear_arith);
            } else if k == slot + 1 {
                lemma_congruent_mod(divisor[1] * c);
                assert(divisor[1] * c == c * divisor[1]) by (nonlinear_arith);
            } else {
                if factor != 0 {
                    assert(divisor[k - slot] == 0);
                }
                assert(c * factor == 0) by (nonlinear_arith)
                    requires
                        factor == 0,
                ;
            }
        }
        // And the dividend is what the step left plus what it took.
        assert(congruent(coeff_at(dividend, k), coeff_at(rest, k) + coeff_at(multiple, k))) by {
            if k < rest.len() {
                lemma_congruent_mod(coeff_at(dividend, k) - coeff_at(multiple, k));
                lemma_congruent_add(
                    coeff_at(rest, k),
                    coeff_at(dividend, k) - coeff_at(multiple, k),
                    coeff_at(multiple, k),
                    coeff_at(multiple, k),
                );
            }
        }
        let grown = product_sum(result.0, divisor, k, len) - product_sum(
            next_quotient,
            divisor,
            k,
            len,
        ) + coeff_at(result.1, k);
        lemma_congruent_add(coeff_at(rest, k), grown, coeff_at(multiple, k), added);
    }
}

/// Reconstruction: after a division by a divisor of degree one that starts
/// from the zero quotient, the bounded product of quotient and divisor plus
/// the remainder is the dividend, coefficient by coefficient.
pub proof fn lemma_division_reconstructs(dividend: Seq<int>, divisor: Seq<int>, inverse: int)
    requires
        degree_of(divisor) == Some(1nat),
        0 <= inverse < modulus(),
        (divisor[1] * inverse) % modulus() == 1,
        division_defined(dividend, divisor, dividend.len()),
    ensures
        mul_spec(divide_spec(dividend, divisor, zero_poly(dividend.len())).0, divisor).len()
            == dividend.len(),
        forall|k: int|
            0 <= k < dividend.len() ==> congruent(
                dividend[k],
                #[trigger] mul_spec(
                    divide_spec(dividend, divisor, zero_poly(dividend.len())).0,
                    divisor,
                )[k] + coeff_at(divide_spec(dividend, divisor, zero_poly(dividend.len())).1, k),
            ),
{
    let start = zero_poly(dividend.len());
    let result = divide_spec(dividend, divisor, start);
    lemma_degree_of(dividend);
    lemma_division_law(dividend, divisor, start, inverse, 0);
    assert forall|k: int| 0 <= k < dividend.len() implies congruent(
        dividend[k],
        #[trigger] mul_spec(result.0, divisor)[k] + coeff_at(result.1, k),
    ) by {
        lemma_division_coefficient(dividend, divisor, start, inverse, k);
        assert forall|i: int| 0 <= i < start.len() implies product_term(start, divisor, k, i)
            == 0 by {
            assert(start[i] == 0);
            if 0 <= k - i < divisor.len() {
                assert(start[i] * divisor[k - i] == 0) by (nonlinear_arith)
                    requires
                        start[i] == 0,
                ;
            }
        }
        lemma_product_sum_tail(start, divisor, k, 0, start.len());
        let sum = product_sum(result.0, divisor, k, start.len());
        lemma_congruent_mod(sum);
        lemma_congruent_add(sum % modulus(), sum, coeff_at(result.1, k), coeff_at(result.1, k));
    }
}

} // verus!
