//! Polynomials over the scalar field, as sequences of coefficients.
//!
//! The coefficient of `x^i` stands at index `i`. A polynomial keeps the
//! length it was made with: trailing zeros are kept and count towards it.

use crate::division::{
    degree_rank, divide_spec, division_defined, lemma_step_lowers_degree, monomial,
    step_remainder,
};
use crate::error::KzgError;
use crate::kzg::scalar_powers;
use crate::scalar::{modulus, Scalar};
use vstd::arithmetic::div_mod::{
    lemma_add_mod_noop, lemma_mod_twice, lemma_mul_mod_noop_right, lemma_small_mod,
};
use vstd::arithmetic::power::pow;
use vstd::prelude::*;

verus! {

/// A polynomial, by its coefficients in ascending order of the exponent.
#[derive(Debug, Clone)]
pub struct Polynomial<T> {
    /// The coefficients: that of `x^i` at index `i`.
    pub coeffs: Vec<T>,
}

impl View for Polynomial<Scalar> {
    type V = Seq<int>;

    open spec fn view(&self) -> Seq<int> {
        self.coeffs@.map_values(|c: Scalar| c@)
    }
}

/// Whether every coefficient is zero.
pub open spec fn is_zero_poly(p: Seq<int>) -> bool {
    forall|i: int| 0 <= i < p.len() ==> p[i] == 0
}

/// The highest index that holds a coefficient other than zero, if there is one.
pub open spec fn degree_of(p: Seq<int>) -> Option<nat>
    decreases p.len(),
{
    if p.len() == 0 {
        None
    } else if p.last() != 0 {
        Some((p.len() - 1) as nat)
    } else {
        degree_of(p.drop_last())
    }
}

/// The polynomial of the given length whose coefficients are all zero.
pub open spec fn zero_poly(len: nat) -> Seq<int> {
    Seq::new(len, |i: int| 0int)
}

/// The coefficient of `x^i`, which is zero past the end.
pub open spec fn coeff_at(p: Seq<int>, i: int) -> int {
    if 0 <= i < p.len() {
        p[i]
    } else {
        0
    }
}

/// The difference of two polynomials, coefficient by coefficient, over the
/// length of the longer one.
pub open spec fn sub_spec(a: Seq<int>, b: Seq<int>) -> Seq<int> {
    Seq::new(
        if a.len() >= b.len() {
            a.len()
        } else {
            b.len()
        },
        |i: int| (coeff_at(a, i) - coeff_at(b, i)) % modulus(),
    )
}

/// The sum of two polynomials, coefficient by coefficient, over the length
/// of the longer one.
pub open spec fn add_spec(a: Seq<int>, b: Seq<int>) -> Seq<int> {
    Seq::new(
        if a.len() >= b.len() {
            a.len()
        } else {
            b.len()
        },
        |i: int| (coeff_at(a, i) + coeff_at(b, i)) % modulus(),
    )
}

/// What the coefficients at `i` of `a` and at `k - i` of `b` add to the
/// coefficient of `x^k` in the bounded product: their product, unless one of
/// them stands in the last slot of its polynomial.
pub open spec fn product_term(a: Seq<int>, b: Seq<int>, k: int, i: int) -> int {
    if 0 <= i && i + 1 < a.len() && 0 <= k - i && k - i + 1 < b.len() {
        a[i] * b[k - i]
    } else {
        0
    }
}

/// The sum of the terms of `x^k` that come from the first `n` coefficients of `a`.
pub open spec fn product_sum(a: Seq<int>, b: Seq<int>, k: int, n: nat) -> int
    decreases n,
{
    if n == 0 {
        0
    } else {
        product_sum(a, b, k, (n - 1) as nat) + product_term(a, b, k, n - 1)
    }
}

/// The bounded product of `a` and `b`: as long as `a`, without the terms
/// of higher exponent, and without those that the last coefficient of either
/// operand would add.
pub open spec fn mul_spec(a: Seq<int>, b: Seq<int>) -> Seq<int> {
    Seq::new(a.len(), |k: int| product_sum(a, b, k, a.len()) % modulus())
}

/// The sum of `p[i] * x^i` over the first `n` coefficients, as an integer.
pub open spec fn eval_sum(p: Seq<int>, x: int, n: nat) -> int
    decreases n,
{
    if n == 0 {
        0
    } else {
        eval_sum(p, x, (n - 1) as nat) + p[n - 1] * pow(x, (n - 1) as nat)
    }
}

/// The value of the polynomial at `x`, in the field.
pub open spec fn poly_eval(p: Seq<int>, x: int) -> int {
    eval_sum(p, x, p.len()) % modulus()
}

/// The quotient that a division starts from: the one handed in, or the zero
/// polynomial of the dividend's length.
pub open spec fn initial_quotient(quotient: Option<Polynomial<Scalar>>, len: nat) -> Seq<int> {
    match quotient {
        Some(poly) => poly@,
        None => zero_poly(len),
    }
}

/// What `degree_of` finds: the index of the last coefficient that is not zero.
pub proof fn lemma_degree_of(p: Seq<int>)
    ensures
        degree_of(p) matches Some(d) ==> d < p.len() && p[d as int] != 0 && forall|k: int|
            d < k < p.len() ==> p[k] == 0,
        degree_of(p) is None <==> is_zero_poly(p),
    decreases p.len(),
{
    if p.len() > 0 {
        let q = p.drop_last();
        lemma_degree_of(q);
        if p.last() == 0 {
            if degree_of(q) is None {
                assert forall|i: int| 0 <= i < p.len() implies p[i] == 0 by {
                    if i < q.len() {
                        assert(q[i] == p[i]);
                    }
                }
            } else {
                let d = degree_of(q)->0;
                assert(q[d as int] == p[d as int]);
                assert forall|k: int| d < k < p.len() implies p[k] == 0 by {
                    if k < q.len() {
                        assert(q[k] == p[k]);
                    }
                }
            }
        }
    }
}

/// An index with the properties of the degree is the degree.
pub proof fn lemma_degree_unique(p: Seq<int>, d: int)
    requires
        0 <= d < p.len(),
        p[d] != 0,
        forall|k: int| d < k < p.len() ==> p[k] == 0,
    ensures
        degree_of(p) == Some(d as nat),
{
    lemma_degree_of(p);
    if degree_of(p) is None {
        assert(p[d] == 0);
    } else {
        let e = degree_of(p)->0;
        if e < d {
            assert(p[d] == 0);
        } else if d < e {
            assert(p[e as int] == 0);
        }
    }
}

impl Polynomial<Scalar> {
    /// The polynomial with the given coefficients.
    pub fn new(coeffs: Vec<Scalar>) -> (r: Self)
        ensures
            r.coeffs == coeffs,
    {
        Polynomial { coeffs }
    }

    /// The polynomial of the given length whose coefficients are all zero.
    pub fn new_zero_poly(length: usize) -> (r: Self)
        ensures
            r@ == zero_poly(length as nat),
    {
        let mut coeffs: Vec<Scalar> = Vec::new();
        let mut i: usize = 0;
        while i < length
            invariant
                i <= length,
                coeffs@.len() == i,
                forall|k: int| 0 <= k < i ==> (#[trigger] coeffs@[k])@ == 0,
            decreases length - i,
        {
            coeffs.push(Scalar::zero());
            i = i + 1;
        }
        let r = Polynomial { coeffs };
        assert(r@ =~= zero_poly(length as nat));
        r
    }

    /// The degree: the highest index that holds a coefficient other than
    /// zero. The zero polynomial, of whatever length, has none.
    pub fn degree(&self) -> (r: Option<usize>)
        ensures
            r matches Some(d) ==> d < self@.len() && self@[d as int] != 0 && forall|k: int|
                d < k < self@.len() ==> self@[k] == 0,
            r is None <==> is_zero_poly(self@),
            r matches Some(d) ==> degree_of(self@) == Some(d as nat),
            r is None <==> degree_of(self@) is None,
    {
        proof {
            lemma_degree_of(self@);
        }
        let mut index: usize = self.coeffs.len();
        while index > 0
            invariant
                index <= self.coeffs@.len(),
                forall|k: int| index <= k < self@.len() ==> self@[k] == 0,
            decreases index,
        {
            index = index - 1;
            if !self.coeffs[index].is_zero() {
                proof {
                    assert(self@[index as int] != 0);
                    lemma_degree_unique(self@, index as int);
                }
                return Some(index);
            }
        }
        None
    }

    /// The bounded product with another polynomial.
    ///
    /// The result has the length of `self`. The last coefficient of each
    /// operand takes no part, and a term whose exponent has no slot in the
    /// result is left out: this is a product into a buffer of fixed size,
    /// exact where the operands leave their last slot at zero and the degrees
    /// add up to less than the length of `self`.
    pub fn multiply(&self, other_poly: &Self) -> (r: Self)
        ensures
            r@ == mul_spec(self@, other_poly@),
    {
        let n: usize = self.coeffs.len();
        let m: usize = other_poly.coeffs.len();
        let outer: usize = if n == 0 {
            0
        } else {
            n - 1
        };
        let inner: usize = if m == 0 {
            0
        } else {
            m - 1
        };
        let ghost a = self@;
        let ghost b = other_poly@;
        let mut result: Vec<Scalar> = Vec::new();
        let mut k: usize = 0;
        while k < n
            invariant
                k <= n,
                result@.len() == k,
                forall|t: int| 0 <= t < k ==> (#[trigger] result@[t])@ == 0,
            decreases n - k,
        {
            result.push(Scalar::zero());
            k = k + 1;
        }
        proof {
            lemma_small_mod(0, modulus() as nat);
        }
        let mut i: usize = 0;
        while i < outer
            invariant
                i <= outer,
                n == self.coeffs@.len(),
                m == other_poly.coeffs@.len(),
                outer + 1 == n || (outer == 0 && n == 0),
                inner + 1 == m || (inner == 0 && m == 0),
                a == self@,
                b == other_poly@,
                result@.len() == n,
                forall|t: int|
                    0 <= t < n ==> (#[trigger] result@[t])@ == product_sum(a, b, t, i as nat)
                        % modulus(),
            decreases outer - i,
        {
            let mut j: usize = 0;
            while j < inner
                invariant
                    i < outer,
                    j <= inner,
                    n == self.coeffs@.len(),
                    m == other_poly.coeffs@.len(),
                    outer + 1 == n,
                    inner + 1 == m || (inner == 0 && m == 0),
                    a == self@,
                    b == other_poly@,
                    result@.len() == n,
                    forall|t: int|
                        0 <= t < n ==> (#[trigger] result@[t])@ == (product_sum(a, b, t, i as nat)
                            + (if 0 <= t - i < j {
                            a[i as int] * b[t - i]
                        } else {
                            0
                        })) % modulus(),
                decreases inner - j,
            {
                if j < n - i && !self.coeffs[i].is_zero() && !other_poly.coeffs[j].is_zero() {
                    let term: Scalar = self.coeffs[i].mul(&other_poly.coeffs[j]);
                    let sum: Scalar = result[i + j].add(&term);
                    proof {
                        let before: int = product_sum(a, b, i + j, i as nat);
                        lemma_add_mod_noop(before, a[i as int] * b[j as int], modulus());
                        lemma_mod_twice(before, modulus());
                    }
                    result.set(i + j, sum);
                }
                j = j + 1;
            }
            proof {
                assert forall|t: int| 0 <= t < n implies (#[trigger] result@[t])@ == product_sum(
                    a,
                    b,
                    t,
                    (i + 1) as nat,
                ) % modulus() by {
                    assert(product_term(a, b, t, i as int) == (if 0 <= t - i < inner {
                        a[i as int] * b[t - i]
                    } else {
                        0
                    }));
                }
            }
            i = i + 1;
        }
        let r = Polynomial { coeffs: result };
        proof {
            assert forall|t: int| 0 <= t < n implies r@[t] == product_sum(a, b, t, n as nat)
                % modulus() by {
                if n > 0 {
                    assert(product_term(a, b, t, n - 1) == 0);
                }
            }
            assert(r@ =~= mul_spec(a, b));
        }
        r
    }

    /// The difference with another polynomial, over the length of the longer
    /// of the two; the shorter one counts as zero past its end.
    pub fn subtract(&self, other_poly: &Self) -> (r: Self)
        ensures
            r@ == sub_spec(self@, other_poly@),
    {
        let n: usize = self.coeffs.len();
        let m: usize = other_poly.coeffs.len();
        let len: usize = if n >= m {
            n
        } else {
            m
        };
        let mut result_coeffs: Vec<Scalar> = Vec::new();
        let mut i: usize = 0;
        while i < len
            invariant
                i <= len,
                n == self.coeffs@.len(),
                m == other_poly.coeffs@.len(),
                result_coeffs@.len() == i,
                forall|k: int|
                    0 <= k < i ==> (#[trigger] result_coeffs@[k])@ == (coeff_at(self@, k)
                        - coeff_at(other_poly@, k)) % modulus(),
            decreases len - i,
        {
            let x: Scalar = if i < n {
                self.coeffs[i]
            } else {
                Scalar::zero()
            };
            let y: Scalar = if i < m {
                other_poly.coeffs[i]
            } else {
                Scalar::zero()
            };
            result_coeffs.push(x.sub(&y));
            i = i + 1;
        }
        let r = Polynomial { coeffs: result_coeffs };
        assert(r@ =~= sub_spec(self@, other_poly@));
        r
    }

    /// Long division by `divisor`, on top of the quotient `quotient` (or of
    /// the zero polynomial of this polynomial's length): quotient and
    /// remainder.
    ///
    /// The division is that of `divide_spec`, step by step: while the
    /// dividend is not zero and its degree `d` is not below the divisor's,
    /// its leading coefficient over the divisor's is written into slot
    /// `d - 1` of the quotient, and the divisor times that term is taken
    /// from the dividend. That slot is the right one for a divisor of degree
    /// one, and `division_defined` admits no other where a step is due.
    ///
    /// A dividend other than zero cannot be divided by the zero polynomial,
    /// which has no leading coefficient: that is the one error.
    pub fn divide(&self, divisor: &Polynomial<Scalar>, quotient: Option<Polynomial<Scalar>>) -> (r:
        Result<(Polynomial<Scalar>, Polynomial<Scalar>), KzgError>)
        requires
            division_defined(self@, divisor@, initial_quotient(quotient, self@.len()).len()),
        ensures
            r is Err <==> !is_zero_poly(self@) && is_zero_poly(divisor@),
            r matches Err(e) ==> e == KzgError::DivisionByZero,
            r matches Ok((q, rest)) ==> q@ == divide_spec(
                self@,
                divisor@,
                initial_quotient(quotient, self@.len()),
            ).0 && rest@ == divide_spec(
                self@,
                divisor@,
                initial_quotient(quotient, self@.len()),
            ).1,
        decreases degree_rank(self@),
    {
        let len: usize = self.coeffs.len();
        let mut new_quotient: Polynomial<Scalar> = match quotient {
            Some(poly) => poly,
            None => Polynomial::new_zero_poly(len),
        };
        let degree: usize = match self.degree() {
            Some(degree) => degree,
            None => {
                return Ok((new_quotient, Polynomial::new_zero_poly(len)));
            },
        };
        let divisor_degree: usize = match divisor.degree() {
            Some(degree) => degree,
            None => {
                return Err(KzgError::DivisionByZero);
            },
        };
        if degree < divisor_degree {
            return Ok((new_quotient, self.duplicate()));
        }
        // The leading term of the dividend over that of the divisor.
        let inverse: Scalar = divisor.coeffs[divisor_degree].invert().unwrap();
        let new_quotient_value: Scalar = self.coeffs[degree].mul(&inverse);
        proof {
            use_type_invariant(&inverse);
            lemma_step_lowers_degree(self@, divisor@, inverse@);
        }
        let ghost before = new_quotient@;
        new_quotient.coeffs.set(degree - 1, new_quotient_value);
        let mut new_multiplier: Polynomial<Scalar> = Polynomial::new_zero_poly(len);
        let ghost zero = new_multiplier@;
        assert(zero.len() == len);
        new_multiplier.coeffs.set(degree - 1, new_quotient_value);
        proof {
            assert(new_quotient@ =~= before.update(degree - 1, new_quotient_value@));
            assert forall|k: int| 0 <= k < len implies new_multiplier@[k] == monomial(
                len as nat,
                degree - 1,
                new_quotient_value@,
            )[k] by {
                assert(zero[k] == 0);
            }
            assert(new_multiplier@ =~= monomial(len as nat, degree - 1, new_quotient_value@));
        }
        // The divisor times that term, taken from the dividend.
        let multiple: Polynomial<Scalar> = divisor.multiply(&new_multiplier);
        let remainder: Polynomial<Scalar> = self.subtract(&multiple);
        proof {
            assert(remainder@ == step_remainder(self@, divisor@));
            lemma_degree_of(remainder@);
        }
        remainder.divide(divisor, Some(new_quotient))
    }

    /// The value of the polynomial at a point: the sum of `coeffs[i] * value^i`.
    pub fn evaluate(&self, value: Scalar) -> (r: Scalar)
        ensures
            r@ == poly_eval(self@, value@),
    {
        let n: usize = self.coeffs.len();
        // The ladder holds one power more than the sum uses.
        let ladder_len: usize = match n.checked_add(1) {
            Some(len) => len,
            None => n,
        };
        let powers_of_z: Vec<Scalar> = scalar_powers(value, ladder_len);
        let mut result: Scalar = Scalar::zero();
        proof {
            lemma_small_mod(0, modulus() as nat);
        }
        let mut i: usize = 0;
        while i < n
            invariant
                i <= n,
                n == self.coeffs@.len(),
                n <= powers_of_z@.len(),
                forall|k: int|
                    0 <= k < powers_of_z@.len() ==> (#[trigger] powers_of_z@[k])@ == pow(
                        value@,
                        k as nat,
                    ) % modulus(),
                result@ == eval_sum(self@, value@, i as nat) % modulus(),
            decreases n - i,
        {
            let term: Scalar = self.coeffs[i].mul(&powers_of_z[i]);
            proof {
                let sum: int = eval_sum(self@, value@, i as nat);
                let power: int = pow(value@, i as nat);
                lemma_mul_mod_noop_right(self@[i as int], power, modulus());
                lemma_add_mod_noop(sum, self@[i as int] * power, modulus());
                lemma_mod_twice(sum, modulus());
            }
            result = result.add(&term);
            i = i + 1;
        }
        result
    }

    /// A polynomial with the same coefficients.
    pub(crate) fn duplicate(&self) -> (r: Self)
        ensures
            r@ == self@,
    {
        let r = Polynomial { coeffs: self.coeffs.clone() };
        assert(r@ =~= self@);
        r
    }
}

} // verus!
