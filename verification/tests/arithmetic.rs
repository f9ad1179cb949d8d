use krazyg::error::KzgError;
use krazyg::polynomial::Polynomial;
use krazyg::scalar::Scalar;

fn poly(coeffs: &[i64]) -> Polynomial<Scalar> {
    Polynomial::new(coeffs.iter().map(|c| signed(*c)).collect())
}

fn signed(value: i64) -> Scalar {
    if value >= 0 {
        Scalar::from(value as u64)
    } else {
        Scalar::zero().sub(&Scalar::from(value.unsigned_abs()))
    }
}

fn plus(a: &Polynomial<Scalar>, b: &Polynomial<Scalar>) -> Polynomial<Scalar> {
    let len = a.coeffs.len().max(b.coeffs.len());
    let at = |p: &Polynomial<Scalar>, i: usize| if i < p.coeffs.len() { p.coeffs[i] } else { Scalar::zero() };
    Polynomial::new((0..len).map(|i| at(a, i).add(&at(b, i))).collect())
}

#[test]
fn constructors_keep_the_length() {
    assert_eq!(Polynomial::new_zero_poly(0).coeffs.len(), 0);
    assert_eq!(Polynomial::new_zero_poly(5).coeffs, vec![Scalar::zero(); 5]);
    let coeffs = vec![Scalar::from(1), Scalar::zero(), Scalar::zero()];
    assert_eq!(Polynomial::new(coeffs.clone()).coeffs, coeffs);
}

#[test]
fn degree_of_the_zero_polynomial_of_any_length_is_undefined() {
    for len in 0..9 {
        assert_eq!(Polynomial::new_zero_poly(len).degree(), None);
    }
}

#[test]
fn degree_is_the_last_index_that_is_not_zero() {
    assert_eq!(poly(&[1, 0, 0]).degree(), Some(0));
    assert_eq!(poly(&[1, 1, 0]).degree(), Some(1));
    assert_eq!(poly(&[1, 1, 1]).degree(), Some(2));
    assert_eq!(poly(&[0, 0, 7, 0, 0, 0]).degree(), Some(2));
    assert_eq!(poly(&[0, 0, 0, 0, 0, -1]).degree(), Some(5));
    assert_eq!(poly(&[9]).degree(), Some(0));
}

#[test]
fn evaluate_sums_the_terms() {
    assert_eq!(poly(&[1, 2, 3]).evaluate(Scalar::from(2)), Scalar::from(17));
    assert_eq!(poly(&[1, 2, 3]).evaluate(Scalar::zero()), Scalar::from(1));
    assert_eq!(poly(&[1, 2, 3]).evaluate(Scalar::one()), Scalar::from(6));
    assert_eq!(poly(&[-4, 0, 1]).evaluate(Scalar::from(2)), Scalar::zero());
    assert_eq!(poly(&[-4, 0, -2, 1]).evaluate(Scalar::from(3)), Scalar::from(5));
    assert_eq!(poly(&[0, 0, 0, 0, 1]).evaluate(Scalar::from(10)), Scalar::from(10000));
    assert_eq!(poly(&[5]).evaluate(Scalar::from(123)), Scalar::from(5));
    assert_eq!(poly(&[]).evaluate(Scalar::from(123)), Scalar::zero());
    assert_eq!(poly(&[1, 1]).evaluate(signed(-1)), Scalar::zero());
}

#[test]
fn subtract_pads_the_shorter_operand() {
    assert_eq!(poly(&[5, 7, 9]).subtract(&poly(&[1, 2, 3])).coeffs, poly(&[4, 5, 6]).coeffs);
    assert_eq!(poly(&[5]).subtract(&poly(&[1, 2])).coeffs, poly(&[4, -2]).coeffs);
    assert_eq!(poly(&[1, 2, 3]).subtract(&poly(&[1])).coeffs, poly(&[0, 2, 3]).coeffs);
    assert_eq!(poly(&[]).subtract(&poly(&[1, 2])).coeffs, poly(&[-1, -2]).coeffs);
    assert_eq!(poly(&[1, 2]).subtract(&poly(&[])).coeffs, poly(&[1, 2]).coeffs);
    assert_eq!(poly(&[]).subtract(&poly(&[])).coeffs.len(), 0);
    assert_eq!(poly(&[1, 2, 0]).subtract(&poly(&[1, 2])).coeffs, poly(&[0, 0, 0]).coeffs);
}

#[test]
fn multiply_is_the_product_where_the_buffer_holds_it() {
    assert_eq!(poly(&[1, 1, 0]).multiply(&poly(&[1, 1, 0])).coeffs, poly(&[1, 2, 1]).coeffs);
    assert_eq!(poly(&[2, 1, 0, 0]).multiply(&poly(&[1, 1, 0])).coeffs, poly(&[2, 3, 1, 0]).coeffs);
    assert_eq!(poly(&[3, 1, 1, 0]).multiply(&poly(&[-3, 1, 0, 0])).coeffs, poly(&[-9, 0, -2, 1]).coeffs);
    assert_eq!(poly(&[0, 0, 5, 0]).multiply(&poly(&[7, 0])).coeffs, poly(&[0, 0, 35, 0]).coeffs);
}

#[test]
fn multiply_skips_the_last_slot_of_each_operand() {
    assert_eq!(poly(&[1, 1, 1]).multiply(&poly(&[1, 1, 1])).coeffs, poly(&[1, 2, 1]).coeffs);
    assert_eq!(poly(&[1, 2, 3]).multiply(&poly(&[1, 0])).coeffs, poly(&[1, 2, 0]).coeffs);
    assert_eq!(poly(&[1, 2, 3]).multiply(&poly(&[5])).coeffs, poly(&[0, 0, 0]).coeffs);
    assert_eq!(poly(&[5]).multiply(&poly(&[1, 2, 3])).coeffs, poly(&[0]).coeffs);
    assert_eq!(poly(&[1, 2, 3]).multiply(&poly(&[])).coeffs, poly(&[0, 0, 0]).coeffs);
    assert_eq!(poly(&[]).multiply(&poly(&[1, 2, 3])).coeffs.len(), 0);
}

#[test]
fn multiply_drops_the_terms_past_its_length() {
    assert_eq!(poly(&[0, 1, 0]).multiply(&poly(&[0, 0, 1, 0])).coeffs, poly(&[0, 0, 0]).coeffs);
    assert_eq!(poly(&[1, 1, 0]).multiply(&poly(&[1, 1, 1, 0])).coeffs, poly(&[1, 2, 2]).coeffs);
    assert_eq!(poly(&[1, 2, 3, 0]).multiply(&poly(&[1, 1, 1, 1, 0])).coeffs, poly(&[1, 3, 6, 6]).coeffs);
}

#[test]
fn divide_by_the_zero_polynomial_is_an_error() {
    let zero = Polynomial::new_zero_poly(3);
    assert_eq!(poly(&[1, 0, 0]).divide(&zero, None).unwrap_err(), KzgError::DivisionByZero);
    assert_eq!(poly(&[0, 0, 2]).divide(&zero, Some(poly(&[7, 7, 7]))).unwrap_err(), KzgError::DivisionByZero);
    assert_eq!(poly(&[4]).divide(&poly(&[]), None).unwrap_err(), KzgError::DivisionByZero);
}

#[test]
fn divide_zero_by_zero_has_nothing_to_do() {
    let zero = Polynomial::new_zero_poly(3);
    let (quotient, remainder) = zero.divide(&zero, None).unwrap();
    assert_eq!(quotient.coeffs, poly(&[0, 0, 0]).coeffs);
    assert_eq!(remainder.coeffs, poly(&[0, 0, 0]).coeffs);
    let (quotient, remainder) = Polynomial::new_zero_poly(2).divide(&zero, Some(poly(&[1, 2, 3, 4]))).unwrap();
    assert_eq!(quotient.coeffs, poly(&[1, 2, 3, 4]).coeffs);
    assert_eq!(remainder.coeffs, poly(&[0, 0]).coeffs);
}

#[test]
fn divide_a_dividend_of_lower_degree_leaves_it_as_remainder() {
    let (quotient, remainder) = poly(&[3, 0, 0]).divide(&poly(&[1, 1, 0]), None).unwrap();
    assert_eq!(quotient.coeffs, poly(&[0, 0, 0]).coeffs);
    assert_eq!(remainder.coeffs, poly(&[3, 0, 0]).coeffs);
    let (quotient, remainder) = poly(&[3, 2]).divide(&poly(&[1, 1, 4, 0]), Some(poly(&[9]))).unwrap();
    assert_eq!(quotient.coeffs, poly(&[9]).coeffs);
    assert_eq!(remainder.coeffs, poly(&[3, 2]).coeffs);
}

#[test]
fn divide_lengths_follow_the_operands() {
    // x^3 - 2x^2 - 4 by x - 3, with a divisor longer than the dividend.
    let (quotient, remainder) = poly(&[-4, 0, -2, 1]).divide(&poly(&[-3, 1, 0, 0, 0, 0]), None).unwrap();
    assert_eq!(quotient.coeffs, poly(&[3, 1, 1, 0]).coeffs);
    assert_eq!(remainder.coeffs, poly(&[5, 0, 0, 0, 0, 0]).coeffs);
    // With a dividend longer than the divisor.
    let (quotient, remainder) = poly(&[2, 3, 1, 0, 0]).divide(&poly(&[1, 1, 0]), None).unwrap();
    assert_eq!(quotient.coeffs, poly(&[2, 1, 0, 0, 0]).coeffs);
    assert_eq!(remainder.coeffs, poly(&[0, 0, 0, 0, 0]).coeffs);
}

#[test]
fn divide_writes_into_the_quotient_it_is_given() {
    // x^2 - 4 by x - 2 writes slots 1 and 0 and leaves the rest.
    let start = poly(&[0, 0, 8, 9]);
    let (quotient, remainder) = poly(&[-4, 0, 1]).divide(&poly(&[-2, 1, 0]), Some(start)).unwrap();
    assert_eq!(quotient.coeffs, poly(&[2, 1, 8, 9]).coeffs);
    assert_eq!(remainder.coeffs, poly(&[0, 0, 0]).coeffs);
    // x^2 by x: the step at degree one is not taken, and slot 0 is left as it was.
    let (quotient, remainder) = poly(&[0, 0, 1]).divide(&poly(&[0, 1, 0]), Some(poly(&[5, 5, 5]))).unwrap();
    assert_eq!(quotient.coeffs, poly(&[5, 1, 5]).coeffs);
    assert_eq!(remainder.coeffs, poly(&[0, 0, 0]).coeffs);
}

#[test]
fn divide_by_a_divisor_with_a_leading_coefficient_other_than_one() {
    // 6x^2 + 5x + 1 = (3x + 1)(2x + 1)
    let (quotient, remainder) = poly(&[1, 5, 6]).divide(&poly(&[1, 3, 0]), None).unwrap();
    assert_eq!(quotient.coeffs, poly(&[1, 2, 0]).coeffs);
    assert_eq!(remainder.coeffs, poly(&[0, 0, 0]).coeffs);
    // 6x^2 + 5x + 4 leaves 3.
    let (quotient, remainder) = poly(&[4, 5, 6]).divide(&poly(&[1, 3, 0]), None).unwrap();
    assert_eq!(quotient.coeffs, poly(&[1, 2, 0]).coeffs);
    assert_eq!(remainder.coeffs, poly(&[3, 0, 0]).coeffs);
}

fn assert_reconstructs(dividend: &[i64], divisor: &[i64]) {
    let dividend = poly(dividend);
    let divisor = poly(divisor);
    let (quotient, remainder) = dividend.divide(&divisor, None).unwrap();
    let rebuilt = plus(&quotient.multiply(&divisor), &remainder);
    for i in 0..rebuilt.coeffs.len() {
        let expected = if i < dividend.coeffs.len() { dividend.coeffs[i] } else { Scalar::zero() };
        assert_eq!(rebuilt.coeffs[i], expected);
    }
    assert!(rebuilt.coeffs.len() >= dividend.coeffs.len());
}

#[test]
fn quotient_times_divisor_plus_remainder_is_the_dividend() {
    assert_reconstructs(&[-4, 0, -2, 1], &[-3, 1, 0, 0]);
    assert_reconstructs(&[2, 3, 1], &[1, 1, 0]);
    assert_reconstructs(&[-4, 0, 1], &[-2, 1, 0]);
    assert_reconstructs(&[0, 1, 1], &[2, 2, 0]);
    assert_reconstructs(&[0, 0, 0, 0], &[-3, 1, 0, 0]);
    assert_reconstructs(&[7, -3, 0, 11, 5, 0], &[9, -4, 0, 0, 0, 0]);
    assert_reconstructs(&[1, 2, 3, 4, 5, 6, 7, 0], &[-5, 1, 0, 0, 0, 0, 0, 0, 0]);
    assert_reconstructs(&[4, 5, 6], &[1, 3, 0]);
}
