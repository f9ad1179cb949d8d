use krazyg::curve::{G1Point, G2Point};
use krazyg::error::KzgError;
use krazyg::kzg::{scalar_powers, KZGPolyCommitmentScheme, Witness};
use krazyg::polynomial::Polynomial;
use krazyg::scalar::Scalar;

fn signed(value: i64) -> Scalar {
    if value >= 0 {
        Scalar::from(value as u64)
    } else {
        Scalar::zero().sub(&Scalar::from(value.unsigned_abs()))
    }
}

fn poly(coeffs: &[i64]) -> Polynomial<Scalar> {
    Polynomial::new(coeffs.iter().map(|c| signed(*c)).collect())
}

#[test]
fn powers_ascend_from_one() {
    let expected: Vec<Scalar> = [1u64, 3, 9, 27, 81, 243].iter().map(|v| Scalar::from(*v)).collect();
    assert_eq!(scalar_powers(Scalar::from(3), 6), expected);
    let x = signed(-2);
    let powers = scalar_powers(x, 5);
    assert_eq!(powers, vec![signed(1), signed(-2), signed(4), signed(-8), signed(16)]);
}

#[test]
fn powers_of_one_are_ones() {
    for n in 0..7 {
        assert_eq!(scalar_powers(Scalar::one(), n), vec![Scalar::one(); n]);
    }
}

#[test]
fn powers_of_zero_are_one_and_then_zeros() {
    assert_eq!(scalar_powers(Scalar::zero(), 4), vec![Scalar::one(), Scalar::zero(), Scalar::zero(), Scalar::zero()]);
    assert_eq!(scalar_powers(Scalar::zero(), 1), vec![Scalar::one()]);
}

#[test]
fn no_powers_for_a_length_of_zero() {
    assert_eq!(scalar_powers(Scalar::from(5), 0), vec![]);
    assert_eq!(scalar_powers(Scalar::zero(), 0), vec![]);
}

#[test]
fn setup_gives_n_elements_in_each_group() {
    for n in 1..7 {
        let scheme = KZGPolyCommitmentScheme::setup(n);
        assert_eq!(scheme.pp.n, n);
        assert_eq!(scheme.pp.g1_elements.len(), n);
        assert_eq!(scheme.pp.g2_elements.len(), n);
        assert_eq!(scheme.pp.gen1, G1Point::generator());
        assert_eq!(scheme.pp.gen2, G2Point::generator());
        assert_eq!(scheme.pp.g1_elements[0], G1Point::generator());
        assert_eq!(scheme.pp.g2_elements[0], G2Point::generator());
    }
    assert_eq!(KZGPolyCommitmentScheme::setup(0).pp.g1_elements.len(), 0);
}

#[test]
fn setup_draws_a_new_secret_each_time() {
    let a = KZGPolyCommitmentScheme::setup(2);
    let b = KZGPolyCommitmentScheme::setup(2);
    assert_ne!(a.pp.g1_elements[1], b.pp.g1_elements[1]);
}

#[test]
fn setup_with_secret_gives_the_powers_of_the_secret() {
    let scheme = KZGPolyCommitmentScheme::setup_with_secret(4, Scalar::from(5));
    let g = G1Point::generator();
    let h = G2Point::generator();
    assert_eq!(scheme.pp.n, 4);
    assert_eq!(scheme.pp.gen1, g);
    assert_eq!(scheme.pp.gen2, h);
    let powers = [1u64, 5, 25, 125];
    assert_eq!(scheme.pp.g1_elements.len(), 4);
    assert_eq!(scheme.pp.g2_elements.len(), 4);
    for i in 0..4 {
        assert_eq!(scheme.pp.g1_elements[i], g.mul(&Scalar::from(powers[i])));
        assert_eq!(scheme.pp.g2_elements[i], h.mul(&Scalar::from(powers[i])));
    }
}

#[test]
fn commit_is_the_value_at_the_secret() {
    let scheme = KZGPolyCommitmentScheme::setup_with_secret(3, Scalar::from(5));
    let g = G1Point::generator();
    // 2 + 3 * 5 + 4 * 25
    assert_eq!(scheme.commit(&poly(&[2, 3, 4])).unwrap(), g.mul(&Scalar::from(117)));
    assert_eq!(scheme.commit(&poly(&[0, 0, 0])).unwrap(), G1Point::identity());
    assert_eq!(scheme.commit(&poly(&[1, 0, 0])).unwrap(), g);
    assert_eq!(scheme.commit(&poly(&[-4, 0, 1])).unwrap(), g.mul(&Scalar::from(21)));
}

#[test]
fn commit_refuses_another_length() {
    let scheme = KZGPolyCommitmentScheme::setup(3);
    assert_eq!(scheme.commit(&poly(&[1, 2])).unwrap_err(), KzgError::LengthMismatch);
    assert_eq!(scheme.commit(&poly(&[1, 2, 3, 4])).unwrap_err(), KzgError::LengthMismatch);
    assert_eq!(scheme.commit(&poly(&[])).unwrap_err(), KzgError::LengthMismatch);
    assert!(scheme.commit(&poly(&[1, 2, 3])).is_ok());
}

#[test]
fn witness_holds_the_value_and_the_quotient() {
    let scheme = KZGPolyCommitmentScheme::setup_with_secret(3, Scalar::from(5));
    // (x^2 - 4) / (x - 2) = x + 2, which is 7 at the secret.
    let witness = scheme.create_witness(&poly(&[-4, 0, 1]), Scalar::from(2)).unwrap();
    assert_eq!(witness.z, Scalar::from(2));
    assert_eq!(witness.y, Scalar::zero());
    assert_eq!(witness.point, G1Point::generator().mul(&Scalar::from(7)));
    // (x^2 - 4 - 5) / (x - 3) = x + 3, which is 8 at the secret.
    let witness = scheme.create_witness(&poly(&[-4, 0, 1]), Scalar::from(3)).unwrap();
    assert_eq!(witness.z, Scalar::from(3));
    assert_eq!(witness.y, Scalar::from(5));
    assert_eq!(witness.point, G1Point::generator().mul(&Scalar::from(8)));
}

#[test]
fn witness_refuses_another_length() {
    let scheme = KZGPolyCommitmentScheme::setup(3);
    assert_eq!(scheme.create_witness(&poly(&[1, 2]), Scalar::one()).err(), Some(KzgError::LengthMismatch));
    assert_eq!(scheme.create_witness(&poly(&[1, 2, 3, 4]), Scalar::one()).err(), Some(KzgError::LengthMismatch));
    assert_eq!(scheme.create_witness(&poly(&[]), Scalar::one()).err(), Some(KzgError::LengthMismatch));
    assert_eq!(scheme.create_witness_for(&poly(&[1]), Scalar::one(), Scalar::one()).err(), Some(KzgError::LengthMismatch));
    assert_eq!(scheme.create_witness_for(&poly(&[1]), Scalar::one(), Scalar::from(9)).err(), Some(KzgError::LengthMismatch));
}

#[test]
fn witness_for_a_false_value_is_an_integrity_violation() {
    let scheme = KZGPolyCommitmentScheme::setup(3);
    let p = poly(&[-4, 0, 1]);
    assert_eq!(scheme.create_witness_for(&p, Scalar::from(2), Scalar::one()).err(), Some(KzgError::IntegrityViolation));
    assert_eq!(scheme.create_witness_for(&p, Scalar::from(3), Scalar::from(4)).err(), Some(KzgError::IntegrityViolation));
    assert_eq!(scheme.create_witness_for(&poly(&[7, 0, 0]), Scalar::from(3), Scalar::zero()).err(), Some(KzgError::IntegrityViolation));
    let one = KZGPolyCommitmentScheme::setup(1);
    assert_eq!(one.create_witness_for(&poly(&[7]), Scalar::from(3), Scalar::from(6)).err(), Some(KzgError::IntegrityViolation));
}

#[test]
fn witness_for_the_true_value_is_the_witness() {
    let scheme = KZGPolyCommitmentScheme::setup(3);
    let p = poly(&[-4, 0, 1]);
    let expected = scheme.create_witness(&p, Scalar::from(3)).unwrap();
    let witness = scheme.create_witness_for(&p, Scalar::from(3), Scalar::from(5)).unwrap();
    assert_eq!(witness.point, expected.point);
    assert_eq!(witness.z, expected.z);
    assert_eq!(witness.y, expected.y);
    let one = KZGPolyCommitmentScheme::setup(1);
    let witness = one.create_witness_for(&poly(&[7]), Scalar::from(3), Scalar::from(7)).unwrap();
    assert_eq!(witness.point, G1Point::identity());
    assert_eq!(witness.y, Scalar::from(7));
}

fn assert_complete(n: usize, coeffs: &[i64], z: i64) {
    let scheme = KZGPolyCommitmentScheme::setup(n);
    let p = poly(coeffs);
    let commitment = scheme.commit(&p).unwrap();
    let witness = scheme.create_witness(&p, signed(z)).unwrap();
    assert_eq!(witness.y, p.evaluate(signed(z)));
    assert!(scheme.verify(&witness, &commitment));
}

#[test]
fn honest_witnesses_verify() {
    assert_complete(2, &[0, 0], 0);
    assert_complete(2, &[5, 0], 9);
    assert_complete(2, &[3, 4], 7);
    assert_complete(3, &[-4, 0, 1], 2);
    assert_complete(3, &[-4, 0, 1], 0);
    assert_complete(3, &[0, 0, 0], 11);
    assert_complete(3, &[1, 0, 0], 11);
    assert_complete(4, &[-4, 0, -2, 1], 3);
    assert_complete(4, &[0, 0, 0, 1], -1);
    assert_complete(4, &[0, 1, 0, 0], 6);
    assert_complete(6, &[7, -3, 0, 11, 5, 0], -12);
    assert_complete(8, &[1, 2, 3, 4, 5, 6, 7, 8], 2);
}

#[test]
fn an_honest_witness_verifies_at_the_secret_itself() {
    let scheme = KZGPolyCommitmentScheme::setup_with_secret(3, Scalar::from(5));
    let p = poly(&[1, 2, 3]);
    let commitment = scheme.commit(&p).unwrap();
    let witness = scheme.create_witness(&p, Scalar::from(5)).unwrap();
    assert_eq!(witness.y, Scalar::from(86));
    assert!(scheme.verify(&witness, &commitment));
}

#[test]
fn a_witness_with_another_value_fails() {
    let scheme = KZGPolyCommitmentScheme::setup(4);
    let p = poly(&[-4, 0, -2, 1]);
    let commitment = scheme.commit(&p).unwrap();
    let witness = scheme.create_witness(&p, Scalar::from(3)).unwrap();
    assert_eq!(witness.y, Scalar::from(5));
    assert!(scheme.verify(&witness, &commitment));
    for wrong in [0i64, 1, 4, 6, -5, 1000] {
        let tampered = Witness { point: witness.point, z: witness.z, y: signed(wrong) };
        assert!(!scheme.verify(&tampered, &commitment));
    }
    let restored = Witness { point: witness.point, z: witness.z, y: Scalar::from(5) };
    assert!(scheme.verify(&restored, &commitment));
}

#[test]
fn a_witness_with_another_point_or_commitment_fails() {
    let scheme = KZGPolyCommitmentScheme::setup(3);
    let p = poly(&[1, 2, 3]);
    let commitment = scheme.commit(&p).unwrap();
    let witness = scheme.create_witness(&p, Scalar::from(4)).unwrap();
    let moved = Witness { point: witness.point, z: Scalar::from(5), y: witness.y };
    assert!(!scheme.verify(&moved, &commitment));
    let forged = Witness { point: witness.point.add(&G1Point::generator()), z: witness.z, y: witness.y };
    assert!(!scheme.verify(&forged, &commitment));
    assert!(!scheme.verify(&witness, &commitment.add(&G1Point::generator())));
    assert!(!scheme.verify(&witness, &scheme.commit(&poly(&[1, 2, 4])).unwrap()));
    assert!(scheme.verify(&witness, &commitment));
}

#[test]
fn commitments_add_like_polynomials() {
    let scheme = KZGPolyCommitmentScheme::setup(4);
    let pairs: [([i64; 4], [i64; 4]); 4] = [
        ([1, 2, 3, 4], [5, 6, 7, 8]),
        ([0, 0, 0, 0], [5, -6, 7, -8]),
        ([1, 2, 3, 4], [-1, -2, -3, -4]),
        ([-9, 0, 0, 1], [9, 0, 1, 0]),
    ];
    for (a, b) in pairs {
        let sum: Vec<Scalar> = (0..4).map(|i| signed(a[i]).add(&signed(b[i]))).collect();
        let left = scheme.commit(&poly(&a)).unwrap().add(&scheme.commit(&poly(&b)).unwrap());
        assert_eq!(left, scheme.commit(&Polynomial::new(sum)).unwrap());
    }
}

#[test]
fn commitments_subtract_like_polynomials() {
    let scheme = KZGPolyCommitmentScheme::setup(3);
    let a = poly(&[7, 8, 9]);
    let b = poly(&[1, -2, 30]);
    let left = scheme.commit(&a).unwrap().sub(&scheme.commit(&b).unwrap());
    assert_eq!(left, scheme.commit(&a.subtract(&b)).unwrap());
    assert_ne!(left, scheme.commit(&a).unwrap());
}
