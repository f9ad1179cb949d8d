//! The commitment scheme: parameters, commitments, opening proofs and their check.

use crate::algebra::lemma_pow_step;
use crate::curve::{pairing, G1Point, G2Point, TargetElement};
use crate::error::KzgError;
use crate::opening::{
    lemma_opening_divisor, lemma_opening_remainder, opening_divisor, opening_numerator,
    opening_quotient,
};
use crate::polynomial::{poly_eval, Polynomial};
use crate::scalar::{modulus, Scalar};
use vstd::arithmetic::div_mod::{lemma_add_mod_noop, lemma_mod_twice, lemma_small_mod};
use vstd::arithmetic::power::{lemma0_pow, lemma1_pow, pow};
use vstd::prelude::*;

verus! {

/// What a setup hands out: the bound on the length of polynomials, a
/// generator of each source group, and the generators raised to the powers
/// `s^0, .., s^(n-1)` of a secret `s` that the setup forgets.
#[derive(Clone, Debug)]
pub struct PublicParams {
    /// The length of the polynomials that can be committed to.
    pub n: usize,
    /// The generator of the first group.
    pub gen1: G1Point,
    /// The generator of the second group.
    pub gen2: G2Point,
    /// The generator of the first group raised to `s^0, .., s^(n-1)`.
    pub g1_elements: Vec<G1Point>,
    /// The generator of the second group raised to `s^0, .., s^(n-1)`.
    pub g2_elements: Vec<G2Point>,
}

/// An opening proof: the commitment to the quotient `(p(x) - y) / (x - z)`,
/// the point `z`, and the value `y` that the polynomial is claimed to take
/// there.
#[derive(Clone, Copy, Debug)]
pub struct Witness {
    /// The commitment to the quotient.
    pub point: G1Point,
    /// The point at which the polynomial is opened.
    pub z: Scalar,
    /// The value claimed for the polynomial at `z`.
    pub y: Scalar,
}

/// The scheme over one set of public parameters.
#[derive(Clone, Debug)]
pub struct KZGPolyCommitmentScheme {
    /// The parameters, which no operation changes.
    pub pp: PublicParams,
}

/// The exponents of a sequence of points of the first group.
pub open spec fn g1_exponents(points: Seq<G1Point>) -> Seq<int> {
    points.map_values(|p: G1Point| p@)
}

/// The sum of `scalars[i] * points[i]` over the first `n` indices, as an integer.
pub open spec fn weighted_sum(points: Seq<int>, scalars: Seq<int>, n: nat) -> int
    decreases n,
{
    if n == 0 {
        0
    } else {
        weighted_sum(points, scalars, (n - 1) as nat) + points[n - 1] * scalars[n - 1]
    }
}

/// The exponent of the commitment to the coefficients `coeffs` under the
/// points with exponents `points`: the sum of `coeffs[i] * points[i]`, over
/// the indices that both have.
pub open spec fn commitment_of(points: Seq<int>, coeffs: Seq<int>) -> int {
    weighted_sum(
        points,
        coeffs,
        if points.len() <= coeffs.len() {
            points.len()
        } else {
            coeffs.len()
        },
    ) % modulus()
}

/// The equation that `verify` tests, over exponents:
/// `e(point, [s]_2 - [z]_2) == e(commitment - [y]_1, [1]_2)`, where `s_2` is the
/// exponent of `[s]_2` and `gen1`, `gen2` are those of the two generators.
pub open spec fn pairing_equation(
    gen1: int,
    gen2: int,
    s_2: int,
    point: int,
    z: int,
    y: int,
    commitment: int,
) -> bool {
    (point * ((s_2 - (gen2 * z) % modulus()) % modulus())) % modulus() == (((commitment - (gen1
        * y) % modulus()) % modulus()) * gen2) % modulus()
}

impl PublicParams {
    /// Whether these are the parameters that a setup makes from the secret
    /// `secret`: the two generators, and `n` powers of each.
    pub open spec fn derived_from(&self, secret: int) -> bool {
        &&& self.gen1@ == 1
        &&& self.gen2@ == 1
        &&& self.g1_elements@.len() == self.n
        &&& self.g2_elements@.len() == self.n
        &&& forall|i: int|
            0 <= i < self.n ==> (#[trigger] self.g1_elements@[i])@ == pow(secret, i as nat)
                % modulus()
        &&& forall|i: int|
            0 <= i < self.n ==> (#[trigger] self.g2_elements@[i])@ == pow(secret, i as nat)
                % modulus()
    }
}

/// The ascending powers `x^0, x^1, .., x^(n-1)` of a field element.
///
/// The first power is one whatever `x` is, so the powers of zero are one
/// and then zeros.
pub fn scalar_powers(x: Scalar, n: usize) -> (result: Vec<Scalar>)
    ensures
        result@.len() == n,
        forall|i: int| 0 <= i < n ==> (#[trigger] result@[i])@ == pow(x@, i as nat) % modulus(),
        x@ == 1 ==> forall|i: int| 0 <= i < n ==> (#[trigger] result@[i])@ == 1,
        x@ == 0 ==> forall|i: int| 1 <= i < n ==> (#[trigger] result@[i])@ == 0,
{
    let mut result: Vec<Scalar> = Vec::new();
    let mut current: Scalar = Scalar::one();
    let mut i: usize = 0;
    proof {
        lemma_pow_step(x@, 0);
    }
    while i < n
        invariant
            i <= n,
            result@.len() == i,
            current@ == pow(x@, i as nat) % modulus(),
            forall|k: int| 0 <= k < i ==> (#[trigger] result@[k])@ == pow(x@, k as nat) % modulus(),
        decreases n - i,
    {
        result.push(current);
        let next: Scalar = current.mul(&x);
        proof {
            lemma_pow_step(x@, i as nat);
        }
        current = next;
        i = i + 1;
    }
    proof {
        lemma_small_mod(1, modulus() as nat);
        lemma_small_mod(0, modulus() as nat);
        assert forall|k: int| 0 <= k < n && x@ == 1 implies (#[trigger] result@[k])@ == 1 by {
            lemma1_pow(k as nat);
        }
        assert forall|k: int| 1 <= k < n && x@ == 0 implies (#[trigger] result@[k])@ == 0 by {
            lemma0_pow(k as nat);
        }
    }
    result
}

/// The sum of the points, each taken as many times as the coefficient at
/// its index says, over the indices that both have.
fn multi_scalar_mul(points: &Vec<G1Point>, poly: &Polynomial<Scalar>) -> (r: G1Point)
    ensures
        r@ == commitment_of(g1_exponents(points@), poly@),
{
    let len: usize = if points.len() <= poly.coeffs.len() {
        points.len()
    } else {
        poly.coeffs.len()
    };
    let mut result: G1Point = G1Point::identity();
    proof {
        lemma_small_mod(0, modulus() as nat);
    }
    let mut i: usize = 0;
    while i < len
        invariant
            i <= len,
            len <= points@.len(),
            len <= poly.coeffs@.len(),
            result@ == weighted_sum(g1_exponents(points@), poly@, i as nat) % modulus(),
        decreases len - i,
    {
        let term: G1Point = points[i].mul(&poly.coeffs[i]);
        proof {
            let sum: int = weighted_sum(g1_exponents(points@), poly@, i as nat);
            lemma_add_mod_noop(sum, points@[i as int]@ * poly@[i as int], modulus());
            lemma_mod_twice(sum, modulus());
        }
        result = result.add(&term);
        i = i + 1;
    }
    result
}

impl KZGPolyCommitmentScheme {
    /// The scheme over parameters for polynomials of length `n`, made from
    /// a secret that is drawn at random and then dropped.
    ///
    /// Whoever knows the secret can forge proofs. One party that draws it
    /// alone stands in for a ceremony of many: this is not for deployment.
    pub fn setup(n: usize) -> (r: Self)
        ensures
            r.pp.n == n,
            r.pp.g1_elements@.len() == n,
            r.pp.g2_elements@.len() == n,
            exists|secret: int| 0 <= secret < modulus() && #[trigger] r.pp.derived_from(secret),
    {
        let secret: Scalar = Scalar::random();
        proof {
            use_type_invariant(&secret);
        }
        Self::setup_with_secret(n, secret)
    }

    /// The scheme over the parameters that the secret `secret` gives: the
    /// generator of each group raised to `secret^0, .., secret^(n-1)`.
    pub fn setup_with_secret(n: usize, secret: Scalar) -> (r: Self)
        ensures
            r.pp.n == n,
            r.pp.derived_from(secret@),
    {
        let gen1: G1Point = G1Point::generator();
        let gen2: G2Point = G2Point::generator();
        let secret_powers: Vec<Scalar> = scalar_powers(secret, n);
        let mut g1_elements: Vec<G1Point> = Vec::new();
        let mut g2_elements: Vec<G2Point> = Vec::new();
        let mut i: usize = 0;
        while i < n
            invariant
                i <= n,
                gen1@ == 1,
                gen2@ == 1,
                secret_powers@.len() == n,
                forall|k: int|
                    0 <= k < n ==> (#[trigger] secret_powers@[k])@ == pow(secret@, k as nat)
                        % modulus(),
                g1_elements@.len() == i,
                g2_elements@.len() == i,
                forall|k: int|
                    0 <= k < i ==> (#[trigger] g1_elements@[k])@ == pow(secret@, k as nat)
                        % modulus(),
                forall|k: int|
                    0 <= k < i ==> (#[trigger] g2_elements@[k])@ == pow(secret@, k as nat)
                        % modulus(),
            decreases n - i,
        {
            proof {
                lemma_mod_twice(pow(secret@, i as nat), modulus());
                assert(1 * secret_powers@[i as int]@ == secret_powers@[i as int]@);
            }
            g1_elements.push(gen1.mul(&secret_powers[i]));
            g2_elements.push(gen2.mul(&secret_powers[i]));
            i = i + 1;
        }
        KZGPolyCommitmentScheme { pp: PublicParams { n, gen1, gen2, g1_elements, g2_elements } }
    }

    /// The commitment to a polynomial of the parameters' length: the sum of
    /// the points of the first group, each taken as many times as the
    /// coefficient at its index says.
    pub fn commit(&self, poly: &Polynomial<Scalar>) -> (r: Result<G1Point, KzgError>)
        ensures
            r is Err <==> poly@.len() != self.pp.n,
            r matches Err(e) ==> e == KzgError::LengthMismatch,
            r matches Ok(commitment) ==> commitment@ == commitment_of(
                g1_exponents(self.pp.g1_elements@),
                poly@,
            ),
    {
        if poly.coeffs.len() != self.pp.n {
            return Err(KzgError::LengthMismatch);
        }
        Ok(multi_scalar_mul(&self.pp.g1_elements, poly))
    }

    /// The witness to the value that the polynomial takes at `z`.
    ///
    /// The value is `y = poly(z)`, and the witness holds the commitment to
    /// the quotient of `poly(x) - y` by `x - z`, which leaves no remainder.
    pub fn create_witness(&self, poly: &Polynomial<Scalar>, z: Scalar) -> (r: Result<
        Witness,
        KzgError,
    >)
        requires
            1 <= self.pp.n < usize::MAX,
        ensures
            r is Err <==> poly@.len() != self.pp.n,
            r matches Err(e) ==> e == KzgError::LengthMismatch,
            r matches Ok(witness) ==> witness.z == z && witness.y@ == poly_eval(poly@, z@)
                && witness.point@ == commitment_of(
                g1_exponents(self.pp.g1_elements@),
                opening_quotient(poly@, z@, poly_eval(poly@, z@)),
            ),
    {
        // Calculate y := p(z).
        let y: Scalar = poly.evaluate(z);
        self.create_witness_for(poly, z, y)
    }

    /// The witness to the claim that the polynomial takes the value `y` at
    /// `z`, if it does.
    ///
    /// The quotient of `poly(x) - y` by `x - z` leaves a remainder exactly
    /// where the claim is false: that is an `IntegrityViolation`, and no
    /// witness is made.
    pub fn create_witness_for(&self, poly: &Polynomial<Scalar>, z: Scalar, y: Scalar) -> (r:
        Result<Witness, KzgError>)
        requires
            1 <= self.pp.n < usize::MAX,
        ensures
            r is Err <==> poly@.len() != self.pp.n || y@ != poly_eval(poly@, z@),
            r matches Err(e) ==> e == (if poly@.len() != self.pp.n {
                KzgError::LengthMismatch
            } else {
                KzgError::IntegrityViolation
            }),
            r matches Ok(witness) ==> witness.z == z && witness.y == y && witness.point@
                == commitment_of(
                g1_exponents(self.pp.g1_elements@),
                opening_quotient(poly@, z@, y@),
            ),
    {
        if poly.coeffs.len() != self.pp.n {
            return Err(KzgError::LengthMismatch);
        }
        // Calculate the numerator of q(X).
        let mut numerator: Polynomial<Scalar> = poly.duplicate();
        assert(numerator@.len() == poly@.len());
        let constant: Scalar = numerator.coeffs[0].sub(&y);
        numerator.coeffs.set(0, constant);
        // Calculate the denominator of q(X).
        let mut denominator: Polynomial<Scalar> = Polynomial::new_zero_poly(self.pp.n + 1);
        let ghost zero = denominator@;
        assert(zero.len() == self.pp.n + 1);
        denominator.coeffs.set(0, Scalar::zero().sub(&z));
        denominator.coeffs.set(1, Scalar::one());
        proof {
            use_type_invariant(&y);
            assert(numerator@ =~= opening_numerator(poly@, y@));
            assert forall|k: int| 0 <= k < denominator@.len() implies denominator@[k]
                == opening_divisor(poly@.len() + 1, z@)[k] by {
                assert(zero[k] == 0);
            }
            assert(denominator@ =~= opening_divisor(poly@.len() + 1, z@));
            lemma_opening_divisor(poly@, z@, y@, 0);
            lemma_opening_remainder(poly@, z@, y@);
        }
        let (quotient, remainder) = match numerator.divide(&denominator, None) {
            Ok(pair) => pair,
            Err(error) => {
                return Err(error);
            },
        };
        if remainder.degree().is_some() {
            return Err(KzgError::IntegrityViolation);
        }
        let point: G1Point = multi_scalar_mul(&self.pp.g1_elements, &quotient);
        Ok(Witness { point, z, y })
    }

    /// Whether the witness shows that the committed polynomial takes the
    /// value `witness.y` at `witness.z`: whether
    /// `e(witness.point, [s]_2 - [z]_2) == e(commitment - [y]_1, [1]_2)`.
    pub fn verify(&self, witness: &Witness, commitment: &G1Point) -> (r: bool)
        requires
            self.pp.g2_elements@.len() >= 2,
        ensures
            r == pairing_equation(
                self.pp.gen1@,
                self.pp.gen2@,
                self.pp.g2_elements@[1]@,
                witness.point@,
                witness.z@,
                witness.y@,
                commitment@,
            ),
    {
        // The left side: e(proof, [s - z]_2).
        let s_point_in_g2: G2Point = self.pp.g2_elements[1];
        let z_point_in_g2: G2Point = self.pp.gen2.mul(&witness.z);
        let s_minus_z: G2Point = s_point_in_g2.sub(&z_point_in_g2);
        let lhs: TargetElement = pairing(&witness.point, &s_minus_z);
        // The right side: e(C - [y]_1, H).
        let y_point_in_g1: G1Point = self.pp.gen1.mul(&witness.y);
        let c_minus_y: G1Point = commitment.sub(&y_point_in_g1);
        let rhs: TargetElement = pairing(&c_minus_y, &self.pp.gen2);
        rhs.equals(&lhs)
    }
}

} // verus!
