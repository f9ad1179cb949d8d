//! Points of the two source groups of the pairing, and elements of its
//! target group.
//!
//! All three groups are cyclic, of the prime order of the scalar field, so an
//! element is known by its exponent: the `k` below that order with
//! `element == generator * k`. The view of an element is this exponent. It is
//! a name for the element in contracts only, which nothing computes: the
//! arithmetic is that of `blstrs`, and the contracts here say what it does to
//! the exponents.

use crate::scalar::{modulus, Scalar};
use vstd::prelude::*;

verus! {

/// `G1Projective` of blstrs, of which nothing but its exponent is said.
#[verifier::external_type_specification]
#[verifier::external_body]
pub struct ExG1Projective(blstrs::G1Projective);

/// `G2Projective` of blstrs, of which nothing but its exponent is said.
#[verifier::external_type_specification]
#[verifier::external_body]
pub struct ExG2Projective(blstrs::G2Projective);

/// `Gt` of blstrs, of which nothing but its exponent is said.
#[verifier::external_type_specification]
#[verifier::external_body]
pub struct ExGt(blstrs::Gt);

/// The exponent of a point of the first source group with respect to the
/// group's generator: the one `k` in `0..modulus()` with
/// `point == generator * k`.
pub uninterp spec fn g1_exponent(point: blstrs::G1Projective) -> int;

/// The exponent of a point of the second source group with respect to the
/// group's generator: the one `k` in `0..modulus()` with
/// `point == generator * k`.
pub uninterp spec fn g2_exponent(point: blstrs::G2Projective) -> int;

/// The exponent of an element of the target group with respect to the
/// pairing of the two generators: the one `k` in `0..modulus()` with
/// `element == pairing(generator, generator) * k`.
pub uninterp spec fn gt_exponent(element: blstrs::Gt) -> int;

/// A point of the first source group.
#[derive(Clone, Copy, Debug, PartialEq, Eq)]
pub struct G1Point {
    point: blstrs::G1Projective,
}

/// A point of the second source group.
#[derive(Clone, Copy, Debug, PartialEq, Eq)]
pub struct G2Point {
    point: blstrs::G2Projective,
}

/// An element of the target group.
#[derive(Clone, Copy, Debug, PartialEq, Eq)]
pub struct TargetElement {
    element: blstrs::Gt,
}

impl View for G1Point {
    type V = int;

    closed spec fn view(&self) -> int {
        g1_exponent(self.point)
    }
}

impl View for G2Point {
    type V = int;

    closed spec fn view(&self) -> int {
        g2_exponent(self.point)
    }
}

impl View for TargetElement {
    type V = int;

    closed spec fn view(&self) -> int {
        gt_exponent(self.element)
    }
}

impl G1Point {
    /// The neutral element.
    pub fn identity() -> (r: Self)
        ensures
            r@ == 0,
    {
        g1_identity()
    }

    /// The generator that exponents are counted from.
    pub fn generator() -> (r: Self)
        ensures
            r@ == 1,
    {
        g1_generator()
    }

    /// The sum of two points.
    pub fn add(&self, rhs: &G1Point) -> (r: G1Point)
        ensures
            r@ == (self@ + rhs@) % modulus(),
    {
        g1_add(self, rhs)
    }

    /// The difference of two points.
    pub fn sub(&self, rhs: &G1Point) -> (r: G1Point)
        ensures
            r@ == (self@ - rhs@) % modulus(),
    {
        g1_sub(self, rhs)
    }

    /// The point taken `scalar` times.
    pub fn mul(&self, scalar: &Scalar) -> (r: G1Point)
        ensures
            r@ == (self@ * scalar@) % modulus(),
    {
        g1_mul(self, scalar)
    }
}

impl G2Point {
    /// The generator that exponents are counted from.
    pub fn generator() -> (r: Self)
        ensures
            r@ == 1,
    {
        g2_generator()
    }

    /// The difference of two points.
    pub fn sub(&self, rhs: &G2Point) -> (r: G2Point)
        ensures
            r@ == (self@ - rhs@) % modulus(),
    {
        g2_sub(self, rhs)
    }

    /// The point taken `scalar` times.
    pub fn mul(&self, scalar: &Scalar) -> (r: G2Point)
        ensures
            r@ == (self@ * scalar@) % modulus(),
    {
        g2_mul(self, scalar)
    }
}

impl TargetElement {
    /// Whether two elements of the target group are the same.
    pub fn equals(&self, other: &TargetElement) -> (r: bool)
        ensures
            r == (self@ == other@),
    {
        gt_eq(self, other)
    }
}

/// The pairing of a point of the first group with one of the second: the
/// exponents multiply.
pub fn pairing(p: &G1Point, q: &G2Point) -> (r: TargetElement)
    ensures
        r@ == (p@ * q@) % modulus(),
{
    pairing_of(p, q)
}

/// `Group::identity` of blstrs's `G1Projective`: the point at infinity, the
/// generator taken zero times.
#[verifier::external_body]
fn g1_identity() -> (r: G1Point)
    ensures
        g1_exponent(r.point) == 0,
{
    G1Point { point: <blstrs::G1Projective as group::Group>::identity() }
}

/// `Group::generator` of blstrs's `G1Projective`: the fixed generator of the
/// group, which is the generator taken once.
#[verifier::external_body]
fn g1_generator() -> (r: G1Point)
    ensures
        g1_exponent(r.point) == 1,
{
    G1Point { point: <blstrs::G1Projective as group::Group>::generator() }
}

/// `Add` of blstrs's `G1Projective`: the group law, under which exponents
/// add modulo the group's order.
#[verifier::external_body]
fn g1_add(a: &G1Point, b: &G1Point) -> (r: G1Point)
    ensures
        g1_exponent(r.point) == (g1_exponent(a.point) + g1_exponent(b.point)) % modulus(),
{
    G1Point { point: a.point + b.point }
}

/// `Sub` of blstrs's `G1Projective`: the sum with the negated point, under
/// which exponents subtract modulo the group's order.
#[verifier::external_body]
fn g1_sub(a: &G1Point, b: &G1Point) -> (r: G1Point)
    ensures
        g1_exponent(r.point) == (g1_exponent(a.point) - g1_exponent(b.point)) % modulus(),
{
    G1Point { point: a.point - b.point }
}

/// `Mul<Scalar>` of blstrs's `G1Projective`: the point added to itself
/// `scalar` times, which multiplies its exponent by the scalar modulo the
/// group's order.
#[verifier::external_body]
fn g1_mul(a: &G1Point, scalar: &Scalar) -> (r: G1Point)
    ensures
        g1_exponent(r.point) == (g1_exponent(a.point) * scalar@) % modulus(),
{
    G1Point { point: a.point * blstrs::Scalar::from_u64s_le(&scalar.to_u64s_le()).unwrap() }
}

/// `Group::generator` of blstrs's `G2Projective`: the fixed generator of the
/// group, which is the generator taken once.
#[verifier::external_body]
fn g2_generator() -> (r: G2Point)
    ensures
        g2_exponent(r.point) == 1,
{
    G2Point { point: <blstrs::G2Projective as group::Group>::generator() }
}

/// `Sub` of blstrs's `G2Projective`: the sum with the negated point, under
/// which exponents subtract modulo the group's order.
#[verifier::external_body]
fn g2_sub(a: &G2Point, b: &G2Point) -> (r: G2Point)
    ensures
        g2_exponent(r.point) == (g2_exponent(a.point) - g2_exponent(b.point)) % modulus(),
{
    G2Point { point: a.point - b.point }
}

/// `Mul<Scalar>` of blstrs's `G2Projective`: the point added to itself
/// `scalar` times, which multiplies its exponent by the scalar modulo the
/// group's order.
#[verifier::external_body]
fn g2_mul(a: &G2Point, scalar: &Scalar) -> (r: G2Point)
    ensures
        g2_exponent(r.point) == (g2_exponent(a.point) * scalar@) % modulus(),
{
    G2Point { point: a.point * blstrs::Scalar::from_u64s_le(&scalar.to_u64s_le()).unwrap() }
}

/// `pairing` of blstrs, on the affine forms of the two points: the pairing
/// is bilinear and maps the two generators to the generator of the target
/// group, so the exponent of the result is the product of the two exponents
/// modulo the groups' order.
#[verifier::external_body]
fn pairing_of(p: &G1Point, q: &G2Point) -> (r: TargetElement)
    ensures
        gt_exponent(r.element) == (g1_exponent(p.point) * g2_exponent(q.point)) % modulus(),
{
    let p_affine = group::Curve::to_affine(&p.point);
    let q_affine = group::Curve::to_affine(&q.point);
    TargetElement { element: blstrs::pairing(&p_affine, &q_affine) }
}

/// `PartialEq` of blstrs's `Gt`: two results of the pairing are equal where
/// their exponents are.
#[verifier::external_body]
fn gt_eq(a: &TargetElement, b: &TargetElement) -> (r: bool)
    ensures
        r == (gt_exponent(a.element) == gt_exponent(b.element)),
{
    a.element == b.element
}

} // verus!
