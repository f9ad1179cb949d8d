//! Elements of the scalar field of BLS12-381.
//!
//! A [`Scalar`] holds the least non-negative representative of a residue
//! modulo the field's prime order. Its view is that integer, and the
//! arithmetic is stated over it; the arithmetic itself is done by `blstrs`.

use vstd::assert_by_contradiction;
use vstd::prelude::*;

verus! {

/// The order of the scalar field, a prime of 255 bits.
pub open spec fn modulus() -> int {
    0x73eda753299d7d483339d80809a1d80553bda402fffe5bfeffffffff00000001int
}

/// The integer that four little-endian limbs of 64 bits stand for.
pub open spec fn limbs_value(limbs: Seq<u64>) -> int {
    limbs[0] as int + limbs[1] as int * 0x1_0000_0000_0000_0000int + limbs[2] as int
        * 0x1_0000_0000_0000_0000_0000_0000_0000_0000int + limbs[3] as int
        * 0x1_0000_0000_0000_0000_0000_0000_0000_0000_0000_0000_0000_0000int
}

/// Limbs that stand for the same integer are the same limbs.
pub proof fn lemma_limbs_value_injective(a: Seq<u64>, b: Seq<u64>)
    requires
        a.len() == 4,
        b.len() == 4,
    ensures
        limbs_value(a) == limbs_value(b) ==> a[0] == b[0] && a[1] == b[1] && a[2] == b[2] && a[3]
            == b[3],
{
    let w: int = 0x1_0000_0000_0000_0000int;
    let low_a: int = a[0] as int + a[1] as int * w;
    let low_b: int = b[0] as int + b[1] as int * w;
    let mid_a: int = low_a + a[2] as int * (w * w);
    let mid_b: int = low_b + b[2] as int * (w * w);
    assert(w * w == 0x1_0000_0000_0000_0000_0000_0000_0000_0000int);
    assert(w * w * w == 0x1_0000_0000_0000_0000_0000_0000_0000_0000_0000_0000_0000_0000int);
    assert(0 <= low_a < w * w && 0 <= low_b < w * w);
    assert(0 <= mid_a < w * w * w && 0 <= mid_b < w * w * w);
    assert(limbs_value(a) == mid_a + a[3] as int * (w * w * w));
    assert(limbs_value(b) == mid_b + b[3] as int * (w * w * w));
    if limbs_value(a) == limbs_value(b) {
        assert_by_contradiction!(a[3] == b[3], {
            assert(a[3] + 1 <= b[3] || b[3] + 1 <= a[3]);
        });
        assert(mid_a == mid_b);
        assert_by_contradiction!(a[2] == b[2], {
            assert(a[2] + 1 <= b[2] || b[2] + 1 <= a[2]);
        });
        assert(low_a == low_b);
        assert_by_contradiction!(a[1] == b[1], {
            assert(a[1] + 1 <= b[1] || b[1] + 1 <= a[1]);
        });
    }
}

/// The least significant limb of the modulus.
pub const MODULUS_LIMB_0: u64 = 0xffff_ffff_0000_0001;

/// The second limb of the modulus.
pub const MODULUS_LIMB_1: u64 = 0x53bd_a402_fffe_5bfe;

/// The third limb of the modulus.
pub const MODULUS_LIMB_2: u64 = 0x3339_d808_09a1_d805;

/// The most significant limb of the modulus.
pub const MODULUS_LIMB_3: u64 = 0x73ed_a753_299d_7d48;

/// An element of the scalar field, held as the four little-endian limbs of
/// its least non-negative representative.
#[derive(Clone, Copy, Debug, PartialEq, Eq)]
pub struct Scalar {
    limbs: [u64; 4],
}

impl View for Scalar {
    type V = int;

    closed spec fn view(&self) -> int {
        limbs_value(self.limbs@)
    }
}

impl Scalar {
    /// Every scalar is held by its least non-negative representative.
    #[verifier::type_invariant]
    pub open spec fn canonical(self) -> bool {
        0 <= self@ < modulus()
    }

    /// The additive identity.
    pub fn zero() -> (r: Self)
        ensures
            r@ == 0,
    {
        Scalar { limbs: [0, 0, 0, 0] }
    }

    /// The multiplicative identity.
    pub fn one() -> (r: Self)
        ensures
            r@ == 1,
    {
        Scalar { limbs: [1, 0, 0, 0] }
    }

    /// The scalar with the given limbs, if they stand for a value below the modulus.
    pub fn from_u64s_le(limbs: [u64; 4]) -> (r: Option<Self>)
        ensures
            r is Some <==> limbs_value(limbs@) < modulus(),
            r matches Some(s) ==> s@ == limbs_value(limbs@),
    {
        let below: bool = limbs[3] < MODULUS_LIMB_3 || (limbs[3] == MODULUS_LIMB_3 && (limbs[2]
            < MODULUS_LIMB_2 || (limbs[2] == MODULUS_LIMB_2 && (limbs[1] < MODULUS_LIMB_1 || (
        limbs[1] == MODULUS_LIMB_1 && limbs[0] < MODULUS_LIMB_0)))));
        if below {
            Some(Scalar { limbs })
        } else {
            None
        }
    }

    /// The limbs of the least non-negative representative.
    pub fn to_u64s_le(&self) -> (r: [u64; 4])
        ensures
            limbs_value(r@) == self@,
    {
        self.limbs
    }

    /// Whether this is the additive identity.
    pub fn is_zero(&self) -> (r: bool)
        ensures
            r == (self@ == 0),
    {
        self.limbs[0] == 0 && self.limbs[1] == 0 && self.limbs[2] == 0 && self.limbs[3] == 0
    }

    /// Whether two scalars are the same element.
    pub fn equals(&self, other: &Scalar) -> (r: bool)
        ensures
            r == (self@ == other@),
    {
        proof {
            lemma_limbs_value_injective(self.limbs@, other.limbs@);
        }
        self.limbs[0] == other.limbs[0] && self.limbs[1] == other.limbs[1] && self.limbs[2]
            == other.limbs[2] && self.limbs[3] == other.limbs[3]
    }

    /// The sum in the field.
    pub fn add(&self, rhs: &Scalar) -> (r: Scalar)
        ensures
            r@ == (self@ + rhs@) % modulus(),
    {
        field_add(self, rhs)
    }

    /// The difference in the field.
    pub fn sub(&self, rhs: &Scalar) -> (r: Scalar)
        ensures
            r@ == (self@ - rhs@) % modulus(),
    {
        field_sub(self, rhs)
    }

    /// The product in the field.
    pub fn mul(&self, rhs: &Scalar) -> (r: Scalar)
        ensures
            r@ == (self@ * rhs@) % modulus(),
    {
        field_mul(self, rhs)
    }

    /// The multiplicative inverse, which every element but zero has.
    pub fn invert(&self) -> (r: Option<Scalar>)
        ensures
            r is Some <==> self@ != 0,
            r matches Some(inverse) ==> (self@ * inverse@) % modulus() == 1,
    {
        field_invert(self)
    }

    /// A scalar drawn from the operating system's source of randomness.
    pub fn random() -> (r: Scalar)
        ensures
            0 <= r@ < modulus(),
    {
        let r = field_random();
        proof {
            use_type_invariant(&r);
        }
        r
    }
}

impl vstd::std_specs::convert::FromSpecImpl<u64> for Scalar {
    open spec fn obeys_from_spec() -> bool {
        true
    }

    closed spec fn from_spec(value: u64) -> Scalar {
        Scalar { limbs: [value, 0, 0, 0] }
    }
}

impl From<u64> for Scalar {
    /// The scalar that stands for a machine integer.
    fn from(value: u64) -> (r: Scalar)
        ensures
            r@ == value,
    {
        Scalar { limbs: [value, 0, 0, 0] }
    }
}

/// `Add` of blstrs's `Scalar`: the sum in the field, as the representative below the modulus.
#[verifier::external_body]
fn field_add(a: &Scalar, b: &Scalar) -> (r: Scalar)
    ensures
        r@ == (a@ + b@) % modulus(),
{
    let x = blstrs::Scalar::from_u64s_le(&a.limbs).unwrap();
    let y = blstrs::Scalar::from_u64s_le(&b.limbs).unwrap();
    Scalar { limbs: ff::PrimeFieldBits::to_le_bits(&(x + y)).into_inner() }
}

/// `Sub` of blstrs's `Scalar`: the difference in the field, as the representative below the
/// modulus.
#[verifier::external_body]
fn field_sub(a: &Scalar, b: &Scalar) -> (r: Scalar)
    ensures
        r@ == (a@ - b@) % modulus(),
{
    let x = blstrs::Scalar::from_u64s_le(&a.limbs).unwrap();
    let y = blstrs::Scalar::from_u64s_le(&b.limbs).unwrap();
    Scalar { limbs: ff::PrimeFieldBits::to_le_bits(&(x - y)).into_inner() }
}

/// `Mul` of blstrs's `Scalar`: the product in the field, as the representative below the
/// modulus.
#[verifier::external_body]
fn field_mul(a: &Scalar, b: &Scalar) -> (r: Scalar)
    ensures
        r@ == (a@ * b@) % modulus(),
{
    let x = blstrs::Scalar::from_u64s_le(&a.limbs).unwrap();
    let y = blstrs::Scalar::from_u64s_le(&b.limbs).unwrap();
    Scalar { limbs: ff::PrimeFieldBits::to_le_bits(&(x * y)).into_inner() }
}

/// `Field::invert` of blstrs's `Scalar`: nothing for zero, and for any other element the one
/// whose product with it is one.
#[verifier::external_body]
fn field_invert(a: &Scalar) -> (r: Option<Scalar>)
    ensures
        r is Some <==> a@ != 0,
        r matches Some(inverse) ==> (a@ * inverse@) % modulus() == 1,
{
    let x = blstrs::Scalar::from_u64s_le(&a.limbs).unwrap();
    let inverse: Option<blstrs::Scalar> = ff::Field::invert(&x).into();
    match inverse {
        Some(y) => Some(Scalar { limbs: ff::PrimeFieldBits::to_le_bits(&y).into_inner() }),
        None => None,
    }
}

/// `Field::random` of blstrs's `Scalar`, fed by `rand_core::OsRng`: some element of the
/// field, of which nothing more is known.
#[verifier::external_body]
fn field_random() -> (r: Scalar) {
    let x = <blstrs::Scalar as ff::Field>::random(rand_core::OsRng);
    Scalar { limbs: ff::PrimeFieldBits::to_le_bits(&x).into_inner() }
}

} // verus!
