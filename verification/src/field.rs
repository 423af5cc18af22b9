//! Trusted boundary to the external finite-field provider.
//!
//! The core performs no modular arithmetic of its own: every field
//! operation is delegated to `ark_bls12_381::Fr`, the scalar field of
//! BLS12-381. The verifier cannot look inside that type, so it is held
//! in the opaque [`FieldElement`]; the uninterpreted function [`fe_val`]
//! names the canonical integer a field element represents, and each
//! wrapper's contract states what the external operation does to that
//! integer.

use vstd::prelude::*;

verus! {

use vstd::arithmetic::power2::pow2;

/// An element of the BLS12-381 scalar field, held opaquely. All
/// arithmetic on it goes through the trusted wrappers in this module.
#[verifier::external_body]
pub struct FieldElement {
    raw: ark_bls12_381::Fr,
}

/// The canonical integer that a field element stands for.
/// Every trusted wrapper below relates its result to this name.
pub uninterp spec fn fe_val(a: FieldElement) -> int;

/// The order of the BLS12-381 scalar field: the prime modulus
/// 52435875175126190479447740508185965837690552500527637822603658699938581184513,
/// assembled here from its four 64-bit limbs (least significant first),
/// exactly as `ark_bls12_381` declares it.
pub open spec fn field_modulus() -> int {
    0xffffffff00000001 + 0x53bda402fffe5bfe * (pow2(64) as int) + 0x3339d80809a1d805 * (pow2(
        128,
    ) as int) + 0x73eda753299d7d48 * (pow2(192) as int)
}

/// Relies on `ark_ff::Zero::zero` for `Fr`: the additive identity.
#[verifier::external_body]
pub(crate) fn fe_zero() -> (r: FieldElement)
    ensures
        fe_val(r) == 0,
{
    FieldElement { raw: <ark_bls12_381::Fr as ark_ff::Zero>::zero() }
}

/// Relies on `ark_ff::One::one` for `Fr`: the multiplicative identity.
#[verifier::external_body]
pub(crate) fn fe_one() -> (r: FieldElement)
    ensures
        fe_val(r) == 1,
{
    FieldElement { raw: <ark_bls12_381::Fr as ark_ff::One>::one() }
}

/// Relies on `From<u64>` for `Fr`: embeds an integer into the field.
/// Every `u64` is below the 255-bit modulus, so no reduction occurs.
#[verifier::external_body]
pub(crate) fn fe_from_u64(n: u64) -> (r: FieldElement)
    ensures
        fe_val(r) == n as int,
{
    FieldElement { raw: ark_bls12_381::Fr::from(n) }
}

/// Relies on `core::ops::Add` for `Fr` (`ark_ff` prime-field addition):
/// addition modulo `field_modulus()`.
#[verifier::external_body]
pub(crate) fn fe_add(a: &FieldElement, b: &FieldElement) -> (r: FieldElement)
    ensures
        fe_val(r) == (fe_val(*a) + fe_val(*b)) % field_modulus(),
{
    FieldElement { raw: a.raw + b.raw }
}

/// Relies on `core::ops::Sub` for `Fr` (`ark_ff` prime-field subtraction):
/// subtraction modulo `field_modulus()`, stated with the modulus added so
/// the numerator is a plain integer difference.
#[verifier::external_body]
pub(crate) fn fe_sub(a: &FieldElement, b: &FieldElement) -> (r: FieldElement)
    ensures
        fe_val(r) == (field_modulus() + fe_val(*a) - fe_val(*b)) % field_modulus(),
{
    FieldElement { raw: a.raw - b.raw }
}

/// Relies on `core::ops::Mul` for `Fr` (`ark_ff` prime-field
/// multiplication): multiplication modulo `field_modulus()`.
#[verifier::external_body]
pub(crate) fn fe_mul(a: &FieldElement, b: &FieldElement) -> (r: FieldElement)
    ensures
        fe_val(r) == (fe_val(*a) * fe_val(*b)) % field_modulus(),
{
    FieldElement { raw: a.raw * b.raw }
}

/// Relies on `ark_ff::Field::inverse`: returns the multiplicative inverse,
/// and `None` exactly on the zero element.
#[verifier::external_body]
pub(crate) fn fe_inverse(a: &FieldElement) -> (r: Option<FieldElement>)
    ensures
        r is Some <==> fe_val(*a) % field_modulus() != 0,
        r matches Some(x) ==> (fe_val(*a) * fe_val(x)) % field_modulus() == 1,
{
    match ark_ff::Field::inverse(&a.raw) {
        Some(inv) => Some(FieldElement { raw: inv }),
        None => None,
    }
}

/// Relies on `PartialEq` for `Fr`: field elements are kept in a canonical
/// representation, so representation equality decides value equality.
#[verifier::external_body]
pub(crate) fn fe_eq(a: &FieldElement, b: &FieldElement) -> (r: bool)
    ensures
        r == (fe_val(*a) % field_modulus() == fe_val(*b) % field_modulus()),
{
    a.raw == b.raw
}

/// Relies on `Clone` for `Fr`: a copy stands for the same integer.
#[verifier::external_body]
pub(crate) fn fe_clone(a: &FieldElement) -> (r: FieldElement)
    ensures
        fe_val(r) == fe_val(*a),
{
    FieldElement { raw: a.raw }
}

/// Relies on `ark_ff::PrimeField::into_bigint` and
/// `ark_ff::BigInteger::to_bits_le`: the canonical integer of a field
/// element, little-endian, one `bool` per bit of the 256-bit
/// representation.
#[verifier::external_body]
pub(crate) fn fe_bits(a: &FieldElement) -> (r: Vec<bool>)
    ensures
        r@.len() == 256,
        forall|i: int|
            0 <= i < 256 ==> r@[i] == (((fe_val(*a) / pow2(i as nat) as int) % 2) == 1),
{
    ark_ff::BigInteger::to_bits_le(&ark_ff::PrimeField::into_bigint(a.raw))
}

/// Relies on `ark_ff::PrimeField::into_bigint` and
/// `ark_ff::BigInteger::to_bytes_le`: the canonical integer of a field
/// element as 32 little-endian bytes.
#[verifier::external_body]
pub(crate) fn fe_bytes(a: &FieldElement) -> (r: Vec<u8>)
    ensures
        r@.len() == 32,
        forall|i: int|
            0 <= i < 32 ==> r@[i] as int == (fe_val(*a) / pow2((8 * i) as nat) as int) % 256,
{
    ark_ff::BigInteger::to_bytes_le(&ark_ff::PrimeField::into_bigint(a.raw))
}

impl FieldElement {
    /// The field element standing for the integer `n`.
    pub fn from_u64(n: u64) -> (r: FieldElement)
        ensures
            fe_val(r) == n as int,
    {
        fe_from_u64(n)
    }

    /// An exact copy of this field element.
    pub fn duplicate(&self) -> (r: FieldElement)
        ensures
            fe_val(r) == fe_val(*self),
    {
        fe_clone(self)
    }

    /// Whether two field elements stand for the same integer.
    pub fn equals(&self, other: &FieldElement) -> (r: bool)
        ensures
            r == (fe_val(*self) % field_modulus() == fe_val(*other) % field_modulus()),
    {
        fe_eq(self, other)
    }

    /// The canonical integer of this element as 32 little-endian bytes,
    /// for handing values to an external proof backend.
    pub fn to_le_bytes(&self) -> (r: Vec<u8>)
        ensures
            r@.len() == 32,
            forall|i: int|
                0 <= i < 32 ==> r@[i] as int == (fe_val(*self) / pow2((8 * i) as nat) as int)
                    % 256,
    {
        fe_bytes(self)
    }
}


/// Concrete bounds on the field modulus that proofs lean on: it is a
/// 255-bit number, so in particular above `1` and below `2^256`.
pub proof fn lemma_field_modulus_bounds()
    ensures
        1 < field_modulus(),
        field_modulus() < (pow2(255) as int),
        (pow2(255) as int) < (pow2(256) as int),
        (pow2(254) as int) < field_modulus(),
{
    vstd::arithmetic::power2::lemma_pow2_adds(192, 62);
    vstd::arithmetic::power2::lemma2_to64();
    vstd::arithmetic::power2::lemma2_to64_rest();
    vstd::arithmetic::power2::lemma_pow2_adds(64, 64);
    vstd::arithmetic::power2::lemma_pow2_adds(128, 64);
    vstd::arithmetic::power2::lemma_pow2_adds(192, 63);
    vstd::arithmetic::power2::lemma_pow2_adds(192, 64);
    vstd::arithmetic::power2::lemma_pow2_adds(255, 1);

}

} // verus!
