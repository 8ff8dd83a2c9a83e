//! The prime field whose elements the tree's nodes represent, and the
//! conversion of a representation into an arithmetic element of it.

use crate::repr::{
    lemma_limb_bit_by_mask, lemma_repr_value_order, limb_bit, limb_masked_bit, repr_bit,
    repr_less_than, repr_value,
};
use pairing::bls12_381::{Fr, FrRepr};
use pairing::{PrimeField, PrimeFieldDecodingError};
use vstd::prelude::*;

verus! {

/// Number of bits of a canonical field element: the bit length of the
/// modulus.
pub const FR_NUM_BITS: usize = 255;

/// The field's modulus.
pub open spec fn fr_modulus() -> nat {
    0x73ed_a753_299d_7d48_3339_d808_09a1_d805_53bd_a402_fffe_5bfe_ffff_ffff_0000_0001nat
}

/// A representation is valid when its value is below the modulus.
pub open spec fn in_field(limbs: Seq<u64>) -> bool {
    limbs.len() == 4 && repr_value(limbs) < fr_modulus()
}

/// Why a representation is no field element.
#[derive(Clone, Copy, Debug, PartialEq, Eq, Structural)]
pub enum FieldError {
    /// The value is not below the modulus.
    NotInField,
}

/// An arithmetic field element, as the pairing library holds it.
#[verifier::external_type_specification]
#[verifier::external_body]
pub struct ExFr(Fr);

/// The pairing library's reason for refusing a representation.
#[verifier::external_type_specification]
#[verifier::external_body]
pub struct ExPrimeFieldDecodingError(PrimeFieldDecodingError);

/// The arithmetic element that the pairing library makes of a valid
/// representation.
pub uninterp spec fn fr_of_repr(limbs: Seq<u64>) -> Fr;

/// `PrimeField::from_repr` of the pairing library, on `Fr`. It accepts a
/// representation exactly when its value is below the modulus, and what
/// it returns then depends on the limbs alone.
#[verifier::external_body]
fn fr_from_repr(limbs: &[u64; 4]) -> (r: Result<Fr, PrimeFieldDecodingError>)
    ensures
        r is Ok <==> in_field(limbs@),
        r matches Ok(fr) ==> fr == fr_of_repr(limbs@),
{
    Fr::from_repr(FrRepr(*limbs))
}

/// The limbs of the modulus.
pub fn fr_modulus_limbs() -> (m: [u64; 4])
    ensures
        repr_value(m@) == fr_modulus(),
{
    [
        0xffff_ffff_0000_0001u64,
        0x53bd_a402_fffe_5bfeu64,
        0x3339_d808_09a1_d805u64,
        0x73ed_a753_299d_7d48u64,
    ]
}

/// Tells whether a representation is valid.
pub fn repr_in_field(limbs: &[u64; 4]) -> (valid: bool)
    ensures
        valid == in_field(limbs@),
{
    let m = fr_modulus_limbs();
    repr_less_than(limbs, &m)
}

/// Converts a representation into an arithmetic field element. A value at
/// or above the modulus is refused, never reduced.
pub fn repr_to_fr(limbs: &[u64; 4]) -> (r: Result<Fr, FieldError>)
    ensures
        r is Ok <==> in_field(limbs@),
        r matches Ok(fr) ==> fr == fr_of_repr(limbs@),
        r matches Err(e) ==> e == FieldError::NotInField,
{
    match fr_from_repr(limbs) {
        Ok(fr) => Ok(fr),
        Err(_) => Err(FieldError::NotInField),
    }
}

/// The modulus has exactly `FR_NUM_BITS` bits: it lies between
/// 2^254 and 2^255.
pub proof fn lemma_modulus_bit_length()
    ensures
        0x4000_0000_0000_0000_0000_0000_0000_0000_0000_0000_0000_0000_0000_0000_0000_0000nat
            <= fr_modulus(),
        fr_modulus()
            < 0x8000_0000_0000_0000_0000_0000_0000_0000_0000_0000_0000_0000_0000_0000_0000_0000nat,
{
}

/// The top bit of a valid representation is clear, so its low
/// `FR_NUM_BITS` bits hold all of it.
pub proof fn lemma_field_element_top_bit_clear(limbs: Seq<u64>)
    requires
        in_field(limbs),
    ensures
        !repr_bit(limbs, 255),
{
    let top = limbs[3];
    let two_to_255 = seq![0u64, 0u64, 0u64, 0x8000_0000_0000_0000u64];
    lemma_modulus_bit_length();
    assert(repr_value(limbs) < repr_value(two_to_255));
    lemma_repr_value_order(limbs, two_to_255);
    assert(top < 0x8000_0000_0000_0000u64);
    assert(!limb_masked_bit(top, 63)) by (bit_vector)
        requires
            top < 0x8000_0000_0000_0000u64,
    ;
    lemma_limb_bit_by_mask(top, 63);
    assert(255int / 64 == 3 && 255int % 64 == 63);
    assert(repr_bit(limbs, 255) == limb_bit(top, 63));
}

} // verus!
