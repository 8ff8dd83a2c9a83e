//! The hash that joins two children of the commitment tree into their
//! parent.

use crate::field::{fr_modulus, in_field, lemma_field_element_top_bit_clear, FR_NUM_BITS};
use crate::repr::{
    decode_repr, le_bytes_value, lemma_limb_bit_by_mask, lemma_repr_bit_is_binary_digit,
    lemma_repr_bits_determine, limb_masked_bit, repr_bit, repr_from_le_bytes, repr_value,
};
use sapling_crypto::pedersen_hash::{pedersen_hash, Personalization};
use vstd::arithmetic::power2::pow2;
use vstd::prelude::*;

verus! {

/// Depths at and above this bound have no personalization tag: the tag
/// holds the depth in six bits, and the value 63 is kept for another use
/// of the hash.
pub const PERSONALIZATION_DEPTH_BOUND: usize = 63;

/// The canonical 32-byte encoding of the first affine coordinate of the
/// Pedersen hash point of `bits`, personalized for a tree depth.
pub uninterp spec fn pedersen_merkle_u(depth: nat, bits: Seq<bool>) -> Seq<u8>;

/// What a child contributes to the hash: its `FR_NUM_BITS` low bits, the
/// least significant first. The top bit of the 256-bit slot is left out.
pub open spec fn merkle_child_bits(limbs: Seq<u64>) -> Seq<bool> {
    Seq::new(255, |i: int| repr_bit(limbs, i))
}

/// The bits that are hashed for a parent: those of the left child, then
/// those of the right child.
pub open spec fn merkle_input_bits(lhs: Seq<u64>, rhs: Seq<u64>) -> Seq<bool> {
    merkle_child_bits(lhs) + merkle_child_bits(rhs)
}

/// The parent of two children joined at `depth`.
pub open spec fn merkle_parent(depth: nat, lhs: Seq<u64>, rhs: Seq<u64>) -> Seq<u64> {
    repr_from_le_bytes(pedersen_merkle_u(depth, merkle_input_bits(lhs, rhs)))
}

/// What a child contributes to the hash are the binary digits of its
/// value, from the weight 2^0 up to the weight 2^254.
pub proof fn lemma_child_bits_are_binary_digits(limbs: Seq<u64>, i: nat)
    requires
        limbs.len() == 4,
        i < 255,
    ensures
        merkle_child_bits(limbs).len() == 255,
        merkle_child_bits(limbs)[i as int] == ((repr_value(limbs) / pow2(i)) % 2 == 1),
{
    lemma_repr_bit_is_binary_digit(limbs, i);
}

/// Leaving out the top bit loses nothing of a field element: two valid
/// representations that contribute the same bits to the hash are equal.
pub proof fn lemma_child_bits_determine(a: Seq<u64>, b: Seq<u64>)
    requires
        in_field(a),
        in_field(b),
        merkle_child_bits(a) == merkle_child_bits(b),
    ensures
        a == b,
{
    lemma_field_element_top_bit_clear(a);
    lemma_field_element_top_bit_clear(b);
    assert forall|i: int| 0 <= i < 256 implies repr_bit(a, i) == repr_bit(b, i) by {
        if i < 255 {
            assert(merkle_child_bits(a)[i] == repr_bit(a, i));
            assert(merkle_child_bits(b)[i] == repr_bit(b, i));
        }
    }
    lemma_repr_bits_determine(a, b);
}

/// `BitIterator` of the ff library, run to its end over four limbs. It
/// hands out 256 bits, and the one that comes at place `k` is the test of
/// limb `(255 - k) / 64` against the mask `1 << ((255 - k) % 64)`.
#[verifier::external_body]
fn bits_msb_first(limbs: &[u64; 4]) -> (bits: Vec<bool>)
    ensures
        bits@.len() == 256,
        forall|k: int|
            0 <= k < 256 ==> bits@[k] == limb_masked_bit(
                limbs@[(255 - k) / 64],
                ((255 - k) % 64) as u64,
            ),
{
    ff::BitIterator::new(*limbs).collect()
}

/// `pedersen_hash` of the sapling-crypto library under the tag
/// `Personalization::MerkleTree(depth)`, followed by the point's affine
/// first coordinate in the encoding of `bls12_381::Scalar::to_bytes`. The
/// result depends on the depth and the bits alone, and being a canonical
/// little-endian encoding its value is below the modulus. The tag does not
/// exist for a depth of 63 or more, and the library has generators for the
/// 510 bits of two children.
#[verifier::external_body]
fn pedersen_merkle_hash(depth: usize, bits: &Vec<bool>) -> (u: [u8; 32])
    requires
        depth < 63,
        bits@.len() == 510,
    ensures
        u@ == pedersen_merkle_u(depth as nat, bits@),
        le_bytes_value(u@) < fr_modulus(),
{
    let point = pedersen_hash(Personalization::MerkleTree(depth), bits.iter().copied());
    jubjub::AffinePoint::from(jubjub::ExtendedPoint::from(point)).get_u().to_bytes()
}

/// Expands a representation into its 256 bits, the least significant
/// first: the bits come most significant first and fill the slots from the
/// top down.
pub fn expand_bits(limbs: &[u64; 4]) -> (slots: [bool; 256])
    ensures
        forall|i: int| 0 <= i < 256 ==> slots@[i] == repr_bit(limbs@, i),
{
    let bits = bits_msb_first(limbs);
    let mut slots = [false;256];
    let mut k: usize = 0;
    while k < 256
        invariant
            0 <= k <= 256,
            bits@.len() == 256,
            forall|j: int|
                0 <= j < 256 ==> bits@[j] == limb_masked_bit(
                    limbs@[(255 - j) / 64],
                    ((255 - j) % 64) as u64,
                ),
            forall|i: int| 256 - k <= i < 256 ==> slots@[i] == repr_bit(limbs@, i),
        decreases 256 - k,
    {
        proof {
            let i = 255 - k;
            lemma_limb_bit_by_mask(limbs@[i / 64], (i % 64) as u64);
        }
        slots[255 - k] = bits[k];
        k = k + 1;
    }
    slots
}

/// Appends the `FR_NUM_BITS` low bits of a child to the hash input.
fn push_child_bits(input: &mut Vec<bool>, limbs: &[u64; 4])
    ensures
        final(input)@ == old(input)@ + merkle_child_bits(limbs@),
{
    let slots = expand_bits(limbs);
    let mut i: usize = 0;
    while i < FR_NUM_BITS
        invariant
            0 <= i <= 255,
            forall|j: int| 0 <= j < 256 ==> slots@[j] == repr_bit(limbs@, j),
            input@ == old(input)@ + merkle_child_bits(limbs@).take(i as int),
        decreases 255 - i,
    {
        input.push(slots[i]);
        assert(input@ =~= old(input)@ + merkle_child_bits(limbs@).take(i + 1));
        i = i + 1;
    }
    assert(merkle_child_bits(limbs@).take(255) =~= merkle_child_bits(limbs@));
}

/// Computes a parent node of the commitment tree from its two children
/// and the depth at which they are joined.
///
/// Each child is expanded into its bits and cut to the `FR_NUM_BITS` bits
/// of a field element, the left child's bits are followed by the right
/// child's, and the whole is hashed under the tag of the depth. The parent
/// is the first coordinate of the hash point. It is a function of the
/// depth and the two children alone, and a valid field element.
pub fn merkle_hash(depth: usize, lhs: &[u64; 4], rhs: &[u64; 4]) -> (parent: [u64; 4])
    requires
        depth < PERSONALIZATION_DEPTH_BOUND,
    ensures
        parent@ == merkle_parent(depth as nat, lhs@, rhs@),
        in_field(parent@),
{
    let mut input: Vec<bool> = Vec::new();
    push_child_bits(&mut input, lhs);
    push_child_bits(&mut input, rhs);
    assert(input@ =~= merkle_input_bits(lhs@, rhs@));
    let u = pedersen_merkle_hash(depth, &input);
    decode_repr(u.as_slice())
}

} // verus!
