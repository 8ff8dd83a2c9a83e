//! The 256-bit representation of a field element: four 64-bit limbs, least
//! significant first, and its little-endian byte encoding.

use vstd::arithmetic::div_mod::{
    lemma_div_denominator, lemma_fundamental_div_mod_converse, lemma_hoist_over_denominator,
    lemma_mod_multiples_vanish,
};
use vstd::arithmetic::power2::{
    lemma2_to64, lemma_pow2_adds, lemma_pow2_pos, lemma_pow2_unfold, pow2,
};
use vstd::bits::lemma_u64_shr_is_div;
use vstd::prelude::*;

verus! {

/// The integer that four limbs stand for: limb `i` has the weight 2^(64 i).
pub open spec fn repr_value(limbs: Seq<u64>) -> nat
    recommends
        limbs.len() == 4,
{
    (limbs[0] as nat) + (limbs[1] as nat) * 0x1_0000_0000_0000_0000nat + (limbs[2] as nat)
        * 0x1_0000_0000_0000_0000_0000_0000_0000_0000nat + (limbs[3] as nat)
        * 0x1_0000_0000_0000_0000_0000_0000_0000_0000_0000_0000_0000_0000nat
}

/// Bit `k` of a limb: its binary digit of weight 2^k.
pub open spec fn limb_bit(limb: u64, k: nat) -> bool {
    (limb as nat / pow2(k)) % 2 == 1
}

/// Bit `i` of a representation, bit 0 being the least significant bit of
/// the first limb.
pub open spec fn repr_bit(limbs: Seq<u64>, i: int) -> bool
    recommends
        limbs.len() == 4,
        0 <= i < 256,
{
    limb_bit(limbs[i / 64], (i % 64) as nat)
}

/// Byte `j` of a limb: its digit of weight 256^j.
pub open spec fn limb_byte(limb: u64, j: nat) -> u8 {
    ((limb as nat / pow2(8 * j)) % 256) as u8
}

/// The limb whose little-endian bytes are the eight bytes of `bytes`
/// starting at `at`: byte `j` of them has the weight 256^j.
pub open spec fn limb_from_le_bytes(bytes: Seq<u8>, at: int) -> u64
    recommends
        0 <= at,
        at + 8 <= bytes.len(),
{
    (bytes[at] + 0x100 * bytes[at + 1] + 0x1_0000 * bytes[at + 2] + 0x100_0000 * bytes[at + 3]
        + 0x1_0000_0000 * bytes[at + 4] + 0x100_0000_0000 * bytes[at + 5] + 0x1_0000_0000_0000
        * bytes[at + 6] + 0x100_0000_0000_0000 * bytes[at + 7]) as u64
}

/// The 32 bytes that encode a representation: limb by limb, each limb's
/// bytes least significant first.
pub open spec fn repr_to_le_bytes(limbs: Seq<u64>) -> Seq<u8>
    recommends
        limbs.len() == 4,
{
    Seq::new(32, |j: int| limb_byte(limbs[j / 8], (j % 8) as nat))
}

/// The representation that the first 32 bytes of `bytes` encode.
pub open spec fn repr_from_le_bytes(bytes: Seq<u8>) -> Seq<u64>
    recommends
        bytes.len() >= 32,
{
    Seq::new(4, |i: int| limb_from_le_bytes(bytes, 8 * i))
}

/// The integer that the first 32 bytes of `bytes` stand for, read
/// little-endian.
pub open spec fn le_bytes_value(bytes: Seq<u8>) -> nat
    recommends
        bytes.len() >= 32,
{
    repr_value(repr_from_le_bytes(bytes))
}

/// Bit `k` of a limb, as a machine tests it: by a mask.
pub open spec fn limb_masked_bit(limb: u64, k: u64) -> bool {
    limb & (1u64 << k) > 0
}

/// Byte `j` of a limb, as a machine takes it: by a shift and a mask.
pub open spec fn limb_shifted_byte(limb: u64, j: u64) -> u64 {
    (limb >> ((8 * j) as u64)) & 0xff
}

/// Testing a bit by its mask gives the binary digit.
pub proof fn lemma_limb_bit_by_mask(limb: u64, k: u64)
    requires
        k < 64,
    ensures
        limb_bit(limb, k as nat) == limb_masked_bit(limb, k),
{
    assert((limb & (1u64 << k) > 0) == ((limb >> k) % 2 == 1)) by (bit_vector)
        requires
            k < 64,
    ;
    lemma_u64_shr_is_div(limb, k);
}

/// Taking a byte by shift and mask gives the digit of weight 256^j.
pub proof fn lemma_limb_byte_by_shift(limb: u64, j: u64)
    requires
        j < 8,
    ensures
        limb_byte(limb, j as nat) == limb_shifted_byte(limb, j),
{
    let shift = (8 * j) as u64;
    assert((limb >> shift) & 0xff == (limb >> shift) % 256) by (bit_vector);
    lemma_u64_shr_is_div(limb, shift);
}

/// Joining eight bytes by shifts gives their weighted sum.
pub proof fn lemma_bytes_joined_by_shifts(
    b0: u8,
    b1: u8,
    b2: u8,
    b3: u8,
    b4: u8,
    b5: u8,
    b6: u8,
    b7: u8,
)
    ensures
        (b0 as u64) | (b1 as u64) << 8 | (b2 as u64) << 16 | (b3 as u64) << 24 | (b4 as u64) << 32
            | (b5 as u64) << 40 | (b6 as u64) << 48 | (b7 as u64) << 56 == b0 + 0x100 * b1
            + 0x1_0000 * b2 + 0x100_0000 * b3 + 0x1_0000_0000 * b4 + 0x100_0000_0000 * b5
            + 0x1_0000_0000_0000 * b6 + 0x100_0000_0000_0000 * b7,
{
    assert((b0 as u64) | (b1 as u64) << 8 | (b2 as u64) << 16 | (b3 as u64) << 24 | (b4 as u64)
        << 32 | (b5 as u64) << 40 | (b6 as u64) << 48 | (b7 as u64) << 56 == b0 + 0x100 * b1
        + 0x1_0000 * b2 + 0x100_0000 * b3 + 0x1_0000_0000 * b4 + 0x100_0000_0000 * b5
        + 0x1_0000_0000_0000 * b6 + 0x100_0000_0000_0000 * b7) by (bit_vector);
}

/// A limb is the weighted sum of its bytes.
pub proof fn lemma_limb_bytes_join(limb: u64)
    ensures
        limb == limb_byte(limb, 0) + 0x100 * limb_byte(limb, 1) + 0x1_0000 * limb_byte(limb, 2)
            + 0x100_0000 * limb_byte(limb, 3) + 0x1_0000_0000 * limb_byte(limb, 4)
            + 0x100_0000_0000 * limb_byte(limb, 5) + 0x1_0000_0000_0000 * limb_byte(limb, 6)
            + 0x100_0000_0000_0000 * limb_byte(limb, 7),
{
    lemma_limb_byte_by_shift(limb, 0);
    lemma_limb_byte_by_shift(limb, 1);
    lemma_limb_byte_by_shift(limb, 2);
    lemma_limb_byte_by_shift(limb, 3);
    lemma_limb_byte_by_shift(limb, 4);
    lemma_limb_byte_by_shift(limb, 5);
    lemma_limb_byte_by_shift(limb, 6);
    lemma_limb_byte_by_shift(limb, 7);
    assert(limb == ((limb >> 0) & 0xff) + 0x100 * ((limb >> 8) & 0xff) + 0x1_0000 * ((limb >> 16)
        & 0xff) + 0x100_0000 * ((limb >> 24) & 0xff) + 0x1_0000_0000 * ((limb >> 32) & 0xff)
        + 0x100_0000_0000 * ((limb >> 40) & 0xff) + 0x1_0000_0000_0000 * ((limb >> 48) & 0xff)
        + 0x100_0000_0000_0000 * ((limb >> 56) & 0xff)) by (bit_vector);
}

/// The bytes of a weighted sum of eight bytes are those bytes.
pub proof fn lemma_limb_bytes_split(b0: u8, b1: u8, b2: u8, b3: u8, b4: u8, b5: u8, b6: u8, b7: u8)
    ensures
        ({
            let limb = (b0 + 0x100 * b1 + 0x1_0000 * b2 + 0x100_0000 * b3 + 0x1_0000_0000 * b4
                + 0x100_0000_0000 * b5 + 0x1_0000_0000_0000 * b6 + 0x100_0000_0000_0000
                * b7) as u64;
            &&& limb_byte(limb, 0) == b0
            &&& limb_byte(limb, 1) == b1
            &&& limb_byte(limb, 2) == b2
            &&& limb_byte(limb, 3) == b3
            &&& limb_byte(limb, 4) == b4
            &&& limb_byte(limb, 5) == b5
            &&& limb_byte(limb, 6) == b6
            &&& limb_byte(limb, 7) == b7
        }),
{
    let limb = (b0 + 0x100 * b1 + 0x1_0000 * b2 + 0x100_0000 * b3 + 0x1_0000_0000 * b4
        + 0x100_0000_0000 * b5 + 0x1_0000_0000_0000 * b6 + 0x100_0000_0000_0000 * b7) as u64;
    lemma_bytes_joined_by_shifts(b0, b1, b2, b3, b4, b5, b6, b7);
    assert((limb >> 0) & 0xff == b0 && (limb >> 8) & 0xff == b1 && (limb >> 16) & 0xff == b2 && (
    limb >> 24) & 0xff == b3 && (limb >> 32) & 0xff == b4 && (limb >> 40) & 0xff == b5 && (limb
        >> 48) & 0xff == b6 && (limb >> 56) & 0xff == b7) by (bit_vector)
        requires
            limb == (b0 as u64) | (b1 as u64) << 8 | (b2 as u64) << 16 | (b3 as u64) << 24 | (
            b4 as u64) << 32 | (b5 as u64) << 40 | (b6 as u64) << 48 | (b7 as u64) << 56,
    ;
    lemma_limb_byte_by_shift(limb, 0);
    lemma_limb_byte_by_shift(limb, 1);
    lemma_limb_byte_by_shift(limb, 2);
    lemma_limb_byte_by_shift(limb, 3);
    lemma_limb_byte_by_shift(limb, 4);
    lemma_limb_byte_by_shift(limb, 5);
    lemma_limb_byte_by_shift(limb, 6);
    lemma_limb_byte_by_shift(limb, 7);
}

/// Where the bytes of limb `i` stand in the encoding.
pub proof fn lemma_encoded_limb(limbs: Seq<u64>, i: int)
    requires
        limbs.len() == 4,
        0 <= i < 4,
    ensures
        repr_to_le_bytes(limbs)[8 * i] == limb_byte(limbs[i], 0),
        repr_to_le_bytes(limbs)[8 * i + 1] == limb_byte(limbs[i], 1),
        repr_to_le_bytes(limbs)[8 * i + 2] == limb_byte(limbs[i], 2),
        repr_to_le_bytes(limbs)[8 * i + 3] == limb_byte(limbs[i], 3),
        repr_to_le_bytes(limbs)[8 * i + 4] == limb_byte(limbs[i], 4),
        repr_to_le_bytes(limbs)[8 * i + 5] == limb_byte(limbs[i], 5),
        repr_to_le_bytes(limbs)[8 * i + 6] == limb_byte(limbs[i], 6),
        repr_to_le_bytes(limbs)[8 * i + 7] == limb_byte(limbs[i], 7),
{
    assert((8 * i) / 8 == i && (8 * i) % 8 == 0);
    assert((8 * i + 1) / 8 == i && (8 * i + 1) % 8 == 1);
    assert((8 * i + 2) / 8 == i && (8 * i + 2) % 8 == 2);
    assert((8 * i + 3) / 8 == i && (8 * i + 3) % 8 == 3);
    assert((8 * i + 4) / 8 == i && (8 * i + 4) % 8 == 4);
    assert((8 * i + 5) / 8 == i && (8 * i + 5) % 8 == 5);
    assert((8 * i + 6) / 8 == i && (8 * i + 6) % 8 == 6);
    assert((8 * i + 7) / 8 == i && (8 * i + 7) % 8 == 7);
}

/// Limb `i` of what an encoding decodes to.
pub proof fn lemma_decoded_limb(limbs: Seq<u64>, i: int)
    requires
        limbs.len() == 4,
        0 <= i < 4,
    ensures
        limb_from_le_bytes(repr_to_le_bytes(limbs), 8 * i) == limbs[i],
{
    lemma_encoded_limb(limbs, i);
    lemma_limb_bytes_join(limbs[i]);
}

/// Decoding the encoding of a representation gives the representation back.
pub proof fn lemma_repr_decode_encode(limbs: Seq<u64>)
    requires
        limbs.len() == 4,
    ensures
        repr_from_le_bytes(repr_to_le_bytes(limbs)) == limbs,
{
    lemma_decoded_limb(limbs, 0);
    lemma_decoded_limb(limbs, 1);
    lemma_decoded_limb(limbs, 2);
    lemma_decoded_limb(limbs, 3);
    assert(repr_from_le_bytes(repr_to_le_bytes(limbs)) =~= limbs);
}

/// The eight bytes that limb `i` of a decoded representation splits into.
pub proof fn lemma_limb_of_decoded(bytes: Seq<u8>, i: int)
    requires
        bytes.len() == 32,
        0 <= i < 4,
    ensures
        limb_byte(limb_from_le_bytes(bytes, 8 * i), 0) == bytes[8 * i],
        limb_byte(limb_from_le_bytes(bytes, 8 * i), 1) == bytes[8 * i + 1],
        limb_byte(limb_from_le_bytes(bytes, 8 * i), 2) == bytes[8 * i + 2],
        limb_byte(limb_from_le_bytes(bytes, 8 * i), 3) == bytes[8 * i + 3],
        limb_byte(limb_from_le_bytes(bytes, 8 * i), 4) == bytes[8 * i + 4],
        limb_byte(limb_from_le_bytes(bytes, 8 * i), 5) == bytes[8 * i + 5],
        limb_byte(limb_from_le_bytes(bytes, 8 * i), 6) == bytes[8 * i + 6],
        limb_byte(limb_from_le_bytes(bytes, 8 * i), 7) == bytes[8 * i + 7],
{
    lemma_limb_bytes_split(
        bytes[8 * i],
        bytes[8 * i + 1],
        bytes[8 * i + 2],
        bytes[8 * i + 3],
        bytes[8 * i + 4],
        bytes[8 * i + 5],
        bytes[8 * i + 6],
        bytes[8 * i + 7],
    );
}

/// Encoding the representation that 32 bytes decode to gives the bytes
/// back.
pub proof fn lemma_repr_encode_decode(bytes: Seq<u8>)
    requires
        bytes.len() == 32,
    ensures
        repr_to_le_bytes(repr_from_le_bytes(bytes)) == bytes,
{
    let limbs = repr_from_le_bytes(bytes);
    lemma_limb_of_decoded(bytes, 0);
    lemma_limb_of_decoded(bytes, 1);
    lemma_limb_of_decoded(bytes, 2);
    lemma_limb_of_decoded(bytes, 3);
    lemma_encoded_limb(limbs, 0);
    lemma_encoded_limb(limbs, 1);
    lemma_encoded_limb(limbs, 2);
    lemma_encoded_limb(limbs, 3);
    assert forall|j: int| 0 <= j < 32 implies repr_to_le_bytes(limbs)[j] == bytes[j] by {
        if j < 8 {
            assert(j == 0 || j == 1 || j == 2 || j == 3 || j == 4 || j == 5 || j == 6 || j == 7);
        } else if j < 16 {
            assert(j == 8 || j == 9 || j == 10 || j == 11 || j == 12 || j == 13 || j == 14 || j
                == 15);
        } else if j < 24 {
            assert(j == 16 || j == 17 || j == 18 || j == 19 || j == 20 || j == 21 || j == 22 || j
                == 23);
        } else {
            assert(j == 24 || j == 25 || j == 26 || j == 27 || j == 28 || j == 29 || j == 30 || j
                == 31);
        }
    }
    assert(repr_to_le_bytes(limbs) =~= bytes);
}

/// Two representations with the same value have the same limbs.
pub proof fn lemma_repr_value_injective(a: Seq<u64>, b: Seq<u64>)
    requires
        a.len() == 4,
        b.len() == 4,
        repr_value(a) == repr_value(b),
    ensures
        a == b,
{
    let base = 0x1_0000_0000_0000_0000int;
    // Peel the limbs off from the least significant end: each difference
    // is a multiple of the base that is smaller than the base.
    let high_a1 = a[2] as int + base * (a[3] as int);
    let high_b1 = b[2] as int + base * (b[3] as int);
    let high_a0 = a[1] as int + base * high_a1;
    let high_b0 = b[1] as int + base * high_b1;
    assert(repr_value(a) == a[0] as int + base * high_a0);
    assert(repr_value(b) == b[0] as int + base * high_b0);
    assert(a[0] as int - b[0] as int == base * (high_b0 - high_a0));
    assert(high_b0 - high_a0 == 0);
    assert(a[1] as int - b[1] as int == base * (high_b1 - high_a1));
    assert(high_b1 - high_a1 == 0);
    assert(a[2] as int - b[2] as int == base * (b[3] as int - a[3] as int));
    assert(b[3] as int - a[3] as int == 0);
    assert(a =~= b);
}

/// The value of a representation goes by its most significant limb, then
/// by the next, and so on: the order of values is the order of the limbs
/// read from the top.
pub proof fn lemma_repr_value_order(a: Seq<u64>, b: Seq<u64>)
    requires
        a.len() == 4,
        b.len() == 4,
    ensures
        repr_value(a) < repr_value(b) <==> (a[3] < b[3] || (a[3] == b[3] && (a[2] < b[2] || (a[2]
            == b[2] && (a[1] < b[1] || (a[1] == b[1] && a[0] < b[0])))))),
{
    let base = 0x1_0000_0000_0000_0000int;
    let low_a1 = a[0] as int + base * (a[1] as int);
    let low_b1 = b[0] as int + base * (b[1] as int);
    let low_a2 = low_a1 + base * base * (a[2] as int);
    let low_b2 = low_b1 + base * base * (b[2] as int);
    assert(base * base == 0x1_0000_0000_0000_0000_0000_0000_0000_0000int);
    assert(base * base * base
        == 0x1_0000_0000_0000_0000_0000_0000_0000_0000_0000_0000_0000_0000int);
    assert(0 <= low_a1 < base * base && 0 <= low_b1 < base * base);
    assert(0 <= low_a2 < base * base * base && 0 <= low_b2 < base * base * base);
    assert(repr_value(a) == low_a2 + base * base * base * (a[3] as int));
    assert(repr_value(b) == low_b2 + base * base * base * (b[3] as int));
    if a[3] < b[3] {
        assert(repr_value(a) < base * base * base * (a[3] as int + 1));
        assert(base * base * base * (a[3] as int + 1) <= repr_value(b));
    } else if a[3] > b[3] {
        assert(repr_value(b) < base * base * base * (b[3] as int + 1));
        assert(base * base * base * (b[3] as int + 1) <= repr_value(a));
    } else if a[2] < b[2] {
        assert(low_a2 < base * base * (a[2] as int + 1));
        assert(base * base * (a[2] as int + 1) <= low_b2);
    } else if a[2] > b[2] {
        assert(low_b2 < base * base * (b[2] as int + 1));
        assert(base * base * (b[2] as int + 1) <= low_a2);
    } else if a[1] < b[1] {
        assert(low_a1 < base * (a[1] as int + 1));
        assert(base * (a[1] as int + 1) <= low_b1);
    } else if a[1] > b[1] {
        assert(low_b1 < base * (b[1] as int + 1));
        assert(base * (b[1] as int + 1) <= low_a1);
    }
}

/// A digit of a limb is a digit of the value: the `width` binary digits
/// that start at bit `start` of limb `j` are the digits of the value that
/// start at bit `64 j + start`.
pub proof fn lemma_limb_digits_are_value_digits(limbs: Seq<u64>, j: nat, start: nat, width: nat)
    requires
        limbs.len() == 4,
        j < 4,
        1 <= width,
        start + width <= 64,
    ensures
        (repr_value(limbs) / pow2(64 * j + start)) % pow2(width) == (limbs[j as int] as nat / pow2(
            start,
        )) % pow2(width),
{
    let base = 0x1_0000_0000_0000_0000int;
    let value = repr_value(limbs) as int;
    let digit = limbs[j as int] as int;
    lemma2_to64();
    lemma_pow2_adds(64, 64);
    lemma_pow2_adds(128, 64);
    assert(pow2(128) == base * base);
    assert(pow2(192) == base * base * base);
    // The value splits at limb `j`: the limbs below it, and the limbs from
    // it upwards with the weight of limb `j` taken out.
    let weight = pow2(64 * j) as int;
    let low: int = if j == 0 {
        0
    } else if j == 1 {
        limbs[0] as int
    } else if j == 2 {
        limbs[0] as int + base * (limbs[1] as int)
    } else {
        limbs[0] as int + base * (limbs[1] as int) + base * base * (limbs[2] as int)
    };
    let rest: int = if j == 0 {
        limbs[1] as int + base * (limbs[2] as int) + base * base * (limbs[3] as int)
    } else if j == 1 {
        limbs[2] as int + base * (limbs[3] as int)
    } else if j == 2 {
        limbs[3] as int
    } else {
        0
    };
    let top = digit + base * rest;
    assert(0 <= low < weight);
    assert(0 <= rest);
    assert(value == top * weight + low) by {
        if j == 0 {
            assert(top * weight == top) by (nonlinear_arith)
                requires
                    weight == 1,
            ;
        } else if j == 1 {
            assert(top * weight == top * 0x1_0000_0000_0000_0000) by (nonlinear_arith)
                requires
                    weight == 0x1_0000_0000_0000_0000,
            ;
        } else if j == 2 {
            assert(top * weight == top * 0x1_0000_0000_0000_0000_0000_0000_0000_0000)
                by (nonlinear_arith)
                requires
                    weight == 0x1_0000_0000_0000_0000_0000_0000_0000_0000,
            ;
        } else {
            assert(top * weight == top
                * 0x1_0000_0000_0000_0000_0000_0000_0000_0000_0000_0000_0000_0000)
                by (nonlinear_arith)
                requires
                    weight == 0x1_0000_0000_0000_0000_0000_0000_0000_0000_0000_0000_0000_0000,
            ;
        }
    }
    lemma_fundamental_div_mod_converse(value, weight, top, low);
    assert(value / weight == top);
    // Dividing by 2^(64 j + start) is dividing by the weight and then by
    // 2^start.
    let small = pow2(start) as int;
    lemma_pow2_pos(start);
    lemma_pow2_adds(64 * j, start);
    assert(pow2(64 * j + start) == weight * small);
    lemma_div_denominator(value, weight, small);
    assert(value / (pow2(64 * j + start) as int) == top / small);
    // The limbs above limb `j` are whole multiples of 2^width * 2^start.
    let modulus = pow2(width) as int;
    let upper = pow2((64 - start - width) as nat) as int;
    lemma_pow2_pos(width);
    lemma_pow2_adds(start, (64 - start) as nat);
    lemma_pow2_adds(width, (64 - start - width) as nat);
    assert(base == small * (modulus * upper));
    let lifted = modulus * upper * rest;
    assert(top == digit + lifted * small) by (nonlinear_arith)
        requires
            top == digit + base * rest,
            base == small * (modulus * upper),
            lifted == modulus * upper * rest,
    ;
    lemma_hoist_over_denominator(digit, lifted, small as nat);
    assert(top / small == digit / small + lifted);
    assert(lifted == modulus * (upper * rest)) by (nonlinear_arith)
        requires
            lifted == modulus * upper * rest,
    ;
    lemma_mod_multiples_vanish(upper * rest, digit / small, modulus);
    assert((top / small) % modulus == (digit / small) % modulus);
}

/// Bit `i` of a representation is the binary digit of weight 2^i of its
/// value.
pub proof fn lemma_repr_bit_is_binary_digit(limbs: Seq<u64>, i: nat)
    requires
        limbs.len() == 4,
        i < 256,
    ensures
        repr_bit(limbs, i as int) == ((repr_value(limbs) / pow2(i)) % 2 == 1),
{
    lemma2_to64();
    lemma_limb_digits_are_value_digits(limbs, i / 64, i % 64, 1);
    assert(64 * (i / 64) + i % 64 == i);
}

/// Byte `n` of the encoding of a representation is the digit of weight
/// 256^n of its value: the encoding is little-endian.
pub proof fn lemma_encoded_byte_is_value_digit(limbs: Seq<u64>, n: nat)
    requires
        limbs.len() == 4,
        n < 32,
    ensures
        repr_to_le_bytes(limbs)[n as int] == (repr_value(limbs) / pow2(8 * n)) % 256,
{
    lemma2_to64();
    lemma_limb_digits_are_value_digits(limbs, n / 8, 8 * (n % 8), 8);
    assert(64 * (n / 8) + 8 * (n % 8) == 8 * n);
}

/// Two limbs that agree byte by byte are the same limb.
proof fn lemma_limb_by_shifted_bytes(x: u64, y: u64)
    by (bit_vector)
    requires
        limb_shifted_byte(x, 0) == limb_shifted_byte(y, 0),
        limb_shifted_byte(x, 1) == limb_shifted_byte(y, 1),
        limb_shifted_byte(x, 2) == limb_shifted_byte(y, 2),
        limb_shifted_byte(x, 3) == limb_shifted_byte(y, 3),
        limb_shifted_byte(x, 4) == limb_shifted_byte(y, 4),
        limb_shifted_byte(x, 5) == limb_shifted_byte(y, 5),
        limb_shifted_byte(x, 6) == limb_shifted_byte(y, 6),
        limb_shifted_byte(x, 7) == limb_shifted_byte(y, 7),
    ensures
        x == y,
{
}

/// Two limbs that agree on the eight bits of byte `j` agree on that byte.
proof fn lemma_byte_by_masked_bits(x: u64, y: u64, j: u64)
    by (bit_vector)
    requires
        j < 8,
        limb_masked_bit(x, (8 * j) as u64) == limb_masked_bit(y, (8 * j) as u64),
        limb_masked_bit(x, (8 * j + 1) as u64) == limb_masked_bit(y, (8 * j + 1) as u64),
        limb_masked_bit(x, (8 * j + 2) as u64) == limb_masked_bit(y, (8 * j + 2) as u64),
        limb_masked_bit(x, (8 * j + 3) as u64) == limb_masked_bit(y, (8 * j + 3) as u64),
        limb_masked_bit(x, (8 * j + 4) as u64) == limb_masked_bit(y, (8 * j + 4) as u64),
        limb_masked_bit(x, (8 * j + 5) as u64) == limb_masked_bit(y, (8 * j + 5) as u64),
        limb_masked_bit(x, (8 * j + 6) as u64) == limb_masked_bit(y, (8 * j + 6) as u64),
        limb_masked_bit(x, (8 * j + 7) as u64) == limb_masked_bit(y, (8 * j + 7) as u64),
    ensures
        limb_shifted_byte(x, j) == limb_shifted_byte(y, j),
{
}

/// Two limbs with the same bits are the same limb.
pub proof fn lemma_limb_bits_determine(x: u64, y: u64)
    requires
        forall|k: nat| k < 64 ==> limb_bit(x, k) == limb_bit(y, k),
    ensures
        x == y,
{
    assert forall|k: u64| k < 64 implies #[trigger] limb_masked_bit(x, k) == limb_masked_bit(
        y,
        k,
    ) by {
        lemma_limb_bit_by_mask(x, k);
        lemma_limb_bit_by_mask(y, k);
        assert(limb_bit(x, k as nat) == limb_bit(y, k as nat));
    }
    lemma_byte_by_masked_bits(x, y, 0);
    lemma_byte_by_masked_bits(x, y, 1);
    lemma_byte_by_masked_bits(x, y, 2);
    lemma_byte_by_masked_bits(x, y, 3);
    lemma_byte_by_masked_bits(x, y, 4);
    lemma_byte_by_masked_bits(x, y, 5);
    lemma_byte_by_masked_bits(x, y, 6);
    lemma_byte_by_masked_bits(x, y, 7);
    lemma_limb_by_shifted_bytes(x, y);
}

/// Two representations with the same bits are the same representation.
pub proof fn lemma_repr_bits_determine(a: Seq<u64>, b: Seq<u64>)
    requires
        a.len() == 4,
        b.len() == 4,
        forall|i: int| 0 <= i < 256 ==> repr_bit(a, i) == repr_bit(b, i),
    ensures
        a == b,
{
    assert forall|j: int| 0 <= j < 4 implies a[j] == b[j] by {
        assert forall|k: nat| k < 64 implies limb_bit(a[j], k) == limb_bit(b[j], k) by {
            let i = 64 * j + k;
            assert(i / 64 == j && i % 64 == k);
            assert(repr_bit(a, i) == limb_bit(a[j], k));
            assert(repr_bit(b, i) == limb_bit(b[j], k));
        }
        lemma_limb_bits_determine(a[j], b[j]);
    }
    assert(a =~= b);
}

/// Decodes the first 32 bytes of `bytes` into limbs.
pub fn decode_repr(bytes: &[u8]) -> (limbs: [u64; 4])
    requires
        bytes@.len() >= 32,
    ensures
        limbs@ == repr_from_le_bytes(bytes@),
{
    let mut limbs = [0u64;4];
    let mut i: usize = 0;
    while i < 4
        invariant
            0 <= i <= 4,
            bytes@.len() >= 32,
            forall|k: int| 0 <= k < i ==> limbs@[k] == limb_from_le_bytes(bytes@, 8 * k),
        decreases 4 - i,
    {
        let at: usize = 8 * i;
        let limb: u64 = (bytes[at] as u64) | (bytes[at + 1] as u64) << 8 | (bytes[at + 2] as u64)
            << 16 | (bytes[at + 3] as u64) << 24 | (bytes[at + 4] as u64) << 32 | (bytes[at
            + 5] as u64) << 40 | (bytes[at + 6] as u64) << 48 | (bytes[at + 7] as u64) << 56;
        proof {
            lemma_bytes_joined_by_shifts(
                bytes@[at as int],
                bytes@[at + 1],
                bytes@[at + 2],
                bytes@[at + 3],
                bytes@[at + 4],
                bytes@[at + 5],
                bytes@[at + 6],
                bytes@[at + 7],
            );
            assert(limb == limb_from_le_bytes(bytes@, 8 * i));
        }
        limbs[i] = limb;
        i = i + 1;
    }
    assert(limbs@ =~= repr_from_le_bytes(bytes@));
    limbs
}

/// Encodes limbs as 32 bytes.
pub fn encode_repr(limbs: &[u64; 4]) -> (bytes: [u8; 32])
    ensures
        bytes@ == repr_to_le_bytes(limbs@),
{
    let mut bytes = [0u8;32];
    let mut j: usize = 0;
    while j < 32
        invariant
            0 <= j <= 32,
            forall|k: int| 0 <= k < j ==> bytes@[k] == limb_byte(limbs@[k / 8], (k % 8) as nat),
        decreases 32 - j,
    {
        let limb: u64 = limbs[j / 8];
        let shift: u64 = 8 * ((j % 8) as u64);
        let byte: u64 = (limb >> shift) & 0xff;
        proof {
            lemma_limb_byte_by_shift(limb, (j % 8) as u64);
            assert(byte == limb_shifted_byte(limb, (j % 8) as u64));
        }
        bytes[j] = byte as u8;
        j = j + 1;
    }
    assert(bytes@ =~= repr_to_le_bytes(limbs@));
    bytes
}

/// Tells whether the value of `a` is below the value of `b`.
pub fn repr_less_than(a: &[u64; 4], b: &[u64; 4]) -> (less: bool)
    ensures
        less == (repr_value(a@) < repr_value(b@)),
{
    proof {
        lemma_repr_value_order(a@, b@);
    }
    if a[3] != b[3] {
        a[3] < b[3]
    } else if a[2] != b[2] {
        a[2] < b[2]
    } else if a[1] != b[1] {
        a[1] < b[1]
    } else {
        a[0] < b[0]
    }
}

} // verus!
