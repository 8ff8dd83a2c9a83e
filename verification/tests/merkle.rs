use pairing::PrimeField;
use sapling_primitives::field::{repr_in_field, FR_NUM_BITS};
use sapling_primitives::merkle::{expand_bits, merkle_hash, PERSONALIZATION_DEPTH_BOUND};
use sapling_primitives::repr::{decode_repr, encode_repr};

fn hex(bytes: &[u8]) -> String {
    let mut s = String::new();
    for b in bytes {
        s.push_str(&format!("{:02x}", b));
    }
    s
}

const ONE: [u64; 4] = [1, 0, 0, 0];
const SAMPLE: [u64; 4] = [
    0x0123_4567_89ab_cdef,
    0xfedc_ba98_7654_3210,
    0x0f1e_2d3c_4b5a_6978,
    0x1357_9bdf_0246_8ace,
];

#[test]
fn expand_bits_puts_the_least_significant_bit_first() {
    let slots = expand_bits(&[0b101, 0, 1, 0x8000_0000_0000_0000]);
    for (i, bit) in slots.iter().enumerate() {
        let expected = i == 0 || i == 2 || i == 128 || i == 255;
        assert_eq!(*bit, expected, "bit {}", i);
    }
}

#[test]
fn expand_bits_of_all_ones() {
    let slots = expand_bits(&[u64::MAX; 4]);
    assert!(slots.iter().all(|b| *b));
    let slots = expand_bits(&[0; 4]);
    assert!(slots.iter().all(|b| !*b));
}

#[test]
fn merkle_hash_of_two_blank_leaves() {
    let parent = merkle_hash(0, &ONE, &ONE);
    assert_eq!(
        hex(&encode_repr(&parent)),
        "817de36ab2d57feb077634bca77819c8e0bd298c04f6fed0e6a83cc1356ca155"
    );
}

#[test]
fn merkle_hash_is_deterministic() {
    let first = merkle_hash(7, &SAMPLE, &ONE);
    let second = merkle_hash(7, &SAMPLE, &ONE);
    assert_eq!(first, second);
}

#[test]
fn merkle_hash_depends_on_the_depth() {
    let at_zero = merkle_hash(0, &SAMPLE, &ONE);
    let at_one = merkle_hash(1, &SAMPLE, &ONE);
    let at_last = merkle_hash(62, &SAMPLE, &ONE);
    assert_ne!(at_zero, at_one);
    assert_ne!(at_zero, at_last);
    assert_ne!(at_one, at_last);
}

#[test]
fn merkle_hash_depends_on_the_order_of_the_children() {
    assert_ne!(merkle_hash(3, &SAMPLE, &ONE), merkle_hash(3, &ONE, &SAMPLE));
}

#[test]
fn merkle_hash_agrees_with_the_hash_library() {
    let children = [ONE, SAMPLE, [0; 4], [u64::MAX, 0, 0, 0]];
    for depth in [0usize, 1, 5, 31, 32, 62] {
        for lhs in children.iter() {
            for rhs in children.iter() {
                let expected =
                    sapling_crypto::merkle_hash(depth, &encode_repr(lhs), &encode_repr(rhs));
                assert_eq!(encode_repr(&merkle_hash(depth, lhs, rhs)), expected);
            }
        }
    }
}

#[test]
fn merkle_hash_leaves_out_the_top_bit() {
    let mut with_top = SAMPLE;
    with_top[3] |= 0x8000_0000_0000_0000;
    assert_eq!(merkle_hash(4, &with_top, &ONE), merkle_hash(4, &SAMPLE, &ONE));
    assert_eq!(merkle_hash(4, &ONE, &with_top), merkle_hash(4, &ONE, &SAMPLE));
    let mut with_bit_254 = SAMPLE;
    with_bit_254[3] ^= 0x4000_0000_0000_0000;
    assert_ne!(merkle_hash(4, &with_bit_254, &ONE), merkle_hash(4, &SAMPLE, &ONE));
}

#[test]
fn merkle_hash_gives_a_field_element() {
    for depth in 0..PERSONALIZATION_DEPTH_BOUND {
        let parent = merkle_hash(depth, &[u64::MAX; 4], &SAMPLE);
        assert!(repr_in_field(&parent));
        assert_eq!(decode_repr(&encode_repr(&parent)), parent);
    }
}

#[test]
fn truncation_matches_the_bit_length_of_the_field() {
    assert_eq!(FR_NUM_BITS as u32, pairing::bls12_381::Fr::NUM_BITS);
}
