use sapling_primitives::repr::{decode_repr, encode_repr, repr_less_than};

#[test]
fn encode_puts_least_significant_byte_first() {
    let bytes = encode_repr(&[0x0807_0605_0403_0201, 0, 0, 0xff00_0000_0000_0000]);
    assert_eq!(&bytes[0..8], &[1, 2, 3, 4, 5, 6, 7, 8]);
    assert_eq!(bytes[31], 0xff);
    assert_eq!(bytes[30], 0);
}

#[test]
fn decode_reads_limbs_in_order() {
    let mut bytes = [0u8; 32];
    bytes[0] = 1;
    bytes[8] = 2;
    bytes[23] = 3;
    bytes[31] = 4;
    assert_eq!(
        decode_repr(&bytes),
        [1, 2, 0x0300_0000_0000_0000, 0x0400_0000_0000_0000]
    );
}

#[test]
fn less_than_goes_by_the_most_significant_limb() {
    assert!(repr_less_than(&[u64::MAX, u64::MAX, u64::MAX, 0], &[0, 0, 0, 1]));
    assert!(!repr_less_than(&[0, 0, 0, 1], &[u64::MAX, u64::MAX, u64::MAX, 0]));
    assert!(!repr_less_than(&[5, 6, 7, 8], &[5, 6, 7, 8]));
    assert!(repr_less_than(&[4, 6, 7, 8], &[5, 6, 7, 8]));
}

fn sample(seed: u64) -> [u8; 32] {
    let mut state = seed.wrapping_mul(0x9e37_79b9_7f4a_7c15).wrapping_add(1);
    let mut bytes = [0u8; 32];
    for b in bytes.iter_mut() {
        state = state
            .wrapping_mul(6364136223846793005)
            .wrapping_add(1442695040888963407);
        *b = (state >> 56) as u8;
    }
    bytes
}

#[test]
fn encode_undoes_decode() {
    for seed in 0..64 {
        let bytes = sample(seed);
        assert_eq!(encode_repr(&decode_repr(&bytes)), bytes);
    }
}

#[test]
fn decode_undoes_encode() {
    for seed in 0..64 {
        let limbs = decode_repr(&sample(seed));
        assert_eq!(decode_repr(&encode_repr(&limbs)), limbs);
    }
}

#[test]
fn decode_is_little_endian() {
    for seed in 0..16 {
        let bytes = sample(seed);
        let limbs = decode_repr(&bytes);
        for i in 0..4 {
            let mut chunk = [0u8; 8];
            chunk.copy_from_slice(&bytes[8 * i..8 * i + 8]);
            assert_eq!(limbs[i], u64::from_le_bytes(chunk));
        }
    }
}

#[test]
fn less_than_is_the_order_of_the_values() {
    for a in 0..24 {
        for b in 0..24 {
            let x = decode_repr(&sample(a));
            let y = decode_repr(&sample(b));
            let mut x_be = encode_repr(&x);
            let mut y_be = encode_repr(&y);
            x_be.reverse();
            y_be.reverse();
            assert_eq!(repr_less_than(&x, &y), x_be < y_be);
        }
    }
}
