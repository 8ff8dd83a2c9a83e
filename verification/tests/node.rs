use pairing::bls12_381::{Fr, FrRepr};
use pairing::{PrimeField, PrimeFieldRepr};
use sapling_primitives::field::FieldError;
use sapling_primitives::merkle::merkle_hash;
use sapling_primitives::node::{Node, ReadError, NODE_BYTES};
use std::collections::hash_map::DefaultHasher;
use std::collections::HashSet;
use std::hash::{Hash, Hasher};

const MODULUS: [u64; 4] = [
    0xffff_ffff_0000_0001,
    0x53bd_a402_fffe_5bfe,
    0x3339_d808_09a1_d805,
    0x73ed_a753_299d_7d48,
];

const SAMPLE: [u64; 4] = [
    0x0123_4567_89ab_cdef,
    0xfedc_ba98_7654_3210,
    0x0f1e_2d3c_4b5a_6978,
    0x1357_9bdf_0246_8ace,
];

fn hash_of(node: &Node) -> u64 {
    let mut hasher = DefaultHasher::new();
    node.hash(&mut hasher);
    hasher.finish()
}

#[test]
fn new_keeps_the_representation() {
    assert_eq!(Node::new(SAMPLE).repr(), SAMPLE);
    assert_eq!(Node::new([u64::MAX; 4]).repr(), [u64::MAX; 4]);
}

#[test]
fn blank_is_the_value_one() {
    let mut expected = [0u8; 32];
    expected[0] = 1;
    assert_eq!(Node::blank().to_bytes(), expected);
    assert_eq!(Node::blank().repr(), [1, 0, 0, 0]);
    assert_eq!(Node::blank(), Node::blank());
}

#[test]
fn blank_is_the_uncommitted_value_of_the_field() {
    let one = Fr::from_repr(FrRepr([1, 0, 0, 0])).unwrap();
    assert_eq!(Node::blank().to_fr(), Ok(one));
}

#[test]
fn write_gives_little_endian_bytes() {
    let mut out = Vec::new();
    Node::new(SAMPLE).write(&mut out);
    assert_eq!(
        out,
        vec![
            0xef, 0xcd, 0xab, 0x89, 0x67, 0x45, 0x23, 0x01, 0x10, 0x32, 0x54, 0x76, 0x98, 0xba,
            0xdc, 0xfe, 0x78, 0x69, 0x5a, 0x4b, 0x3c, 0x2d, 0x1e, 0x0f, 0xce, 0x8a, 0x46, 0x02,
            0xdf, 0x9b, 0x57, 0x13,
        ]
    );
}

#[test]
fn write_appends_exactly_the_width_of_the_field() {
    let mut out = vec![0xaa, 0xbb];
    Node::blank().write(&mut out);
    assert_eq!(out.len(), 2 + NODE_BYTES);
    assert_eq!(&out[..3], &[0xaa, 0xbb, 0x01]);
    Node::blank().write(&mut out);
    assert_eq!(out.len(), 2 + 2 * NODE_BYTES);
}

#[test]
fn write_agrees_with_the_pairing_library() {
    let mut expected = Vec::new();
    FrRepr(SAMPLE).write_le(&mut expected).unwrap();
    assert_eq!(Node::new(SAMPLE).to_bytes().to_vec(), expected);
}

#[test]
fn read_agrees_with_the_pairing_library() {
    let bytes: Vec<u8> = (0u8..32).map(|i| i.wrapping_mul(37).wrapping_add(11)).collect();
    let mut expected = FrRepr::default();
    expected.read_le(&bytes[..]).unwrap();
    assert_eq!(Node::read(&bytes).unwrap().repr(), expected.0);
    let mut short = FrRepr::default();
    assert!(short.read_le(&bytes[..31]).is_err());
    assert!(Node::read(&bytes[..31]).is_err());
}

#[test]
fn read_takes_the_first_thirty_two_bytes() {
    let mut bytes = vec![0u8; 40];
    bytes[0] = 7;
    bytes[31] = 0x80;
    bytes[32] = 0xff;
    assert_eq!(
        Node::read(&bytes),
        Ok(Node::new([7, 0, 0, 0x8000_0000_0000_0000]))
    );
}

#[test]
fn read_fails_on_a_short_input() {
    assert_eq!(Node::read(&[]), Err(ReadError::UnexpectedEof));
    assert_eq!(Node::read(&[1u8; 31]), Err(ReadError::UnexpectedEof));
    assert!(Node::read(&[1u8; 32]).is_ok());
}

#[test]
fn read_does_not_check_validity() {
    let node = Node::read(&[0xff; 32]).unwrap();
    assert_eq!(node.repr(), [u64::MAX; 4]);
    assert!(!node.is_in_field());
}

#[test]
fn read_gives_back_what_write_wrote() {
    let nodes = [
        Node::blank(),
        Node::new(SAMPLE),
        Node::new([0; 4]),
        Node::new([u64::MAX; 4]),
        Node::new(MODULUS),
        Node::new(merkle_hash(9, &SAMPLE, &SAMPLE)),
    ];
    for node in nodes.iter() {
        let mut out = Vec::new();
        node.write(&mut out);
        assert_eq!(Node::read(&out), Ok(*node));
        let mut again = Vec::new();
        Node::read(&out).unwrap().write(&mut again);
        assert_eq!(again, out);
    }
}

#[test]
fn nodes_in_a_stream_come_back_in_order() {
    let mut out = Vec::new();
    Node::new(SAMPLE).write(&mut out);
    Node::blank().write(&mut out);
    assert_eq!(Node::read(&out), Ok(Node::new(SAMPLE)));
    assert_eq!(Node::read(&out[NODE_BYTES..]), Ok(Node::blank()));
    assert_eq!(
        Node::read(&out[2 * NODE_BYTES..]),
        Err(ReadError::UnexpectedEof)
    );
}

#[test]
fn combine_is_the_merkle_hash_of_the_representations() {
    let lhs = Node::new(SAMPLE);
    let rhs = Node::blank();
    for depth in [0usize, 1, 17, 31] {
        assert_eq!(
            Node::combine(depth, &lhs, &rhs).repr(),
            merkle_hash(depth, &SAMPLE, &[1, 0, 0, 0])
        );
    }
}

#[test]
fn combine_gives_field_elements() {
    let parent = Node::combine(0, &Node::new([u64::MAX; 4]), &Node::new(MODULUS));
    assert!(parent.is_in_field());
    assert!(parent.to_fr().is_ok());
}

#[test]
fn conversion_accepts_values_below_the_modulus() {
    let mut below = MODULUS;
    below[0] -= 1;
    assert!(Node::new(below).is_in_field());
    assert_eq!(
        Node::new(below).to_fr(),
        Ok(Fr::from_repr(FrRepr(below)).unwrap())
    );
    assert!(Node::new([0; 4]).to_fr().is_ok());
    assert!(Node::new(SAMPLE).to_fr().is_ok());
}

#[test]
fn conversion_refuses_values_at_or_above_the_modulus() {
    assert!(!Node::new(MODULUS).is_in_field());
    assert_eq!(Node::new(MODULUS).to_fr(), Err(FieldError::NotInField));
    let mut above = MODULUS;
    above[0] += 1;
    assert_eq!(Node::new(above).to_fr(), Err(FieldError::NotInField));
    assert_eq!(
        Node::new([u64::MAX; 4]).to_fr(),
        Err(FieldError::NotInField)
    );
    assert_eq!(
        Node::new([0, 0, 0, 0x73ed_a753_299d_7d49]).to_fr(),
        Err(FieldError::NotInField)
    );
}

#[test]
fn conversion_keeps_the_value() {
    let fr = Node::new(SAMPLE).to_fr().unwrap();
    assert_eq!(fr.into_repr(), FrRepr(SAMPLE));
    assert_ne!(fr, Node::blank().to_fr().unwrap());
}

#[test]
fn equal_nodes_hash_alike() {
    let first = Node::new(SAMPLE);
    let second = Node::read(&first.to_bytes()).unwrap();
    assert_eq!(first, second);
    assert_eq!(hash_of(&first), hash_of(&second));
    let mut set = HashSet::new();
    set.insert(first);
    assert!(set.contains(&second));
    assert!(!set.contains(&Node::blank()));
}

#[test]
fn nodes_differ_when_any_limb_differs() {
    for i in 0..4 {
        let mut other = SAMPLE;
        other[i] ^= 1;
        assert_ne!(Node::new(SAMPLE), Node::new(other));
    }
}

#[test]
fn heap_size_is_fixed() {
    assert_eq!(Node::blank().heap_size_of_children(), 256);
    assert_eq!(Node::new(SAMPLE).heap_size_of_children(), 256);
}
