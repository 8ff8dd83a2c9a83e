//! The value held at every leaf and inner position of the commitment tree.

use crate::field::{fr_of_repr, in_field, repr_in_field, repr_to_fr, FieldError};
use crate::merkle::{merkle_hash, merkle_parent};
use crate::repr::{
    decode_repr, encode_repr, lemma_encoded_byte_is_value_digit, lemma_repr_decode_encode,
    lemma_repr_encode_decode, repr_from_le_bytes, repr_to_le_bytes, repr_value,
};
use pairing::bls12_381::Fr;
use vstd::arithmetic::power2::pow2;
use vstd::prelude::*;

verus! {

/// Height of the commitment tree. Siblings are joined at depths below it,
/// and roots exist for depths up to and including it.
pub const SAPLING_COMMITMENT_TREE_DEPTH: usize = 32;

/// Number of bytes of a node on the wire and in storage.
pub const NODE_BYTES: usize = 32;

/// A node within the commitment tree: one field-element representation.
#[derive(Clone, Copy, Debug, Eq, Hash)]
pub struct Node {
    repr: [u64; 4],
}

/// Why bytes could not be read as a node.
#[derive(Clone, Copy, Debug, PartialEq, Eq, Structural)]
pub enum ReadError {
    /// The input ended before the 32 bytes of a node.
    UnexpectedEof,
}

impl View for Node {
    type V = Seq<u64>;

    /// The four limbs of the representation, least significant first.
    closed spec fn view(&self) -> Seq<u64> {
        self.repr@
    }
}

impl PartialEq for Node {
    /// Nodes are equal when their limbs are.
    fn eq(&self, other: &Node) -> (equal: bool) {
        let equal = self.repr[0] == other.repr[0] && self.repr[1] == other.repr[1] && self.repr[2]
            == other.repr[2] && self.repr[3] == other.repr[3];
        proof {
            if equal {
                assert(self.repr@ =~= other.repr@);
            }
        }
        equal
    }
}

impl vstd::std_specs::cmp::PartialEqSpecImpl for Node {
    open spec fn obeys_eq_spec() -> bool {
        true
    }

    open spec fn eq_spec(&self, other: &Node) -> bool {
        self@ == other@
    }
}

/// The representation of the uncommitted note: the value one.
pub open spec fn uncommitted_repr() -> Seq<u64> {
    seq![1u64, 0u64, 0u64, 0u64]
}

/// What `Node::read` makes of `bytes`.
pub open spec fn read_spec(bytes: Seq<u8>) -> Result<Seq<u64>, ReadError> {
    if bytes.len() >= 32 {
        Ok(repr_from_le_bytes(bytes))
    } else {
        Err(ReadError::UnexpectedEof)
    }
}

impl Node {
    /// A node has four limbs, and nodes are equal exactly when their limbs
    /// are.
    pub proof fn lemma_eq_by_view(self, other: Node)
        ensures
            self@.len() == 4,
            self == other <==> self@ == other@,
    {
        if self@ == other@ {
            assert(self.repr =~= other.repr);
        }
    }

    /// Wraps a representation, valid or not: validity shows when the node
    /// is converted into a field element.
    pub fn new(repr: [u64; 4]) -> (node: Node)
        ensures
            node@ == repr@,
    {
        Node { repr }
    }

    /// The wrapped representation.
    pub fn repr(&self) -> (repr: [u64; 4])
        ensures
            repr@ == self@,
    {
        self.repr
    }

    /// Memory that the node owns beyond itself, as the tree's cache
    /// accounts for it.
    pub fn heap_size_of_children(&self) -> (size: usize)
        ensures
            size == 256,
    {
        256
    }

    /// Reads a node from the first 32 bytes of `bytes`, little-endian.
    /// Fails when fewer bytes are there.
    pub fn read(bytes: &[u8]) -> (r: Result<Node, ReadError>)
        ensures
            r is Ok <==> bytes@.len() >= 32,
            match r {
                Ok(node) => read_spec(bytes@) == Ok::<Seq<u64>, ReadError>(node@),
                Err(e) => read_spec(bytes@) == Err::<Seq<u64>, ReadError>(e),
            },
    {
        if bytes.len() < NODE_BYTES {
            return Err(ReadError::UnexpectedEof);
        }
        Ok(Node { repr: decode_repr(bytes) })
    }

    /// Appends the node's 32 bytes to `writer`, little-endian. What was
    /// in `writer` stays in front of them.
    pub fn write(&self, writer: &mut Vec<u8>)
        ensures
            final(writer)@ == old(writer)@ + repr_to_le_bytes(self@),
            final(writer)@.len() == old(writer)@.len() + NODE_BYTES,
    {
        let bytes = encode_repr(&self.repr);
        let mut j: usize = 0;
        while j < NODE_BYTES
            invariant
                0 <= j <= 32,
                bytes@ == repr_to_le_bytes(self@),
                writer@ == old(writer)@ + bytes@.take(j as int),
            decreases 32 - j,
        {
            writer.push(bytes[j]);
            assert(writer@ =~= old(writer)@ + bytes@.take(j + 1));
            j = j + 1;
        }
        assert(bytes@.take(32) =~= bytes@);
    }

    /// The node's 32 bytes, little-endian.
    pub fn to_bytes(&self) -> (bytes: [u8; 32])
        ensures
            bytes@ == repr_to_le_bytes(self@),
    {
        encode_repr(&self.repr)
    }

    /// Joins two siblings at `depth` into their parent.
    pub fn combine(depth: usize, lhs: &Node, rhs: &Node) -> (parent: Node)
        requires
            depth < SAPLING_COMMITMENT_TREE_DEPTH,
        ensures
            parent@ == merkle_parent(depth as nat, lhs@, rhs@),
            in_field(parent@),
    {
        Node { repr: merkle_hash(depth, &lhs.repr, &rhs.repr) }
    }

    /// The node that fills a leaf position holding no commitment.
    pub fn blank() -> (node: Node)
        ensures
            node@ == uncommitted_repr(),
            in_field(node@),
    {
        let repr: [u64; 4] = [1, 0, 0, 0];
        assert(repr@ =~= uncommitted_repr());
        Node { repr }
    }

    /// Tells whether the node holds a valid field element.
    pub fn is_in_field(&self) -> (valid: bool)
        ensures
            valid == in_field(self@),
    {
        repr_in_field(&self.repr)
    }

    /// Converts the node into an arithmetic field element. A value at or
    /// above the modulus is an error, never reduced.
    pub fn to_fr(&self) -> (r: Result<Fr, FieldError>)
        ensures
            r is Ok <==> in_field(self@),
            r matches Ok(fr) ==> fr == fr_of_repr(self@),
            r matches Err(e) ==> e == FieldError::NotInField,
    {
        repr_to_fr(&self.repr)
    }
}

/// What a node writes is its value in little-endian: byte `n` is the digit
/// of weight 256^n.
pub proof fn lemma_written_bytes_are_little_endian(node: Node, n: nat)
    requires
        n < 32,
    ensures
        repr_to_le_bytes(node@).len() == 32,
        repr_to_le_bytes(node@)[n as int] == (repr_value(node@) / pow2(8 * n)) % 256,
{
    lemma_encoded_byte_is_value_digit(node@, n);
}

/// Reading what a node wrote gives the node back, whatever follows it in
/// the input.
pub proof fn lemma_read_write_round_trip(node: Node, rest: Seq<u8>)
    ensures
        read_spec(repr_to_le_bytes(node@) + rest) == Ok::<Seq<u64>, ReadError>(node@),
{
    let bytes = repr_to_le_bytes(node@);
    lemma_repr_decode_encode(node@);
    assert(repr_from_le_bytes(bytes + rest) =~= repr_from_le_bytes(bytes));
}

/// Writing the node read from 32 bytes gives the same 32 bytes: no two
/// encodings stand for one node.
pub proof fn lemma_write_read_round_trip(bytes: Seq<u8>)
    requires
        bytes.len() == 32,
    ensures
        read_spec(bytes) matches Ok(limbs) && repr_to_le_bytes(limbs) == bytes,
{
    lemma_repr_encode_decode(bytes);
}

} // verus!
