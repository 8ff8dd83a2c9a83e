//! Spend authorization: a signature under a key that is randomized anew
//! for every spend, so that spends of one authority cannot be linked.

use crate::repr::{
    decode_repr, le_bytes_value, lemma_repr_encode_decode, lemma_repr_value_injective,
    repr_from_le_bytes, repr_less_than, repr_value,
};
use rand::rngs::OsRng;
use redjubjub::{SigningKey, SpendAuth, VerificationKey};
use vstd::prelude::*;

verus! {

/// The order of the group in which keys live: the modulus of the scalar
/// field.
pub open spec fn fs_modulus() -> nat {
    0x0e7d_b4ea_6533_afa9_0667_3b01_0134_3b00_a668_2093_ccc8_1082_d097_0e5e_d6f7_2cb7nat
}

/// Thirty-two bytes encode a scalar canonically when their little-endian
/// value is below the modulus.
pub open spec fn is_canonical_scalar(bytes: Seq<u8>) -> bool {
    bytes.len() == 32 && le_bytes_value(bytes) < fs_modulus()
}

/// The key that a randomizer makes of a private key: their sum in the
/// scalar field.
pub open spec fn rerandomized(sk: nat, alpha: nat) -> nat {
    (sk + alpha) % fs_modulus()
}

/// The 32-byte encoding of the public key that belongs to the private key
/// `sk`, on the generator kept for spend authorization.
pub uninterp spec fn spend_auth_public_key(sk: nat) -> Seq<u8>;

/// The 64-byte signature that the private key `sk` puts on `msg` when the
/// random source hands out the 80 bytes `entropy`. The signing routine
/// hashes the encoding of the public key of `sk` in front of `msg`.
pub uninterp spec fn spend_auth_signature(sk: nat, msg: Seq<u8>, entropy: Seq<u8>) -> Seq<u8>;

/// Tells whether `sig` is a signature that the private key `sk` can put on
/// `msg`: the one that comes out for some bytes from the random source.
pub open spec fn is_spend_auth_signature(sig: Seq<u8>, sk: nat, msg: Seq<u8>) -> bool {
    exists|entropy: Seq<u8>| sig == spend_auth_signature(sk, msg, entropy)
}

/// An element of the scalar field, held in its canonical encoding.
#[derive(Clone, Copy, Debug)]
pub struct Fs {
    bytes: [u8; 32],
}

impl View for Fs {
    type V = nat;

    /// The scalar as an integer below the modulus.
    closed spec fn view(&self) -> nat {
        le_bytes_value(self.bytes@)
    }
}

/// A private key of the signature scheme.
#[derive(Clone, Copy, Debug)]
pub struct PrivateKey(pub Fs);

/// A public key of the signature scheme, in its 32-byte encoding.
#[derive(Clone, Copy, Debug)]
pub struct PublicKey {
    bytes: [u8; 32],
}

impl View for PublicKey {
    type V = Seq<u8>;

    closed spec fn view(&self) -> Seq<u8> {
        self.bytes@
    }
}

/// A signature, in its 64-byte encoding.
#[derive(Clone, Copy, Debug)]
pub struct Signature {
    bytes: [u8; 64],
}

impl View for Signature {
    type V = Seq<u8>;

    closed spec fn view(&self) -> Seq<u8> {
        self.bytes@
    }
}

/// `SigningKey::randomize` of the redjubjub library on a `SpendAuth` key
/// and a `jubjub::Fr` randomizer, both decoded from and the result encoded
/// to canonical bytes: the sum of the two scalars in the scalar field.
#[verifier::external_body]
fn randomize_scalar(sk: &[u8; 32], alpha: &[u8; 32]) -> (r: [u8; 32])
    requires
        is_canonical_scalar(sk@),
        is_canonical_scalar(alpha@),
    ensures
        is_canonical_scalar(r@),
        le_bytes_value(r@) == rerandomized(le_bytes_value(sk@), le_bytes_value(alpha@)),
{
    let key = SigningKey::<SpendAuth>::try_from(*sk).unwrap();
    let alpha = jubjub::Fr::from_bytes(alpha).unwrap();
    key.randomize(&alpha).into()
}

/// `VerificationKey::from` of the redjubjub library on a `SpendAuth`
/// signing key, encoded to bytes. The result depends on the scalar alone.
#[verifier::external_body]
fn verification_key_bytes(sk: &[u8; 32]) -> (vk: [u8; 32])
    requires
        is_canonical_scalar(sk@),
    ensures
        vk@ == spend_auth_public_key(le_bytes_value(sk@)),
{
    let key = SigningKey::<SpendAuth>::try_from(*sk).unwrap();
    VerificationKey::from(&key).into()
}

/// `SigningKey::sign` of the redjubjub library on a `SpendAuth` key, with
/// `OsRng` of the rand library as its random source. The routine draws 80
/// bytes from the source; the signature depends on the scalar, the message
/// and those bytes alone. Where the operating system has no randomness to
/// give, the source aborts: no weaker one takes its place.
#[verifier::external_body]
fn sign_with_os_rng(sk: &[u8; 32], msg: &[u8]) -> (sig: [u8; 64])
    requires
        is_canonical_scalar(sk@),
    ensures
        exists|entropy: Seq<u8>| sig@ == spend_auth_signature(le_bytes_value(sk@), msg@, entropy),
{
    let key = SigningKey::<SpendAuth>::try_from(*sk).unwrap();
    key.sign(OsRng, msg).into()
}

/// The limbs of the scalar field's modulus.
pub fn fs_modulus_limbs() -> (m: [u64; 4])
    ensures
        repr_value(m@) == fs_modulus(),
{
    [
        0xd097_0e5e_d6f7_2cb7u64,
        0xa668_2093_ccc8_1082u64,
        0x0667_3b01_0134_3b00u64,
        0x0e7d_b4ea_6533_afa9u64,
    ]
}

impl Fs {
    #[verifier::type_invariant]
    spec fn well_formed(self) -> bool {
        is_canonical_scalar(self.bytes@)
    }

    /// Scalars are equal exactly when their values are: no two encodings
    /// stand for one value.
    pub proof fn lemma_eq_by_view(self, other: Fs)
        ensures
            self == other <==> self@ == other@,
    {
        if self@ == other@ {
            lemma_repr_value_injective(
                repr_from_le_bytes(self.bytes@),
                repr_from_le_bytes(other.bytes@),
            );
            lemma_repr_encode_decode(self.bytes@);
            lemma_repr_encode_decode(other.bytes@);
            assert(self.bytes@ =~= other.bytes@);
            assert(self.bytes =~= other.bytes);
        }
    }

    /// Reads a scalar from its encoding. Bytes whose value is not below
    /// the modulus encode no scalar.
    pub fn from_bytes(bytes: &[u8; 32]) -> (scalar: Option<Fs>)
        ensures
            scalar is Some <==> is_canonical_scalar(bytes@),
            scalar matches Some(s) ==> s@ == le_bytes_value(bytes@),
    {
        let limbs = decode_repr(bytes.as_slice());
        let m = fs_modulus_limbs();
        if repr_less_than(&limbs, &m) {
            Some(Fs { bytes: *bytes })
        } else {
            None
        }
    }

    /// The scalar's canonical encoding.
    pub fn to_bytes(&self) -> (bytes: [u8; 32])
        ensures
            is_canonical_scalar(bytes@),
            le_bytes_value(bytes@) == self@,
            self@ < fs_modulus(),
    {
        proof {
            use_type_invariant(self);
        }
        self.bytes
    }
}

impl PrivateKey {
    /// The key rerandomized by `alpha`: their sum in the scalar field.
    pub fn randomize(&self, alpha: Fs) -> (key: PrivateKey)
        ensures
            key.0@ == rerandomized(self.0@, alpha@),
    {
        let sk = self.0.to_bytes();
        let a = alpha.to_bytes();
        PrivateKey(Fs { bytes: randomize_scalar(&sk, &a) })
    }

    /// Signs `msg` with fresh randomness of the operating system. The
    /// public key of `self` is bound into what is signed.
    pub fn sign(&self, msg: &[u8]) -> (sig: Signature)
        ensures
            is_spend_auth_signature(sig@, self.0@, msg@),
    {
        let sk = self.0.to_bytes();
        Signature { bytes: sign_with_os_rng(&sk, msg) }
    }
}

impl PublicKey {
    /// The public key that belongs to a private key.
    pub fn from_private(privkey: &PrivateKey) -> (key: PublicKey)
        ensures
            key@ == spend_auth_public_key(privkey.0@),
    {
        let sk = privkey.0.to_bytes();
        PublicKey { bytes: verification_key_bytes(&sk) }
    }

    /// The key's 32-byte encoding.
    pub fn to_bytes(&self) -> (bytes: [u8; 32])
        ensures
            bytes@ == self@,
    {
        self.bytes
    }
}

impl Signature {
    /// The signature's 64-byte encoding.
    pub fn to_bytes(&self) -> (bytes: [u8; 64])
        ensures
            bytes@ == self@,
    {
        self.bytes
    }
}

/// Creates the spend authorization signature of a spend description: the
/// authorizing key `ask` is rerandomized by `ar`, and the randomized key
/// signs the transaction digest `sighash`. The randomized public key, which
/// the signing routine puts in front of the digest, is the one to publish
/// and to verify against.
pub fn spend_sig(ask: PrivateKey, ar: Fs, sighash: &[u8; 32]) -> (sig: Signature)
    ensures
        is_spend_auth_signature(sig@, rerandomized(ask.0@, ar@), sighash@),
{
    let rsk = ask.randomize(ar);
    rsk.sign(sighash.as_slice())
}

/// Rerandomizing by zero leaves the key as it is.
pub proof fn lemma_rerandomized_by_zero(sk: nat)
    requires
        sk < fs_modulus(),
    ensures
        rerandomized(sk, 0) == sk,
{
}

/// Distinct randomizers give distinct randomized private keys.
pub proof fn lemma_rerandomized_injective(sk: nat, alpha: nat, beta: nat)
    requires
        alpha < fs_modulus(),
        beta < fs_modulus(),
        alpha != beta,
    ensures
        rerandomized(sk, alpha) != rerandomized(sk, beta),
{
    let m = fs_modulus() as int;
    let x = (sk + alpha) as int;
    let y = (sk + beta) as int;
    if x % m == y % m {
        assert(x == m * (x / m) + x % m);
        assert(y == m * (y / m) + y % m);
        assert(alpha - beta == m * (x / m - y / m));
        assert(x / m - y / m == 0);
    }
}

} // verus!
