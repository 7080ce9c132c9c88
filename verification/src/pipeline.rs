//! The derivation pipeline: a candidate key value is interpreted as a
//! secp256k1 secret scalar, its compressed public key is derived, and a
//! SHA-256 digest followed by a RIPEMD-160 digest of the encoding gives the
//! 20-byte fingerprint that is compared against the target.

use vstd::prelude::*;
use crate::u256::{U256, key_bytes32, be_bytes_value};
use bitcoin::secp256k1::{Secp256k1, SecretKey, PublicKey, All};
use bitcoin::util::address::{Address, Payload};

verus! {

/// A secp256k1 context, held opaquely: Verus cannot name the library's
/// generic context type, so the context lives inside this wrapper struct.
#[verifier::external_body]
pub struct SecpContext {
    inner: Secp256k1<All>,
}

#[verifier::external_type_specification]
#[verifier::external_body]
pub struct ExSecretKey(SecretKey);

#[verifier::external_type_specification]
#[verifier::external_body]
pub struct ExPublicKey(PublicKey);

/// The order of the secp256k1 group: secret scalars are the values strictly
/// between zero and this bound.
pub open spec fn secp_order() -> nat {
    0xffff_ffff_ffff_ffff_ffff_ffff_ffff_fffe_baae_dce6_af48_a03b_bfd2_5e8c_d036_4141nat
}

/// A key value that the curve accepts as a secret scalar.
pub open spec fn valid_scalar(v: nat) -> bool {
    0 < v < secp_order()
}

/// The 32 bytes a secret key was built from.
pub uninterp spec fn sk_bytes(k: SecretKey) -> Seq<u8>;

/// The compressed 33-byte encoding of the public point a secret key's bytes
/// determine.
pub uninterp spec fn secp_pubkey_of(sk: Seq<u8>) -> Seq<u8>;

/// The compressed encoding of the point a public key holds.
pub uninterp spec fn pk_compressed(k: PublicKey) -> Seq<u8>;

/// The SHA-256 digest of a byte string.
pub uninterp spec fn sha256_of(data: Seq<u8>) -> Seq<u8>;

/// The RIPEMD-160 digest of a byte string.
pub uninterp spec fn ripemd160_of(data: Seq<u8>) -> Seq<u8>;

/// The hashed-public-key payload of a pay-to-pubkey-hash address string, if
/// the string is such an address.
pub uninterp spec fn p2pkh_hash_of(s: Seq<char>) -> Option<Seq<u8>>;

/// Relies on `secp256k1::Secp256k1::new`: a context able to derive public
/// keys.
#[verifier::external_body]
fn secp_context() -> SecpContext {
    SecpContext { inner: Secp256k1::new() }
}

/// Relies on `secp256k1::SecretKey::from_slice`: accepts exactly the 32-byte
/// strings whose value is a nonzero scalar below the curve order, and stores
/// those bytes.
#[verifier::external_body]
fn secret_key_from_bytes(b: &[u8]) -> (r: Option<SecretKey>)
    requires
        b@.len() == 32,
    ensures
        r is Some <==> valid_scalar(be_bytes_value(b@)),
        r is Some ==> sk_bytes(r->0) =~= b@,
{
    SecretKey::from_slice(b).ok()
}

/// Relies on `secp256k1::PublicKey::from_secret_key`: the public point is a
/// function of the secret key's bytes alone.
#[verifier::external_body]
fn public_key_of(secp: &SecpContext, sk: &SecretKey) -> (r: PublicKey)
    ensures
        pk_compressed(r) =~= secp_pubkey_of(sk_bytes(*sk)),
{
    PublicKey::from_secret_key(&secp.inner, sk)
}

/// Relies on `secp256k1::PublicKey::serialize`: the compressed 33-byte
/// encoding of the point.
#[verifier::external_body]
fn public_key_serialize(pk: &PublicKey) -> (r: Vec<u8>)
    ensures
        r@ =~= pk_compressed(*pk),
        r@.len() == 33,
{
    pk.serialize().to_vec()
}

/// Relies on `bitcoin::hashes::sha256::Hash::hash`: the 32-byte SHA-256
/// digest, a function of the input bytes alone.
#[verifier::external_body]
fn sha256_digest(data: &Vec<u8>) -> (r: Vec<u8>)
    ensures
        r@ =~= sha256_of(data@),
        r@.len() == 32,
{
    {
        let h = <bitcoin::hashes::sha256::Hash as bitcoin::hashes::Hash>::hash(data.as_slice());
        <bitcoin::hashes::sha256::Hash as bitcoin::hashes::Hash>::into_inner(h).to_vec()
    }
}

/// Relies on `bitcoin::hashes::ripemd160::Hash::hash`: the 20-byte
/// RIPEMD-160 digest, a function of the input bytes alone.
#[verifier::external_body]
fn ripemd160_digest(data: &Vec<u8>) -> (r: Vec<u8>)
    ensures
        r@ =~= ripemd160_of(data@),
        r@.len() == 20,
{
    {
        let h = <bitcoin::hashes::ripemd160::Hash as bitcoin::hashes::Hash>::hash(data.as_slice());
        <bitcoin::hashes::ripemd160::Hash as bitcoin::hashes::Hash>::into_inner(h).to_vec()
    }
}

/// Relies on `bitcoin::util::address::Address::from_str` and the address
/// payload: the 20-byte hashed public key of a pay-to-pubkey-hash address, a
/// function of the address string alone; `None` on any other string.
#[verifier::external_body]
pub(crate) fn parse_p2pkh_address(s: &str) -> (r: Option<Vec<u8>>)
    ensures
        r is Some <==> p2pkh_hash_of(s@) is Some,
        r is Some ==> r->0@ =~= p2pkh_hash_of(s@)->0 && r->0@.len() == 20,
{
    match s.parse::<Address>() {
        Ok(a) => match a.payload {
            Payload::PubkeyHash(h) => Some(<bitcoin::PubkeyHash as bitcoin::hashes::Hash>::into_inner(
                h,
            ).to_vec()),
            _ => None,
        },
        Err(_) => None,
    }
}

/// The fingerprint of a 32-byte secret key: RIPEMD-160 of SHA-256 of the
/// compressed public key encoding.
pub open spec fn fingerprint_of(sk: Seq<u8>) -> Seq<u8> {
    ripemd160_of(sha256_of(secp_pubkey_of(sk)))
}

/// The fingerprint of a key value, through its canonical 32-byte image.
pub open spec fn fingerprint_of_key(v: nat) -> Seq<u8> {
    fingerprint_of(key_bytes32(v))
}

/// Why a candidate has no fingerprint.
#[derive(Clone, Copy, PartialEq, Eq, Structural, Debug)]
pub enum DeriveError {
    /// The value is zero or at least the curve order: no such secret key
    /// exists. The candidate is skipped, not retried.
    InvalidScalar,
}

/// The curve order as a 256-bit value.
pub fn curve_order() -> (r: U256)
    ensures
        r.as_nat() == secp_order(),
{
    U256 {
        l0: 0xbfd2_5e8c_d036_4141,
        l1: 0xbaae_dce6_af48_a03b,
        l2: 0xffff_ffff_ffff_fffe,
        l3: 0xffff_ffff_ffff_ffff,
    }
}

/// One instance of the derivation pipeline. The fingerprint it computes
/// depends on the candidate alone, never on the instance.
pub struct DerivationPipeline {
    secp: SecpContext,
}

impl DerivationPipeline {
    pub fn new() -> DerivationPipeline {
        DerivationPipeline { secp: secp_context() }
    }

    /// Derives the 20-byte fingerprint of a candidate key value, or rejects
    /// the candidate as an invalid scalar; exactly the values strictly
    /// between zero and the curve order succeed.
    pub fn fingerprint(&self, candidate: &U256) -> (r: Result<Vec<u8>, DeriveError>)
        ensures
            r is Ok <==> valid_scalar(candidate.as_nat()),
            r is Ok ==> r->Ok_0@ == fingerprint_of_key(candidate.as_nat()) && r->Ok_0@.len() == 20,
            r is Err ==> r->Err_0 == DeriveError::InvalidScalar,
    {
        let zero = U256::zero();
        let order = curve_order();
        if candidate.equals(&zero) || !candidate.lt(&order) {
            return Err(DeriveError::InvalidScalar);
        }
        let bytes = candidate.to_be_bytes();
        let sk = match secret_key_from_bytes(bytes.as_slice()) {
            Some(sk) => sk,
            None => {
                return Err(DeriveError::InvalidScalar);
            },
        };
        let pk = public_key_of(&self.secp, &sk);
        let encoded = public_key_serialize(&pk);
        let sha = sha256_digest(&encoded);
        let fingerprint = ripemd160_digest(&sha);
        Ok(fingerprint)
    }
}

/// The derivation pipeline is deterministic: equal candidate values yield
/// equal fingerprints, on repeated calls and across independently
/// constructed pipeline instances alike.
pub proof fn lemma_derivation_deterministic(a: nat, b: nat)
    requires
        a == b,
    ensures
        fingerprint_of_key(a) == fingerprint_of_key(b),
{
}

} // verus!
