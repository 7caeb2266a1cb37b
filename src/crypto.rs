//! The cryptographic primitives the ledger relies on: SHA-256 digests,
//! hexadecimal text and Ed25519 signature checks.

use ed25519_dalek::Verifier;
use sha2::Digest;
use vstd::prelude::*;

verus! {

/// The SHA-256 digest of a byte string.
pub uninterp spec fn sha256_of(msg: Seq<u8>) -> [u8; 32];

/// Whether `sig` is a valid Ed25519 signature of `msg` under the public key `pk`.
pub uninterp spec fn signature_valid(pk: Seq<u8>, msg: Seq<u8>, sig: Seq<u8>) -> bool;

/// The public key that belongs to the Ed25519 secret key `sk`.
pub uninterp spec fn public_key_of(sk: Seq<u8>) -> Seq<u8>;

/// The Ed25519 signature of `msg` under the secret key `sk`.
pub uninterp spec fn signature_of(sk: Seq<u8>, msg: Seq<u8>) -> Seq<u8>;

/// The sixteen lower-case hexadecimal digits, in order.
pub open spec fn lower_digits() -> Seq<char> {
    seq!['0', '1', '2', '3', '4', '5', '6', '7', '8', '9', 'a', 'b', 'c', 'd', 'e', 'f']
}

/// The sixteen upper-case hexadecimal digits, in order.
pub open spec fn upper_digits() -> Seq<char> {
    seq!['0', '1', '2', '3', '4', '5', '6', '7', '8', '9', 'A', 'B', 'C', 'D', 'E', 'F']
}

/// Two digits of `digits` for each byte, the high half of the byte first.
pub open spec fn hex_with(digits: Seq<char>, b: Seq<u8>) -> Seq<char>
    decreases b.len(),
{
    if b.len() == 0 {
        Seq::empty()
    } else {
        let x = b.last();
        hex_with(digits, b.drop_last()) + seq![digits[x as int / 16], digits[x as int % 16]]
    }
}

pub open spec fn hex_lower(b: Seq<u8>) -> Seq<char> {
    hex_with(lower_digits(), b)
}

pub open spec fn hex_upper(b: Seq<u8>) -> Seq<char> {
    hex_with(upper_digits(), b)
}

/// Relies on sha2::Sha256::digest: the 32-byte SHA-256 digest of `msg`.
#[verifier::external_body]
pub fn compute_sha256_hash(msg: &[u8]) -> (r: [u8; 32])
    ensures
        r == sha256_of(msg@),
{
    let d = sha2::Sha256::digest(msg);
    let mut out = [0u8; 32];
    out.copy_from_slice(&d);
    out
}

/// Relies on hex::encode: two lower-case hexadecimal digits per byte.
#[verifier::external_body]
pub(crate) fn to_hex(b: &[u8]) -> (r: String)
    ensures
        r@ == hex_lower(b@),
{
    hex::encode(b)
}

/// Relies on hex::encode_upper: two upper-case hexadecimal digits per byte.
#[verifier::external_body]
pub(crate) fn to_hex_upper(b: &[u8]) -> (r: String)
    ensures
        r@ == hex_upper(b@),
{
    hex::encode_upper(b)
}

/// Relies on ed25519_dalek::VerifyingKey::from_bytes and its `Verifier::verify`:
/// whether `sig` signs `msg` under `pk`; a key that does not decode verifies nothing.
#[verifier::external_body]
pub(crate) fn verify_signature(pk: &[u8; 32], msg: &[u8], sig: &[u8; 64]) -> (r: bool)
    ensures
        r == signature_valid(pk@, msg@, sig@),
{
    match ed25519_dalek::VerifyingKey::from_bytes(pk) {
        Ok(key) => key.verify(msg, &ed25519_dalek::Signature::from_bytes(sig)).is_ok(),
        Err(_) => false,
    }
}

/// Relies on ed25519_dalek::SigningKey::from_bytes and verifying_key: the public key
/// of a 32-byte secret key.
#[verifier::external_body]
pub(crate) fn public_key(sk: &[u8; 32]) -> (r: [u8; 32])
    ensures
        r@ == public_key_of(sk@),
{
    ed25519_dalek::SigningKey::from_bytes(sk).verifying_key().to_bytes()
}

/// Relies on ed25519_dalek::SigningKey::sign: the deterministic Ed25519 signature
/// of `msg` under a 32-byte secret key.
#[verifier::external_body]
pub(crate) fn sign(sk: &[u8; 32], msg: &[u8]) -> (r: [u8; 64])
    ensures
        r@ == signature_of(sk@, msg@),
{
    ed25519_dalek::Signer::sign(&ed25519_dalek::SigningKey::from_bytes(sk), msg).to_bytes()
}

} // verus!
