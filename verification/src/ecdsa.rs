//! ECDSA over NIST P-384 with SHA-384, as the `p384` crate computes it.
//!
//! Keys and signatures travel through the library as plain byte strings: a
//! SEC1-encoded public key and a fixed-size `r || s` signature.

use vstd::prelude::*;
use p384::ecdsa::signature::Verifier;

verus! {

/// Length in bytes of a fixed-size P-384 ECDSA signature (`r || s`).
pub const P384_SIGNATURE_LEN: usize = 96;

/// Length in bytes of one P-384 scalar.
pub const P384_SCALAR_LEN: usize = 48;

/// The order `n` of the P-384 base point.
pub open spec fn p384_order() -> nat {
    0xffffffffffffffffffffffffffffffffffffffffffffffffc7634d81f4372ddf581a0db248b0a77aecec196accc52973nat
}

/// The natural number that `bytes` denotes in big-endian order.
pub open spec fn be_nat(bytes: Seq<u8>) -> nat
    decreases bytes.len(),
{
    if bytes.len() == 0 {
        0
    } else {
        be_nat(bytes.drop_last()) * 256 + bytes.last() as nat
    }
}

/// A scalar in the range `1..n`, written as 48 big-endian bytes.
pub open spec fn is_nonzero_scalar(bytes: Seq<u8>) -> bool {
    &&& bytes.len() == P384_SCALAR_LEN
    &&& 0 < be_nat(bytes) < p384_order()
}

/// What `Signature::from_slice` accepts: exactly 96 bytes whose two halves
/// `r` and `s` are both scalars in `1..n`.
pub open spec fn is_p384_signature_encoding(bytes: Seq<u8>) -> bool {
    &&& bytes.len() == P384_SIGNATURE_LEN
    &&& is_nonzero_scalar(bytes.take(P384_SCALAR_LEN as int))
    &&& is_nonzero_scalar(bytes.skip(P384_SCALAR_LEN as int))
}

/// Whether `VerifyingKey::from_sec1_bytes` accepts these bytes: a SEC1 point
/// encoding of a point on P-384 other than the identity.
pub uninterp spec fn p384_sec1_key_valid(sec1: Seq<u8>) -> bool;

/// Whether ECDSA/P-384 verification with SHA-384 accepts `signature` over
/// `message` for the public key encoded by `sec1`.
pub uninterp spec fn p384_ecdsa_sha384_verifies(sec1: Seq<u8>, message: Seq<u8>, signature: Seq<u8>) -> bool;

/// The description that the `p384` ECDSA error gives of itself
/// (`signature::Error` made by `Error::new()`, with no source).
pub open spec fn p384_error_text() -> Seq<char> {
    "signature error"@
}

/// Calls `p384::ecdsa::VerifyingKey::from_sec1_bytes`. The contract claims
/// that it succeeds exactly when `p384_sec1_key_valid` holds of the bytes,
/// and that its error describes itself as `"signature error"` (the error is
/// built by `Error::new()`, whose `Display` writes that text).
#[verifier::external_body]
pub(crate) fn decode_sec1_key(sec1: &[u8]) -> (r: Result<(), String>)
    ensures
        r is Ok <==> p384_sec1_key_valid(sec1@),
        r matches Err(m) ==> m@ == p384_error_text(),
{
    match p384::ecdsa::VerifyingKey::from_sec1_bytes(sec1) {
        Ok(_) => Ok(()),
        Err(e) => Err(e.to_string()),
    }
}

/// Calls `p384::ecdsa::Signature::from_slice`. The contract states what the
/// `ecdsa` source does: the slice must be 96 bytes long and both 48-byte
/// halves must lie in `1..n`; its error describes itself as
/// `"signature error"`.
#[verifier::external_body]
pub(crate) fn decode_signature(bytes: &[u8]) -> (r: Result<(), String>)
    ensures
        r is Ok <==> is_p384_signature_encoding(bytes@),
        r matches Err(m) ==> m@ == p384_error_text(),
{
    match p384::ecdsa::Signature::from_slice(bytes) {
        Ok(_) => Ok(()),
        Err(e) => Err(e.to_string()),
    }
}

/// Calls `Verifier::verify` of `p384::ecdsa::VerifyingKey` (SHA-384 digest of
/// `message`, then ECDSA verification). The key and the signature are handed
/// in as the bytes they were decoded from; success is named
/// `p384_ecdsa_sha384_verifies` of those bytes and the message, and the
/// error describes itself as `"signature error"`.
#[verifier::external_body]
pub(crate) fn ecdsa_sha384_verify(sec1: &[u8], message: &[u8], signature: &[u8]) -> (r: Result<(), String>)
    requires
        p384_sec1_key_valid(sec1@),
        is_p384_signature_encoding(signature@),
    ensures
        r is Ok <==> p384_ecdsa_sha384_verifies(sec1@, message@, signature@),
        r matches Err(m) ==> m@ == p384_error_text(),
{
    match (p384::ecdsa::VerifyingKey::from_sec1_bytes(sec1), p384::ecdsa::Signature::from_slice(signature)) {
        (Ok(key), Ok(sig)) => match key.verify(message, &sig) {
            Ok(()) => Ok(()),
            Err(e) => Err(e.to_string()),
        },
        (Err(e), _) | (_, Err(e)) => Err(e.to_string()),
    }
}

} // verus!
