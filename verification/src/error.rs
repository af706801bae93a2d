//! Errors of attestation verification and their messages.

use vstd::prelude::*;
use vstd::string::*;
use crate::text::{decimal, push_decimal};
use crate::chain::{chain_message, ChainError};

verus! {

/// Why an attestation document's content was rejected.
#[derive(Debug)]
pub enum ContentError {
    /// `module_id` is empty.
    EmptyModuleId,
    /// `timestamp` is zero.
    ZeroTimestamp,
    /// `digest` is not `"SHA384"`; holds the digest that was found.
    UnsupportedDigest(String),
    /// `cabundle` holds no certificate.
    EmptyCabundle,
    /// The number of PCRs is not in `1..=32`; holds that number.
    PcrCountOutOfRange(usize),
    /// A PCR index is above 31; holds the smallest such index.
    PcrIndexOutOfRange(u64),
    /// Every PCR value is all zero bytes (a debug-mode enclave).
    AllPcrsZero,
    /// `public_key` is present with a length outside `1..=1024`; holds the length.
    PublicKeyLength(usize),
    /// `user_data` is longer than 512 bytes; holds the length.
    UserDataTooLarge(usize),
    /// `nonce` is longer than 512 bytes; holds the length.
    NonceTooLarge(usize),
}

/// The mathematical content of a [`ContentError`].
pub enum ContentFault {
    EmptyModuleId,
    ZeroTimestamp,
    UnsupportedDigest(Seq<char>),
    EmptyCabundle,
    PcrCountOutOfRange(nat),
    PcrIndexOutOfRange(nat),
    AllPcrsZero,
    PublicKeyLength(nat),
    UserDataTooLarge(nat),
    NonceTooLarge(nat),
}

impl View for ContentError {
    type V = ContentFault;

    open spec fn view(&self) -> ContentFault {
        match self {
            ContentError::EmptyModuleId => ContentFault::EmptyModuleId,
            ContentError::ZeroTimestamp => ContentFault::ZeroTimestamp,
            ContentError::UnsupportedDigest(d) => ContentFault::UnsupportedDigest(d@),
            ContentError::EmptyCabundle => ContentFault::EmptyCabundle,
            ContentError::PcrCountOutOfRange(n) => ContentFault::PcrCountOutOfRange(*n as nat),
            ContentError::PcrIndexOutOfRange(i) => ContentFault::PcrIndexOutOfRange(*i as nat),
            ContentError::AllPcrsZero => ContentFault::AllPcrsZero,
            ContentError::PublicKeyLength(n) => ContentFault::PublicKeyLength(*n as nat),
            ContentError::UserDataTooLarge(n) => ContentFault::UserDataTooLarge(*n as nat),
            ContentError::NonceTooLarge(n) => ContentFault::NonceTooLarge(*n as nat),
        }
    }
}

/// The message that describes a content fault.
pub open spec fn content_message(f: ContentFault) -> Seq<char> {
    match f {
        ContentFault::EmptyModuleId => "module_id is empty"@,
        ContentFault::ZeroTimestamp => "timestamp is zero"@,
        ContentFault::UnsupportedDigest(d) =>
            "unsupported digest algorithm: '"@ + d + "' (expected 'SHA384')"@,
        ContentFault::EmptyCabundle => "cabundle is empty"@,
        ContentFault::PcrCountOutOfRange(n) =>
            "PCR count "@ + decimal(n) + " out of range (must be 1-32)"@,
        ContentFault::PcrIndexOutOfRange(i) =>
            "PCR index "@ + decimal(i) + " out of range (must be 0-31)"@,
        ContentFault::AllPcrsZero => "all PCRs are zero (Nitro debug mode)"@,
        ContentFault::PublicKeyLength(n) =>
            "public_key length "@ + decimal(n) + " out of range (1-1024)"@,
        ContentFault::UserDataTooLarge(n) =>
            "user_data length "@ + decimal(n) + " exceeds maximum (512)"@,
        ContentFault::NonceTooLarge(n) =>
            "nonce length "@ + decimal(n) + " exceeds maximum (512)"@,
    }
}

fn message_with_number(prefix: &str, n: u64, suffix: &str) -> (s: String)
    ensures
        s@ == prefix@ + decimal(n as nat) + suffix@,
{
    let mut s = String::from_str(prefix);
    push_decimal(&mut s, n);
    s.append(suffix);
    s
}

impl ContentError {
    /// The human-readable description of this error.
    pub fn message(&self) -> (s: String)
        ensures
            s@ == content_message(self@),
    {
        match self {
            ContentError::EmptyModuleId => String::from_str("module_id is empty"),
            ContentError::ZeroTimestamp => String::from_str("timestamp is zero"),
            ContentError::UnsupportedDigest(d) => {
                let mut s = String::from_str("unsupported digest algorithm: '");
                s.append(d.as_str());
                s.append("' (expected 'SHA384')");
                s
            },
            ContentError::EmptyCabundle => String::from_str("cabundle is empty"),
            ContentError::PcrCountOutOfRange(n) =>
                message_with_number("PCR count ", *n as u64, " out of range (must be 1-32)"),
            ContentError::PcrIndexOutOfRange(i) =>
                message_with_number("PCR index ", *i, " out of range (must be 0-31)"),
            ContentError::AllPcrsZero => String::from_str("all PCRs are zero (Nitro debug mode)"),
            ContentError::PublicKeyLength(n) =>
                message_with_number("public_key length ", *n as u64, " out of range (1-1024)"),
            ContentError::UserDataTooLarge(n) =>
                message_with_number("user_data length ", *n as u64, " exceeds maximum (512)"),
            ContentError::NonceTooLarge(n) =>
                message_with_number("nonce length ", *n as u64, " exceeds maximum (512)"),
        }
    }
}

/// Why the COSE signature of a report was rejected. Each variant holds the
/// description of the underlying `p384` error.
#[derive(Debug)]
pub enum SignatureError {
    /// The leaf certificate's public key is not a valid SEC1 P-384 point.
    InvalidLeafKey(String),
    /// The COSE signature is not a valid fixed-size P-384 ECDSA signature.
    InvalidSignature(String),
    /// The signature does not verify over the `Sig_structure`.
    VerificationFailed(String),
}

/// The mathematical content of a [`SignatureError`].
pub enum SignatureFault {
    InvalidLeafKey(Seq<char>),
    InvalidSignature(Seq<char>),
    VerificationFailed(Seq<char>),
}

impl View for SignatureError {
    type V = SignatureFault;

    open spec fn view(&self) -> SignatureFault {
        match self {
            SignatureError::InvalidLeafKey(d) => SignatureFault::InvalidLeafKey(d@),
            SignatureError::InvalidSignature(d) => SignatureFault::InvalidSignature(d@),
            SignatureError::VerificationFailed(d) => SignatureFault::VerificationFailed(d@),
        }
    }
}

/// The message that describes a signature fault: a phrase, `": "`, and the
/// underlying error's description.
pub open spec fn signature_message(f: SignatureFault) -> Seq<char> {
    match f {
        SignatureFault::InvalidLeafKey(d) => "invalid leaf public key: "@ + d,
        SignatureFault::InvalidSignature(d) => "invalid COSE signature: "@ + d,
        SignatureFault::VerificationFailed(d) => "COSE signature verification failed: "@ + d,
    }
}

impl SignatureError {
    /// The human-readable description of this error.
    pub fn message(&self) -> (s: String)
        ensures
            s@ == signature_message(self@),
    {
        let (phrase, detail) = match self {
            SignatureError::InvalidLeafKey(d) => ("invalid leaf public key: ", d),
            SignatureError::InvalidSignature(d) => ("invalid COSE signature: ", d),
            SignatureError::VerificationFailed(d) => ("COSE signature verification failed: ", d),
        };
        let mut s = String::from_str(phrase);
        s.append(detail.as_str());
        s
    }
}

/// Errors of attestation verification.
#[derive(Debug)]
pub enum VerifierError {
    /// The attestation report is not a `COSE_Sign1` message holding an
    /// attestation document.
    MalformedReport,
    /// The attestation document's content is out of bounds.
    ContentValidation(ContentError),
    /// The certificate chain was rejected.
    CertificateChain(ChainError),
    /// The COSE signature was rejected.
    SignatureVerification(SignatureError),
}

/// The message that describes a verifier error.
pub open spec fn verifier_message(e: VerifierError) -> Seq<char> {
    match e {
        VerifierError::MalformedReport => "malformed attestation report"@,
        VerifierError::ContentValidation(c) => content_message(c@),
        VerifierError::CertificateChain(c) => chain_message(c@),
        VerifierError::SignatureVerification(s) => signature_message(s@),
    }
}

/// Two errors of the same kind with the same content.
pub open spec fn same_error(a: VerifierError, b: VerifierError) -> bool {
    match (a, b) {
        (VerifierError::MalformedReport, VerifierError::MalformedReport) => true,
        (VerifierError::ContentValidation(x), VerifierError::ContentValidation(y)) => x@ == y@,
        (VerifierError::CertificateChain(x), VerifierError::CertificateChain(y)) => x@ == y@,
        (VerifierError::SignatureVerification(x), VerifierError::SignatureVerification(y)) => x@ == y@,
        _ => false,
    }
}

impl VerifierError {
    /// The human-readable description of this error.
    pub fn message(&self) -> (s: String)
        ensures
            s@ == verifier_message(*self),
    {
        match self {
            VerifierError::MalformedReport => String::from_str("malformed attestation report"),
            VerifierError::ContentValidation(c) => c.message(),
            VerifierError::CertificateChain(c) => c.message(),
            VerifierError::SignatureVerification(e) => e.message(),
        }
    }
}

} // verus!
