//! Verification of AWS Nitro Enclave attestation reports.
//!
//! The library decodes an attestation report (a CBOR `COSE_Sign1` message
//! holding the attestation document), checks the document's content,
//! validates its X.509 certificate chain at the document's timestamp,
//! verifies the ECDSA/P-384 signature over the COSE `Sig_structure` with the
//! leaf certificate's key, and assembles the journal of verified data.

pub mod ecdsa;
pub mod order;
pub mod text;
pub mod error;
pub mod document;
pub mod cose;
pub mod cbor;
pub mod attestation;
pub mod cert;
pub mod asn1time;
pub mod chain;
pub mod journal;
pub mod verify;
pub mod laws;
pub mod reading_laws;

pub use ecdsa::{P384_SCALAR_LEN, P384_SIGNATURE_LEN};
pub use error::{ContentError, SignatureError, VerifierError};
pub use document::AttestationDocument;
pub use cose::CoseSign1;
pub use chain::{ChainError, LinkFault, VerifiedChain};
pub use journal::{Pcr, VerificationResult, VerifierJournal};
pub use verify::{AttestationReport, AttestationVerifier, VerifierInput};
