//! Top-level attestation verification: decoding, content checks,
//! certificate chain validation, COSE signature verification against the
//! leaf certificate's key, and journal assembly.

use vstd::prelude::*;
use crate::attestation::{report_fields, report_holds};
use crate::chain::{chain_ders, chain_fault, info_at, seconds_of, verify_chain};
use crate::cose::{CoseSign1, sig_structure_encoding};
use crate::document::{
    AttestationDocument, content_fault, is_expected_digest, first_bad_pcr_index, every_pcr_zero, MAX_PCR_COUNT,
    MAX_PUBLIC_KEY_LEN, MAX_USER_DATA_LEN,
};
use crate::ecdsa::{
    decode_sec1_key, decode_signature, ecdsa_sha384_verify, is_p384_signature_encoding,
    p384_ecdsa_sha384_verifies, p384_error_text, p384_sec1_key_valid,
};
use crate::error::{ContentError, SignatureError, SignatureFault, VerifierError};
use crate::journal::{
    bytes_or_empty, is_journal_of, pcr_listing, VerificationResult,
    VerifierJournal,
};

verus! {

/// A parsed attestation report: the `COSE_Sign1` envelope and the
/// attestation document that is its payload.
#[derive(Debug)]
pub struct AttestationReport {
    pub cose: CoseSign1,
    pub doc: AttestationDocument,
}

/// The input of verification: how many certificates at the start of the
/// chain are trusted as they are, and the encoded attestation report.
#[allow(non_snake_case)]
#[derive(Debug)]
pub struct VerifierInput {
    pub trustedCertsPrefixLen: u8,
    pub attestationReport: Vec<u8>,
}

/// Attestation report verifier.
#[derive(Debug)]
pub struct AttestationVerifier;

/// The first reason, in the order in which they are checked, for which a
/// COSE signature is rejected; `None` when it verifies.
pub open spec fn signature_fault(leaf_key: Seq<u8>, message: Seq<u8>, signature: Seq<u8>) -> Option<
    SignatureFault,
> {
    if !p384_sec1_key_valid(leaf_key) {
        Some(SignatureFault::InvalidLeafKey(p384_error_text()))
    } else if !is_p384_signature_encoding(signature) {
        Some(SignatureFault::InvalidSignature(p384_error_text()))
    } else if !p384_ecdsa_sha384_verifies(leaf_key, message, signature) {
        Some(SignatureFault::VerificationFailed(p384_error_text()))
    } else {
        None
    }
}

/// The outcome of content validation as a `Result`.
pub open spec fn content_accepted(doc: AttestationDocument, r: Result<(), VerifierError>) -> bool {
    match content_fault(doc) {
        None => r is Ok,
        Some(f) => r matches Err(VerifierError::ContentValidation(e)) && e@ == f,
    }
}

/// What `verify` returns for trusted prefix length `prefix` and report
/// `report`.
pub open spec fn verify_outcome(
    prefix: u8,
    report: AttestationReport,
    r: Result<VerifierJournal, VerifierError>,
) -> bool {
    let ders = chain_ders(report.doc.cabundle@, report.doc.certificate@);
    match content_fault(report.doc) {
        Some(f) => r matches Err(VerifierError::ContentValidation(e)) && e@ == f,
        None => match chain_fault(ders, prefix as nat, seconds_of(report.doc.timestamp)) {
            Some(f) => r matches Err(VerifierError::CertificateChain(e)) && e@ == f,
            None => match signature_fault(
                info_at(ders, ders.len() - 1).key,
                sig_structure_encoding(report.cose.protected@, report.cose.payload@),
                report.cose.signature@,
            ) {
                Some(f) => r matches Err(VerifierError::SignatureVerification(e)) && e@ == f,
                None => r matches Ok(j) && is_journal_of(j, prefix, report.doc),
            },
        },
    }
}

/// What `verify` returns for `input`: the error for a report that does not
/// decode, and otherwise what `verify_report` returns for the decoded
/// report.
pub open spec fn input_outcome(input: VerifierInput, r: Result<VerifierJournal, VerifierError>) -> bool {
    match report_fields(input.attestationReport@) {
        None => r matches Err(VerifierError::MalformedReport),
        Some((h, p, g, f)) => exists|rep: AttestationReport|
            report_holds(rep, h, p, g, f) && #[trigger] verify_outcome(input.trustedCertsPrefixLen, rep, r),
    }
}

impl AttestationVerifier {
    /// Verifies an encoded attestation report end to end: decodes the
    /// `COSE_Sign1` envelope and the attestation document, then verifies
    /// the report as [`AttestationVerifier::verify_report`] does.
    pub fn verify(input: &VerifierInput) -> (r: Result<VerifierJournal, VerifierError>)
        ensures
            input_outcome(*input, r),
    {
        let report = AttestationReport::parse(input.attestationReport.as_slice())?;
        let ghost rep = report;
        let r = Self::verify_report(input.trustedCertsPrefixLen, report);
        assert(verify_outcome(input.trustedCertsPrefixLen, rep, r));
        r
    }

    /// Verifies a decoded attestation report.
    ///
    /// 1. Validates the attestation document's content.
    /// 2. Validates the certificate chain (`cabundle`, then the leaf
    ///    `certificate`), trusting its first `trusted_certs_prefix_len`
    ///    certificates, at the document's timestamp.
    /// 3. Verifies the COSE signature over the `Sig_structure` with the leaf
    ///    certificate's public key.
    /// 4. Builds the journal of verified data.
    pub fn verify_report(trusted_certs_prefix_len: u8, report: AttestationReport) -> (r: Result<
        VerifierJournal,
        VerifierError,
    >)
        ensures
            verify_outcome(trusted_certs_prefix_len, report, r),
    {
        Self::validate_attestation_content(&report.doc)?;
        let chain = match verify_chain(
            &report.doc.cabundle,
            report.doc.certificate.as_slice(),
            trusted_certs_prefix_len as usize,
            report.doc.timestamp,
        ) {
            Ok(c) => c,
            Err(e) => {
                return Err(VerifierError::CertificateChain(e));
            },
        };
        let sig_structure = report.cose.sig_structure();
        Self::verify_cose_signature(
            chain.leaf_public_key(),
            sig_structure.as_slice(),
            report.cose.signature.as_slice(),
        )?;
        let (certs, cert_expiries) = chain.into_parts();
        let pcrs = pcr_listing(&report.doc.pcrs);
        let user_data = Self::optional_bytes(&report.doc.user_data);
        let nonce = Self::optional_bytes(&report.doc.nonce);
        let public_key = Self::optional_bytes(&report.doc.public_key);
        let journal = VerifierJournal {
            result: VerificationResult::Success,
            trustedCertsPrefixLen: trusted_certs_prefix_len,
            timestamp: report.doc.timestamp,
            certs: certs,
            certExpiries: cert_expiries,
            userData: user_data,
            nonce: nonce,
            publicKey: public_key,
            pcrs: pcrs,
            moduleId: report.doc.module_id,
        };
        Ok(journal)
    }

    /// Verifies `signature` over `sig_structure` with the P-384 public key
    /// `leaf_key` (SEC1 encoding).
    pub fn verify_cose_signature(leaf_key: &[u8], sig_structure: &[u8], signature: &[u8]) -> (r:
        Result<(), VerifierError>)
        ensures
            match signature_fault(leaf_key@, sig_structure@, signature@) {
                None => r is Ok,
                Some(f) => r matches Err(VerifierError::SignatureVerification(e)) && e@ == f,
            },
    {
        if let Err(e) = decode_sec1_key(leaf_key) {
            return Err(VerifierError::SignatureVerification(SignatureError::InvalidLeafKey(e)));
        }
        if let Err(e) = decode_signature(signature) {
            return Err(VerifierError::SignatureVerification(SignatureError::InvalidSignature(e)));
        }
        if let Err(e) = ecdsa_sha384_verify(leaf_key, sig_structure, signature) {
            return Err(VerifierError::SignatureVerification(SignatureError::VerificationFailed(e)));
        }
        Ok(())
    }

    /// The bytes of an optional field, empty when it is absent.
    pub fn optional_bytes(opt: &Option<Vec<u8>>) -> (r: Vec<u8>)
        ensures
            r@ == bytes_or_empty(*opt),
    {
        match opt {
            Some(b) => {
                let mut out: Vec<u8> = Vec::new();
                let mut i: usize = 0;
                while i < b.len()
                    invariant
                        0 <= i <= b@.len(),
                        out@ == b@.take(i as int),
                    decreases b@.len() - i,
                {
                    out.push(b[i]);
                    i = i + 1;
                    assert(out@ =~= b@.take(i as int));
                }
                assert(b@.take(i as int) =~= b@);
                out
            },
            None => Vec::new(),
        }
    }

    /// Validates the content of an attestation document:
    /// - `module_id` is not empty;
    /// - `timestamp` is not zero;
    /// - `digest` is `"SHA384"`;
    /// - `cabundle` holds at least one certificate;
    /// - there are 1 to 32 PCRs, each with an index from 0 to 31;
    /// - not every PCR is all zero bytes (a debug-mode enclave);
    /// - `public_key` is absent or 1 to 1024 bytes long (present but empty is
    ///   rejected);
    /// - `user_data` and `nonce` are absent or at most 512 bytes long.
    ///
    /// The first bound broken, in this order, is the one reported.
    pub fn validate_attestation_content(doc: &AttestationDocument) -> (r: Result<(), VerifierError>)
        ensures
            content_accepted(*doc, r),
    {
        if doc.module_id.as_str().is_empty() {
            return Err(VerifierError::ContentValidation(ContentError::EmptyModuleId));
        }
        if doc.timestamp == 0 {
            return Err(VerifierError::ContentValidation(ContentError::ZeroTimestamp));
        }
        if !is_expected_digest(&doc.digest) {
            return Err(
                VerifierError::ContentValidation(ContentError::UnsupportedDigest(doc.digest.clone())),
            );
        }
        if doc.cabundle.len() == 0 {
            return Err(VerifierError::ContentValidation(ContentError::EmptyCabundle));
        }
        let pcr_count: usize = doc.pcrs.len();
        if pcr_count == 0 || pcr_count > MAX_PCR_COUNT {
            return Err(VerifierError::ContentValidation(ContentError::PcrCountOutOfRange(pcr_count)));
        }
        if let Some(index) = first_bad_pcr_index(&doc.pcrs) {
            return Err(VerifierError::ContentValidation(ContentError::PcrIndexOutOfRange(index)));
        }
        if every_pcr_zero(&doc.pcrs) {
            return Err(VerifierError::ContentValidation(ContentError::AllPcrsZero));
        }
        if let Some(pk) = &doc.public_key {
            if pk.len() == 0 || pk.len() > MAX_PUBLIC_KEY_LEN {
                return Err(VerifierError::ContentValidation(ContentError::PublicKeyLength(pk.len())));
            }
        }
        if let Some(ud) = &doc.user_data {
            if ud.len() > MAX_USER_DATA_LEN {
                return Err(VerifierError::ContentValidation(ContentError::UserDataTooLarge(ud.len())));
            }
        }
        if let Some(n) = &doc.nonce {
            if n.len() > MAX_USER_DATA_LEN {
                return Err(VerifierError::ContentValidation(ContentError::NonceTooLarge(n.len())));
            }
        }
        Ok(())
    }
}

} // verus!
