use std::collections::BTreeMap;

use nitro_attestation::chain::verify_chain;
use nitro_attestation::{
    AttestationDocument, AttestationReport, AttestationVerifier, ChainError, ContentError,
    CoseSign1, LinkFault, Pcr, SignatureError, VerificationResult, VerifierError, VerifierInput,
};
use p384::ecdsa::signature::Signer;
use p384::ecdsa::{Signature, SigningKey, VerifyingKey};

/// 2024-06-01T00:00:00Z in milliseconds.
const NOW_MS: u64 = 1_717_200_000_000;

/// A DER element with the given tag and contents.
fn der(tag: u8, content: &[u8]) -> Vec<u8> {
    let mut out = vec![tag];
    let n = content.len();
    if n < 0x80 {
        out.push(n as u8);
    } else if n < 0x100 {
        out.extend_from_slice(&[0x81, n as u8]);
    } else {
        out.extend_from_slice(&[0x82, (n >> 8) as u8, n as u8]);
    }
    out.extend_from_slice(content);
    out
}

fn cat(parts: &[Vec<u8>]) -> Vec<u8> {
    parts.concat()
}

fn ecdsa_sha384_alg() -> Vec<u8> {
    der(0x30, &der(0x06, &[0x2a, 0x86, 0x48, 0xce, 0x3d, 0x04, 0x03, 0x03]))
}

fn ec_p384_key_alg() -> Vec<u8> {
    der(
        0x30,
        &cat(&[
            der(0x06, &[0x2a, 0x86, 0x48, 0xce, 0x3d, 0x02, 0x01]),
            der(0x06, &[0x2b, 0x81, 0x04, 0x00, 0x22]),
        ]),
    )
}

fn name(cn: &str) -> Vec<u8> {
    der(0x30, &der(0x31, &der(0x30, &cat(&[der(0x06, &[0x55, 0x04, 0x03]), der(0x0c, cn.as_bytes())]))))
}

fn sec1(key: &SigningKey) -> Vec<u8> {
    VerifyingKey::from(key).to_encoded_point(false).as_bytes().to_vec()
}

/// DER INTEGER of a non-negative big-endian number.
fn der_uint(bytes: &[u8]) -> Vec<u8> {
    let mut v: Vec<u8> = bytes.iter().copied().skip_while(|b| *b == 0).collect();
    if v.is_empty() || v[0] >= 0x80 {
        v.insert(0, 0);
    }
    der(0x02, &v)
}

/// A UTCTime (13 characters) or GeneralizedTime (15 characters).
fn time(t: &str) -> Vec<u8> {
    der(if t.len() == 13 { 0x17 } else { 0x18 }, t.as_bytes())
}

/// A certificate for `subject_key`, named `subject`, issued by `issuer` and
/// signed with `signer`, valid from `not_before` to `not_after` (UTCTime).
fn certificate(
    issuer: &str,
    subject: &str,
    subject_key: &SigningKey,
    signer: &SigningKey,
    not_before: &str,
    not_after: &str,
) -> Vec<u8> {
    let mut bits = vec![0u8];
    bits.extend_from_slice(&sec1(subject_key));
    let tbs = der(
        0x30,
        &cat(&[
            der(0xa0, &der(0x02, &[0x02])),
            der(0x02, &[0x01, 0x90, 0x3a]),
            ecdsa_sha384_alg(),
            name(issuer),
            der(0x30, &cat(&[time(not_before), time(not_after)])),
            name(subject),
            der(0x30, &cat(&[ec_p384_key_alg(), der(0x03, &bits)])),
        ]),
    );
    let sig: Signature = signer.sign(&tbs);
    let (r, s) = sig.split_bytes();
    let sig_der = der(0x30, &cat(&[der_uint(&r), der_uint(&s)]));
    let mut sig_bits = vec![0u8];
    sig_bits.extend_from_slice(&sig_der);
    der(0x30, &cat(&[tbs, ecdsa_sha384_alg(), der(0x03, &sig_bits)]))
}

fn key(byte: u8) -> SigningKey {
    SigningKey::from_slice(&[byte; 48]).unwrap()
}

/// A root, an intermediate and a leaf (keys 1, 2, 3).
fn pki() -> (Vec<Vec<u8>>, Vec<u8>) {
    let root = certificate("root", "root", &key(1), &key(1), "191028142805Z", "491028142805Z");
    let mid = certificate("root", "mid", &key(2), &key(1), "230101000000Z", "300101000000Z");
    let leaf = certificate("mid", "leaf", &key(3), &key(2), "240101000000Z", "241130192248Z");
    (vec![root, mid], leaf)
}

fn doc_with_pcrs() -> AttestationDocument {
    let mut pcrs = BTreeMap::new();
    pcrs.insert(4, [4u8; 48]);
    pcrs.insert(0, [0u8; 48]);
    pcrs.insert(2, [2u8; 48]);
    let (cabundle, leaf) = pki();
    AttestationDocument {
        module_id: "i-0123-enc0456".into(),
        timestamp: NOW_MS,
        digest: "SHA384".into(),
        pcrs,
        certificate: leaf,
        cabundle,
        public_key: Some(vec![0x04; 65]),
        user_data: None,
        nonce: Some(vec![9, 8, 7]),
    }
}

/// A report whose COSE signature was made with `signer`.
fn signed_report(signer: &SigningKey, doc: AttestationDocument) -> AttestationReport {
    let mut cose = CoseSign1 {
        protected: vec![0xa1, 0x01, 0x38, 0x22],
        payload: vec![0xa9, 0x01, 0x02, 0x03],
        signature: Vec::new(),
    };
    let signature: Signature = signer.sign(&cose.sig_structure());
    cose.signature = signature.to_bytes().to_vec();
    AttestationReport { cose, doc }
}

/// A CBOR head of major type `major` with argument `n`, in shortest form.
fn cbor_head(major: u8, n: u64) -> Vec<u8> {
    let base = major << 5;
    if n < 24 {
        vec![base | n as u8]
    } else if n < 0x100 {
        vec![base | 24, n as u8]
    } else if n < 0x1_0000 {
        let mut v = vec![base | 25];
        v.extend_from_slice(&(n as u16).to_be_bytes());
        v
    } else if n < 0x1_0000_0000 {
        let mut v = vec![base | 26];
        v.extend_from_slice(&(n as u32).to_be_bytes());
        v
    } else {
        let mut v = vec![base | 27];
        v.extend_from_slice(&n.to_be_bytes());
        v
    }
}

fn cbor_bytes(b: &[u8]) -> Vec<u8> {
    let mut v = cbor_head(2, b.len() as u64);
    v.extend_from_slice(b);
    v
}

fn cbor_text(t: &str) -> Vec<u8> {
    let mut v = cbor_head(3, t.len() as u64);
    v.extend_from_slice(t.as_bytes());
    v
}

fn cbor_optional(o: &Option<Vec<u8>>) -> Vec<u8> {
    match o {
        Some(b) => cbor_bytes(b),
        None => vec![0xf6],
    }
}

/// The CBOR map of an attestation document, keys in the Nitro order.
fn encode_document(doc: &AttestationDocument) -> Vec<u8> {
    let mut v = cbor_head(5, 9);
    v.extend(cbor_text("module_id"));
    v.extend(cbor_text(&doc.module_id));
    v.extend(cbor_text("digest"));
    v.extend(cbor_text(&doc.digest));
    v.extend(cbor_text("timestamp"));
    v.extend(cbor_head(0, doc.timestamp));
    v.extend(cbor_text("pcrs"));
    v.extend(cbor_head(5, doc.pcrs.len() as u64));
    for (k, value) in &doc.pcrs {
        v.extend(cbor_head(0, *k));
        v.extend(cbor_bytes(value));
    }
    v.extend(cbor_text("certificate"));
    v.extend(cbor_bytes(&doc.certificate));
    v.extend(cbor_text("cabundle"));
    v.extend(cbor_head(4, doc.cabundle.len() as u64));
    for c in &doc.cabundle {
        v.extend(cbor_bytes(c));
    }
    v.extend(cbor_text("public_key"));
    v.extend(cbor_optional(&doc.public_key));
    v.extend(cbor_text("user_data"));
    v.extend(cbor_optional(&doc.user_data));
    v.extend(cbor_text("nonce"));
    v.extend(cbor_optional(&doc.nonce));
    v
}

/// A tagged `COSE_Sign1` message over the encoded `doc`, signed with `signer`.
fn encode_signed_report(signer: &SigningKey, doc: &AttestationDocument) -> Vec<u8> {
    let mut cose = CoseSign1 {
        protected: vec![0xa1, 0x01, 0x38, 0x22],
        payload: encode_document(doc),
        signature: Vec::new(),
    };
    let signature: Signature = signer.sign(&cose.sig_structure());
    cose.signature = signature.to_bytes().to_vec();
    let mut v = vec![0xd2, 0x84];
    v.extend(cbor_bytes(&cose.protected));
    v.push(0xa0);
    v.extend(cbor_bytes(&cose.payload));
    v.extend(cbor_bytes(&cose.signature));
    v
}

fn input(prefix: u8, bytes: Vec<u8>) -> VerifierInput {
    VerifierInput { trustedCertsPrefixLen: prefix, attestationReport: bytes }
}

fn signing_key() -> SigningKey {
    key(0x11)
}

fn signature_error(r: Result<(), VerifierError>) -> SignatureError {
    match r {
        Err(VerifierError::SignatureVerification(e)) => e,
        _ => panic!("expected a signature error"),
    }
}

fn chain_error(r: Result<nitro_attestation::VerifiedChain, ChainError>) -> ChainError {
    match r {
        Err(e) => e,
        Ok(_) => panic!("expected the chain to be rejected"),
    }
}

#[test]
fn sig_structure_is_cbor_signature1_array() {
    let cose = CoseSign1 {
        protected: vec![0xa1, 0x01, 0x38, 0x22],
        payload: vec![0x01, 0x02, 0x03],
        signature: vec![],
    };
    let mut expected = vec![0x84, 0x6a];
    expected.extend_from_slice(b"Signature1");
    expected.extend_from_slice(&[0x44, 0xa1, 0x01, 0x38, 0x22, 0x40, 0x43, 0x01, 0x02, 0x03]);
    assert_eq!(cose.sig_structure(), expected);
}

#[test]
fn sig_structure_uses_long_length_heads() {
    let cose = CoseSign1 {
        protected: vec![0u8; 24],
        payload: vec![7u8; 300],
        signature: vec![],
    };
    let out = cose.sig_structure();
    assert_eq!(&out[..12], &[0x84, 0x6a, b'S', b'i', b'g', b'n', b'a', b't', b'u', b'r', b'e', b'1']);
    assert_eq!(&out[12..14], &[0x58, 24]);
    assert_eq!(out[14 + 24], 0x40);
    assert_eq!(&out[15 + 24..18 + 24], &[0x59, 0x01, 0x2c]);
    assert_eq!(out.len(), 18 + 24 + 300);
    let cose = CoseSign1 { protected: vec![], payload: vec![1u8; 70000], signature: vec![] };
    let out = cose.sig_structure();
    assert_eq!(&out[12..14], &[0x40, 0x40]);
    assert_eq!(&out[14..19], &[0x5a, 0x00, 0x01, 0x11, 0x70]);
}

#[test]
fn verify_builds_journal_of_signed_report() {
    let report = signed_report(&key(3), doc_with_pcrs());
    let (cabundle, leaf) = pki();
    let journal = AttestationVerifier::verify_report(1, report).unwrap();
    assert_eq!(journal.result, VerificationResult::Success);
    assert_eq!(journal.trustedCertsPrefixLen, 1);
    assert_eq!(journal.timestamp, NOW_MS);
    assert_eq!(journal.moduleId, "i-0123-enc0456");
    assert_eq!(journal.certs.len(), 3);
    assert_eq!(journal.certExpiries.len(), journal.certs.len());
    // Root notAfter: 2049-10-28T14:28:05Z; leaf notAfter: 2024-11-30T19:22:48Z.
    assert_eq!(journal.certExpiries[0], 2519044085);
    assert_eq!(journal.certExpiries[2], 1732994568);
    assert_eq!(journal.certs[0], alloy_primitives::keccak256(&cabundle[0]).0);
    assert_eq!(journal.certs[2], alloy_primitives::keccak256(&leaf).0);
    assert!(journal.userData.is_empty());
    assert_eq!(journal.nonce, vec![9, 8, 7]);
    assert_eq!(journal.publicKey, vec![0x04; 65]);
    let indices: Vec<u64> = journal.pcrs.iter().map(|p: &Pcr| p.index).collect();
    assert_eq!(indices, vec![0, 2, 4]);
    assert_eq!(journal.pcrs[2].value, [4u8; 48]);
}

#[test]
fn verify_with_zero_trusted_prefix() {
    let bytes = encode_signed_report(&key(3), &doc_with_pcrs());
    let journal = AttestationVerifier::verify(&input(0, bytes)).unwrap();
    assert_eq!(journal.result, VerificationResult::Success);
    assert_eq!(journal.trustedCertsPrefixLen, 0);
}

#[test]
fn corrupted_attestation_rejected() {
    let err = AttestationVerifier::verify(&input(0, vec![0xDE, 0xAD])).unwrap_err();
    assert!(matches!(err, VerifierError::MalformedReport));
    assert_eq!(err.message(), "malformed attestation report");
}

#[test]
fn unreadable_leaf_certificate_rejected() {
    let mut doc = doc_with_pcrs();
    doc.certificate = vec![0xDE, 0xAD];
    let err = AttestationVerifier::verify_report(0, signed_report(&key(3), doc)).unwrap_err();
    assert!(matches!(err, VerifierError::CertificateChain(ChainError::MalformedCertificate(2))));
    assert_eq!(err.message(), "certificate 2 is malformed");
}

#[test]
fn verify_rejects_signature_by_other_key() {
    let report = signed_report(&key(9), doc_with_pcrs());
    match AttestationVerifier::verify_report(1, report) {
        Err(VerifierError::SignatureVerification(SignatureError::VerificationFailed(_))) => {},
        _ => panic!("expected the signature to be rejected"),
    }
}

#[test]
fn verify_rejects_tampered_payload() {
    let mut report = signed_report(&key(3), doc_with_pcrs());
    report.cose.payload.push(0);
    let err = AttestationVerifier::verify_report(1, report).unwrap_err();
    assert_eq!(err.message(), "COSE signature verification failed: signature error");
}

#[test]
fn verify_reports_content_error_before_chain_error() {
    let mut doc = doc_with_pcrs();
    doc.timestamp = 0;
    doc.certificate = vec![0x30];
    match AttestationVerifier::verify_report(1, signed_report(&key(3), doc)) {
        Err(VerifierError::ContentValidation(ContentError::ZeroTimestamp)) => {},
        _ => panic!("expected a content error"),
    }
}

#[test]
fn verify_rejects_expired_leaf() {
    let mut doc = doc_with_pcrs();
    doc.timestamp = 1_735_689_600_000; // 2025-01-01
    let err = AttestationVerifier::verify_report(1, signed_report(&key(3), doc)).unwrap_err();
    assert!(matches!(err, VerifierError::CertificateChain(ChainError::Link(2, LinkFault::Expired))));
    assert_eq!(err.message(), "certificate 2: expired");
}

#[test]
fn chain_time_boundaries_are_inclusive() {
    let (cabundle, leaf) = pki();
    // The leaf's notAfter is 1732994568 s.
    assert!(verify_chain(&cabundle, &leaf, 1, 1_732_994_568_999).is_ok());
    let e = chain_error(verify_chain(&cabundle, &leaf, 1, 1_732_994_569_000));
    assert!(matches!(e, ChainError::Link(2, LinkFault::Expired)));
    // The leaf's notBefore is 2024-01-01T00:00:00Z = 1704067200 s.
    assert!(verify_chain(&cabundle, &leaf, 1, 1_704_067_200_000).is_ok());
    let e = chain_error(verify_chain(&cabundle, &leaf, 1, 1_704_067_199_999));
    assert!(matches!(e, ChainError::Link(2, LinkFault::NotYetValid)));
}

#[test]
fn chain_rejects_wrong_issuer_signature() {
    let root = certificate("root", "root", &key(1), &key(1), "191028142805Z", "491028142805Z");
    let mid = certificate("root", "mid", &key(2), &key(7), "230101000000Z", "300101000000Z");
    let leaf = certificate("mid", "leaf", &key(3), &key(2), "240101000000Z", "241130192248Z");
    let e = chain_error(verify_chain(&vec![root, mid], &leaf, 1, NOW_MS));
    assert!(matches!(e, ChainError::Link(1, LinkFault::SignatureMismatch)));
    assert_eq!(e.message(), "certificate 1: signature does not verify");
}

#[test]
fn chain_rejects_issuer_name_mismatch() {
    let root = certificate("root", "root", &key(1), &key(1), "191028142805Z", "491028142805Z");
    let mid = certificate("other", "mid", &key(2), &key(1), "230101000000Z", "300101000000Z");
    let leaf = certificate("mid", "leaf", &key(3), &key(2), "240101000000Z", "241130192248Z");
    let e = chain_error(verify_chain(&vec![root, mid], &leaf, 1, NOW_MS));
    assert!(matches!(e, ChainError::Link(1, LinkFault::IssuerMismatch)));
}

#[test]
fn trusted_prefix_skips_checks_of_trusted_certificates() {
    // The root's self-signature is made with the wrong key.
    let root = certificate("root", "root", &key(1), &key(5), "191028142805Z", "491028142805Z");
    let mid = certificate("root", "mid", &key(2), &key(1), "230101000000Z", "300101000000Z");
    let leaf = certificate("mid", "leaf", &key(3), &key(2), "240101000000Z", "241130192248Z");
    let cabundle = vec![root, mid];
    assert!(verify_chain(&cabundle, &leaf, 1, NOW_MS).is_ok());
    let e = chain_error(verify_chain(&cabundle, &leaf, 0, NOW_MS));
    assert!(matches!(e, ChainError::Link(0, LinkFault::SignatureMismatch)));
    assert!(verify_chain(&cabundle, &leaf, 3, NOW_MS).is_ok());
    let e = chain_error(verify_chain(&cabundle, &leaf, 4, NOW_MS));
    assert!(matches!(e, ChainError::TrustedPrefixTooLong(4)));
    assert_eq!(e.message(), "trusted prefix length 4 exceeds the chain length");
}

#[test]
fn chain_rejects_non_minimal_length() {
    let (cabundle, leaf) = pki();
    // Re-encode the leaf's outer length in a longer form than needed.
    let content = &leaf[4..];
    assert_eq!(leaf[1], 0x82);
    let mut padded = vec![0x30, 0x83, 0x00, leaf[2], leaf[3]];
    padded.extend_from_slice(content);
    let e = chain_error(verify_chain(&cabundle, &padded, 1, NOW_MS));
    assert!(matches!(e, ChainError::MalformedCertificate(2)));
}

#[test]
fn chain_rejects_other_key_algorithm() {
    let (cabundle, mut leaf) = pki();
    let oid = [0x2b, 0x81, 0x04, 0x00, 0x22];
    let at = leaf.windows(5).position(|w| w == oid).unwrap();
    leaf[at + 4] = 0x23; // secp521r1
    let e = chain_error(verify_chain(&cabundle, &leaf, 1, NOW_MS));
    assert!(matches!(e, ChainError::MalformedCertificate(2)));
}

#[test]
fn generalized_time_is_read() {
    let root = certificate("root", "root", &key(1), &key(1), "191028142805Z", "491028142805Z");
    let mid = certificate("root", "mid", &key(2), &key(1), "20230101000000Z", "20300101000000Z");
    let leaf = certificate("mid", "leaf", &key(3), &key(2), "240101000000Z", "241130192248Z");
    let chain = verify_chain(&vec![root, mid], &leaf, 0, NOW_MS).unwrap();
    let (certs, expiries) = chain.into_parts();
    assert_eq!(certs.len(), 3);
    // 2030-01-01T00:00:00Z
    assert_eq!(expiries, vec![2519044085, 1893456000, 1732994568]);
}

#[test]
fn invalid_dates_are_malformed() {
    let root = certificate("root", "root", &key(1), &key(1), "191028142805Z", "491028142805Z");
    let leaf = certificate("root", "leaf", &key(3), &key(1), "240230000000Z", "241130192248Z");
    let e = chain_error(verify_chain(&vec![root.clone()], &leaf, 1, NOW_MS));
    assert!(matches!(e, ChainError::MalformedCertificate(1)));
    // 2024 is a leap year: February 29 reads.
    let leaf = certificate("root", "leaf", &key(3), &key(1), "240229000000Z", "241130192248Z");
    assert!(verify_chain(&vec![root.clone()], &leaf, 1, NOW_MS).is_ok());
    // Before 1970 is not read.
    let leaf = certificate("root", "leaf", &key(3), &key(1), "600101000000Z", "241130192248Z");
    let e = chain_error(verify_chain(&vec![root], &leaf, 1, NOW_MS));
    assert!(matches!(e, ChainError::MalformedCertificate(1)));
}

#[test]
fn optional_bytes_defaults_to_empty() {
    assert!(AttestationVerifier::optional_bytes(&None).is_empty());
    assert_eq!(AttestationVerifier::optional_bytes(&Some(vec![1, 2, 3])), vec![1, 2, 3]);
    assert!(AttestationVerifier::optional_bytes(&Some(vec![])).is_empty());
}

#[test]
fn journal_lists_every_pcr_in_index_order() {
    let mut doc = doc_with_pcrs();
    doc.pcrs.insert(31, [31u8; 48]);
    doc.pcrs.insert(17, [17u8; 48]);
    let journal = AttestationVerifier::verify_report(1, signed_report(&key(3), doc)).unwrap();
    let listed: Vec<(u64, u8)> = journal.pcrs.iter().map(|p: &Pcr| (p.index, p.value[0])).collect();
    assert_eq!(listed, vec![(0, 0), (2, 2), (4, 4), (17, 17), (31, 31)]);
}

#[test]
fn cose_signature_checks_key_then_signature() {
    let key = signing_key();
    let msg = b"message".to_vec();
    let sig: Signature = key.sign(&msg);
    let sig = sig.to_bytes().to_vec();
    assert!(AttestationVerifier::verify_cose_signature(&sec1(&key), &msg, &sig).is_ok());
    let compressed = VerifyingKey::from(&key).to_encoded_point(true).as_bytes().to_vec();
    assert!(AttestationVerifier::verify_cose_signature(&compressed, &msg, &sig).is_ok());

    let bad_key = vec![0x04; 97];
    let e = signature_error(AttestationVerifier::verify_cose_signature(&bad_key, &msg, &[0u8; 3]));
    assert!(matches!(e, SignatureError::InvalidLeafKey(_)));
    assert_eq!(e.message(), "invalid leaf public key: signature error");

    let e = signature_error(AttestationVerifier::verify_cose_signature(&sec1(&key), &msg, &sig[..95]));
    assert!(matches!(e, SignatureError::InvalidSignature(_)));

    let mut zero_r = sig.clone();
    for b in zero_r.iter_mut().take(48) {
        *b = 0;
    }
    let e = signature_error(AttestationVerifier::verify_cose_signature(&sec1(&key), &msg, &zero_r));
    assert!(matches!(e, SignatureError::InvalidSignature(_)));

    let mut huge_s = sig.clone();
    for b in huge_s.iter_mut().skip(48) {
        *b = 0xff;
    }
    let e = signature_error(AttestationVerifier::verify_cose_signature(&sec1(&key), &msg, &huge_s));
    assert!(matches!(e, SignatureError::InvalidSignature(_)));

    let e = signature_error(AttestationVerifier::verify_cose_signature(&sec1(&key), b"other", &sig));
    assert!(matches!(e, SignatureError::VerificationFailed(_)));
    assert_eq!(e.message(), "COSE signature verification failed: signature error");
}


#[test]
fn empty_key_error_keeps_underlying_description() {
    let r = AttestationVerifier::verify_cose_signature(&[], &[], &[0u8; 96]);
    let err = r.unwrap_err();
    assert!(err.message().starts_with("invalid leaf public key: "));
    assert_eq!(err.message(), "invalid leaf public key: signature error");
}

#[test]
fn short_signature_message_keeps_underlying_description() {
    let key = signing_key();
    let e = signature_error(AttestationVerifier::verify_cose_signature(&sec1(&key), b"m", &[1u8; 10]));
    assert_eq!(e.message(), "invalid COSE signature: signature error");
}

#[test]
fn leaf_key_is_taken_from_verified_chain() {
    let (cabundle, leaf) = pki();
    let chain = verify_chain(&cabundle, &leaf, 1, NOW_MS).unwrap();
    assert_eq!(chain.leaf_public_key(), &sec1(&key(3))[..]);
}

#[test]
fn leaf_key_with_unused_bits_is_malformed() {
    let (cabundle, mut leaf) = pki();
    let spot = leaf.windows(3).position(|w| w == [0x03, 0x62, 0x00]).unwrap();
    leaf[spot + 2] = 1;
    let e = chain_error(verify_chain(&cabundle, &leaf, 1, NOW_MS));
    assert!(matches!(e, ChainError::MalformedCertificate(2)));
    assert_eq!(e.message(), "certificate 2 is malformed");
}

#[test]
fn truncated_leaf_is_malformed() {
    let (cabundle, leaf) = pki();
    let e = chain_error(verify_chain(&cabundle, &leaf[..leaf.len() - 1], 1, NOW_MS));
    assert!(matches!(e, ChainError::MalformedCertificate(2)));
    let e = chain_error(verify_chain(&cabundle, &[], 1, NOW_MS));
    assert!(matches!(e, ChainError::MalformedCertificate(2)));
}

/// A five-certificate chain in the shape of a Nitro chain: a root, three
/// intermediates and a leaf (keys 1 to 5), with the Nitro root's and a
/// Nitro leaf's validity periods.
fn nitro_shaped_document() -> AttestationDocument {
    let root = certificate("aws.nitro-enclaves", "aws.nitro-enclaves", &key(1), &key(1), "191028132805Z", "491028142805Z");
    let zone = certificate("aws.nitro-enclaves", "zone", &key(2), &key(1), "241126000000Z", "241216000000Z");
    let region = certificate("zone", "region", &key(3), &key(2), "241128000000Z", "241204000000Z");
    let host = certificate("region", "host", &key(4), &key(3), "241130000000Z", "241201000000Z");
    let leaf = certificate("host", "leaf", &key(5), &key(4), "241130161948Z", "241130192248Z");
    let mut pcrs = BTreeMap::new();
    for i in 0..16u64 {
        pcrs.insert(i, [i as u8 + 1; 48]);
    }
    let doc = AttestationDocument {
        module_id: "i-0de38b2b6853cc9e8-enc0193685e7fee7d85".into(),
        timestamp: 0x000001937de1c543,
        digest: "SHA384".into(),
        pcrs,
        certificate: leaf,
        cabundle: vec![root, zone, region, host],
        public_key: Some(vec![0x04; 97]),
        user_data: None,
        nonce: None,
    };
    doc
}

#[test]
fn verify_full_attestation_report() {
    let bytes = encode_signed_report(&key(5), &nitro_shaped_document());
    let journal = AttestationVerifier::verify(&input(1, bytes)).unwrap();
    assert_eq!(journal.result, VerificationResult::Success);
    assert_eq!(journal.trustedCertsPrefixLen, 1);
    assert_eq!(journal.timestamp, 0x000001937de1c543);
    assert_eq!(journal.moduleId, "i-0de38b2b6853cc9e8-enc0193685e7fee7d85");
    assert_eq!(journal.certs.len(), 5);
    assert_eq!(journal.certExpiries.len(), journal.certs.len());
    // Root CA notAfter: 2049-10-28T14:28:05Z
    assert_eq!(journal.certExpiries[0], 2519044085);
    // Leaf notAfter: 2024-11-30T19:22:48Z
    assert_eq!(journal.certExpiries[4], 1732994568);
    assert_eq!(journal.pcrs.len(), 16);
    assert!(journal.userData.is_empty());
    assert!(journal.nonce.is_empty());
    assert!(!journal.publicKey.is_empty());
}

#[test]
fn verifies_attestation_on_host() {
    let bytes = encode_signed_report(&key(5), &nitro_shaped_document());
    let journal = AttestationVerifier::verify(&input(1, bytes))
        .expect("host verifier should accept the Nitro attestation");
    assert_eq!(journal.result, VerificationResult::Success);
}

#[test]
fn parse_reads_envelope_and_document() {
    let doc = doc_with_pcrs();
    let bytes = encode_signed_report(&key(3), &doc);
    let report = AttestationReport::parse(&bytes).unwrap();
    assert_eq!(report.cose.protected, vec![0xa1, 0x01, 0x38, 0x22]);
    assert_eq!(report.cose.payload, encode_document(&doc));
    assert_eq!(report.cose.signature.len(), 96);
    assert_eq!(report.doc.module_id, doc.module_id);
    assert_eq!(report.doc.digest, "SHA384");
    assert_eq!(report.doc.timestamp, NOW_MS);
    assert_eq!(report.doc.pcrs, doc.pcrs);
    assert_eq!(report.doc.certificate, doc.certificate);
    assert_eq!(report.doc.cabundle, doc.cabundle);
    assert_eq!(report.doc.public_key, Some(vec![0x04; 65]));
    assert_eq!(report.doc.user_data, None);
    assert_eq!(report.doc.nonce, Some(vec![9, 8, 7]));
}

#[test]
fn parse_accepts_untagged_envelope() {
    let bytes = encode_signed_report(&key(3), &doc_with_pcrs());
    assert!(AttestationReport::parse(&bytes[1..]).is_ok());
}

#[test]
fn parse_rejects_trailing_bytes_and_truncation() {
    let mut bytes = encode_signed_report(&key(3), &doc_with_pcrs());
    assert!(AttestationReport::parse(&bytes[..bytes.len() - 1]).is_err());
    bytes.push(0);
    assert!(matches!(AttestationReport::parse(&bytes), Err(VerifierError::MalformedReport)));
    assert!(AttestationReport::parse(&[]).is_err());
}

#[test]
fn parse_skips_unprotected_header() {
    let bytes = encode_signed_report(&key(3), &doc_with_pcrs());
    let at = bytes.iter().position(|b| *b == 0xa0).unwrap();
    let splice = |header: &[u8]| {
        let mut changed = bytes[..at].to_vec();
        changed.extend_from_slice(header);
        changed.extend_from_slice(&bytes[at + 1..]);
        changed
    };
    // {4: h'01', "x": [1, -2, null, 1.5, 18(h'')]}
    let header = [
        0xa2, 0x04, 0x41, 0x01, 0x61, b'x', 0x85, 0x01, 0x21, 0xf6, 0xf9, 0x3e, 0x00, 0xd2, 0x40,
    ];
    let report = AttestationReport::parse(&splice(&header)).unwrap();
    assert_eq!(report.cose.protected, vec![0xa1, 0x01, 0x38, 0x22]);
    assert!(AttestationVerifier::verify(&input(1, splice(&header))).is_ok());
    // A header that is not a map, or a map cut short, is refused.
    assert!(AttestationReport::parse(&splice(&[0x80])).is_err());
    assert!(AttestationReport::parse(&splice(&[0xa1, 0x01])).is_err());
    // An indefinite-length item is not read.
    assert!(AttestationReport::parse(&splice(&[0xa1, 0x01, 0x9f, 0xff])).is_err());
}

#[test]
fn parse_limits_header_nesting() {
    let bytes = encode_signed_report(&key(3), &doc_with_pcrs());
    let at = bytes.iter().position(|b| *b == 0xa0).unwrap();
    let nested = |depth: usize| {
        // A map holding one entry whose value is `depth - 1` nested arrays.
        let mut header = vec![0xa1, 0x01];
        header.extend(std::iter::repeat(0x81).take(depth - 1));
        header.push(0x00);
        let mut changed = bytes[..at].to_vec();
        changed.extend_from_slice(&header);
        changed.extend_from_slice(&bytes[at + 1..]);
        changed
    };
    assert!(AttestationReport::parse(&nested(128)).is_ok());
    assert!(AttestationReport::parse(&nested(129)).is_err());
}

/// Wraps an encoded document in an unsigned tagged envelope.
fn envelope(payload: &[u8]) -> Vec<u8> {
    let mut v = vec![0xd2, 0x84, 0x40, 0xa0];
    v.extend(cbor_bytes(payload));
    v.extend(cbor_bytes(&[]));
    v
}

#[test]
fn document_optional_entries_may_be_absent() {
    let mut doc = doc_with_pcrs();
    doc.public_key = None;
    doc.nonce = None;
    let full = encode_document(&doc);
    // Drop the trailing `public_key`, `user_data` and `nonce` entries.
    let tail = [cbor_text("public_key"), vec![0xf6], cbor_text("user_data"), vec![0xf6], cbor_text("nonce"), vec![0xf6]].concat();
    let mut short = full[..full.len() - tail.len()].to_vec();
    short[0] = 0xa6;
    let report = AttestationReport::parse(&envelope(&short)).unwrap();
    assert_eq!(report.doc.public_key, None);
    assert_eq!(report.doc.user_data, None);
    assert_eq!(report.doc.nonce, None);
    // The entry count must match the entries present.
    short[0] = 0xa9;
    assert!(AttestationReport::parse(&envelope(&short)).is_err());
}

#[test]
fn document_keys_in_any_order_are_read() {
    let doc = doc_with_pcrs();
    let mut v = cbor_head(5, 9);
    v.extend(cbor_text("digest"));
    v.extend(cbor_text("SHA384"));
    v.extend(cbor_text("module_id"));
    v.extend(cbor_text(&doc.module_id));
    let full = encode_document(&doc);
    let rest_at = 1 + cbor_text("module_id").len() + cbor_text(&doc.module_id).len()
        + cbor_text("digest").len() + cbor_text("SHA384").len();
    v.extend_from_slice(&full[rest_at..]);
    assert_eq!(v.len(), full.len());
    let report = AttestationReport::parse(&envelope(&v)).unwrap();
    assert_eq!(report.doc.module_id, doc.module_id);
    assert_eq!(report.doc.digest, "SHA384");
    assert_eq!(report.doc.pcrs, doc.pcrs);
}

#[test]
fn document_repeated_or_missing_keys_are_refused() {
    let doc = doc_with_pcrs();
    let full = encode_document(&doc);
    // A tenth entry repeating `digest`.
    let mut repeated = full.clone();
    repeated[0] = 0xaa;
    repeated.extend(cbor_text("digest"));
    repeated.extend(cbor_text("SHA384"));
    assert!(AttestationReport::parse(&envelope(&repeated)).is_err());
    // A tenth and eleventh entry with keys the document does not have are
    // skipped; one whose value is cut short, or whose key is no text, is not.
    let mut unknown = full.clone();
    unknown[0] = 0xab;
    unknown.extend(cbor_text("extra"));
    unknown.extend_from_slice(&[0x82, 0x01, 0xa1, 0x02, 0x40]);
    unknown.extend(cbor_text("extra"));
    unknown.extend(cbor_bytes(&[1]));
    let report = AttestationReport::parse(&envelope(&unknown)).unwrap();
    assert_eq!(report.doc.module_id, doc.module_id);
    let mut cut = full.clone();
    cut[0] = 0xaa;
    cut.extend(cbor_text("extra"));
    cut.extend_from_slice(&[0x82, 0x01]);
    assert!(AttestationReport::parse(&envelope(&cut)).is_err());
    let mut int_key = full.clone();
    int_key[0] = 0xaa;
    int_key.extend_from_slice(&[0x01, 0x02]);
    assert!(AttestationReport::parse(&envelope(&int_key)).is_err());
    // The required `module_id` left out.
    let skip = cbor_text("module_id").len() + cbor_text(&doc.module_id).len();
    let mut missing = cbor_head(5, 8);
    missing.extend_from_slice(&full[1 + skip..]);
    assert!(AttestationReport::parse(&envelope(&missing)).is_err());
    // Present, it reads.
    let mut present = cbor_head(5, 9);
    present.extend_from_slice(&full[1..]);
    assert!(AttestationReport::parse(&envelope(&present)).is_ok());
}

#[test]
fn document_repeated_pcr_index_is_refused() {
    let mut doc = doc_with_pcrs();
    doc.pcrs.clear();
    doc.pcrs.insert(1, [1u8; 48]);
    doc.pcrs.insert(2, [2u8; 48]);
    let mut bytes = encode_document(&doc);
    assert!(AttestationReport::parse(&envelope(&bytes)).is_ok());
    // Turn the key of the second PCR (2) into 1.
    let second = [vec![0x02], cbor_bytes(&[2u8; 48])].concat();
    let at = bytes.windows(second.len()).position(|w| w == &second[..]).unwrap();
    bytes[at] = 0x01;
    assert!(AttestationReport::parse(&envelope(&bytes)).is_err());
}

#[test]
fn document_pcr_value_must_be_48_bytes() {
    let mut doc = doc_with_pcrs();
    doc.pcrs.clear();
    let mut v = cbor_head(5, 9);
    v.extend(cbor_text("module_id"));
    v.extend(cbor_text(&doc.module_id));
    v.extend(cbor_text("digest"));
    v.extend(cbor_text("SHA384"));
    v.extend(cbor_text("timestamp"));
    v.extend(cbor_head(0, 7));
    v.extend(cbor_text("pcrs"));
    v.extend(cbor_head(5, 1));
    v.extend(cbor_head(0, 0));
    v.extend(cbor_bytes(&[5u8; 32]));
    let rest = encode_document(&doc);
    let at = rest.windows(cbor_text("certificate").len()).position(|w| w == &cbor_text("certificate")[..]).unwrap();
    v.extend_from_slice(&rest[at..]);
    assert!(AttestationReport::parse(&envelope(&v)).is_err());
}

#[test]
fn document_text_must_be_utf8() {
    let mut doc = doc_with_pcrs();
    doc.module_id = "ab".into();
    let mut bytes = encode_document(&doc);
    let key = cbor_text("module_id");
    let at = bytes.windows(key.len()).position(|w| w == &key[..]).unwrap() + key.len();
    assert_eq!(bytes[at], 0x62);
    bytes[at + 1] = 0xff;
    assert!(AttestationReport::parse(&envelope(&bytes)).is_err());
    bytes[at + 1] = b'x';
    assert_eq!(AttestationReport::parse(&envelope(&bytes)).unwrap().doc.module_id, "xb");
}

#[test]
fn document_long_heads_are_read() {
    let mut doc = doc_with_pcrs();
    doc.timestamp = u64::MAX;
    doc.user_data = Some(vec![3u8; 300]);
    let report = AttestationReport::parse(&envelope(&encode_document(&doc))).unwrap();
    assert_eq!(report.doc.timestamp, u64::MAX);
    assert_eq!(report.doc.user_data, Some(vec![3u8; 300]));
    // A head in a longer form than needed reads too.
    let mut v = cbor_head(5, 9);
    v.extend_from_slice(&[0x78, 9]);
    v.extend_from_slice(b"module_id");
    let full = encode_document(&doc);
    v.extend_from_slice(&full[1 + cbor_text("module_id").len()..]);
    assert_eq!(AttestationReport::parse(&envelope(&v)).unwrap().doc.timestamp, u64::MAX);
}

#[test]
fn verify_reports_malformed_report_first() {
    let bytes = encode_signed_report(&key(3), &doc_with_pcrs());
    let err = AttestationVerifier::verify(&input(1, bytes[..bytes.len() - 2].to_vec())).unwrap_err();
    assert!(matches!(err, VerifierError::MalformedReport));
    let mut doc = doc_with_pcrs();
    doc.timestamp = 0;
    let err = AttestationVerifier::verify(&input(1, encode_signed_report(&key(3), &doc))).unwrap_err();
    assert!(matches!(err, VerifierError::ContentValidation(ContentError::ZeroTimestamp)));
}

#[test]
fn verify_rejects_encoded_report_signed_by_other_key() {
    let bytes = encode_signed_report(&key(4), &doc_with_pcrs());
    let err = AttestationVerifier::verify(&input(1, bytes)).unwrap_err();
    assert_eq!(err.message(), "COSE signature verification failed: signature error");
}
