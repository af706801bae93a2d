use std::collections::BTreeMap;

use nitro_attestation::{AttestationDocument, AttestationVerifier, ContentError, VerifierError};

/// A minimal valid `AttestationDocument`.
fn valid_doc() -> AttestationDocument {
    let mut pcrs = BTreeMap::new();
    pcrs.insert(0, [1u8; 48]);
    AttestationDocument {
        module_id: "test-module".into(),
        timestamp: 1_700_000_000_000,
        digest: "SHA384".into(),
        pcrs,
        certificate: vec![0x30],
        cabundle: vec![vec![0x30]],
        public_key: None,
        user_data: None,
        nonce: None,
    }
}

fn content_error(doc: &AttestationDocument) -> ContentError {
    match AttestationVerifier::validate_attestation_content(doc) {
        Err(VerifierError::ContentValidation(e)) => e,
        Err(_) => panic!("expected a content validation error"),
        Ok(()) => panic!("expected the document to be rejected"),
    }
}

fn error_message(doc: &AttestationDocument) -> String {
    AttestationVerifier::validate_attestation_content(doc).unwrap_err().message()
}

#[test]
fn m02_valid_doc_passes() {
    assert!(AttestationVerifier::validate_attestation_content(&valid_doc()).is_ok());
}

#[test]
fn m02_empty_module_id_rejected() {
    let mut doc = valid_doc();
    doc.module_id = String::new();
    assert!(error_message(&doc).contains("module_id"));
}

#[test]
fn m02_zero_timestamp_rejected() {
    let mut doc = valid_doc();
    doc.timestamp = 0;
    assert!(error_message(&doc).contains("timestamp"));
}

#[test]
fn m02_wrong_digest_rejected() {
    let mut doc = valid_doc();
    doc.digest = "SHA256".into();
    assert!(error_message(&doc).contains("SHA384"));
}

#[test]
fn m02_empty_cabundle_rejected() {
    let mut doc = valid_doc();
    doc.cabundle.clear();
    assert!(error_message(&doc).contains("cabundle"));
}

#[test]
fn m02_empty_pcrs_rejected() {
    let mut doc = valid_doc();
    doc.pcrs.clear();
    assert!(error_message(&doc).contains("PCR count"));
}

#[test]
fn m02_all_zero_pcrs_rejected() {
    let mut doc = valid_doc();
    doc.pcrs.insert(0, [0u8; 48]);
    doc.pcrs.insert(1, [0u8; 48]);
    assert!(error_message(&doc).contains("debug mode"));
}

#[test]
fn m02_pcr_index_out_of_range_rejected() {
    let mut doc = valid_doc();
    doc.pcrs.insert(32, [0u8; 48]);
    assert!(error_message(&doc).contains("PCR index"));
}

#[test]
fn m02_pcr_index_31_accepted() {
    let mut doc = valid_doc();
    doc.pcrs.insert(31, [0u8; 48]);
    assert!(AttestationVerifier::validate_attestation_content(&doc).is_ok());
}

#[test]
fn m02_public_key_empty_rejected() {
    let mut doc = valid_doc();
    doc.public_key = Some(vec![]);
    assert!(error_message(&doc).contains("public_key"));
}

#[test]
fn m02_public_key_too_large_rejected() {
    let mut doc = valid_doc();
    doc.public_key = Some(vec![0u8; 1025]);
    assert!(error_message(&doc).contains("public_key"));
}

#[test]
fn m02_user_data_too_large_rejected() {
    let mut doc = valid_doc();
    doc.user_data = Some(vec![0u8; 513]);
    assert!(error_message(&doc).contains("user_data"));
}

#[test]
fn m02_nonce_too_large_rejected() {
    let mut doc = valid_doc();
    doc.nonce = Some(vec![0u8; 513]);
    assert!(error_message(&doc).contains("nonce"));
}

#[test]
fn m02_valid_optional_fields_accepted() {
    let mut doc = valid_doc();
    doc.public_key = Some(vec![0x04; 65]);
    doc.user_data = Some(vec![0u8; 512]);
    doc.nonce = Some(vec![0u8; 256]);
    assert!(AttestationVerifier::validate_attestation_content(&doc).is_ok());
}

// ── Exact errors and messages ───────────────────────────────────────────

#[test]
fn digest_error_names_found_digest() {
    let mut doc = valid_doc();
    doc.digest = "SHA256".into();
    assert_eq!(
        error_message(&doc),
        "unsupported digest algorithm: 'SHA256' (expected 'SHA384')"
    );
}

#[test]
fn pcr_count_error_reports_count() {
    let mut doc = valid_doc();
    for i in 0..33u64 {
        doc.pcrs.insert(i, [7u8; 48]);
    }
    assert!(matches!(content_error(&doc), ContentError::PcrCountOutOfRange(33)));
    assert_eq!(error_message(&doc), "PCR count 33 out of range (must be 1-32)");
}

#[test]
fn smallest_bad_pcr_index_is_reported() {
    let mut doc = valid_doc();
    doc.pcrs.insert(1000, [1u8; 48]);
    doc.pcrs.insert(40, [1u8; 48]);
    doc.pcrs.insert(33, [1u8; 48]);
    assert!(matches!(content_error(&doc), ContentError::PcrIndexOutOfRange(33)));
    assert_eq!(error_message(&doc), "PCR index 33 out of range (must be 0-31)");
}

#[test]
fn pcr_index_check_precedes_zero_check() {
    let mut doc = valid_doc();
    doc.pcrs.insert(0, [0u8; 48]);
    doc.pcrs.insert(45, [0u8; 48]);
    assert!(matches!(content_error(&doc), ContentError::PcrIndexOutOfRange(45)));
}

#[test]
fn one_nonzero_byte_is_enough() {
    let mut doc = valid_doc();
    let mut value = [0u8; 48];
    value[47] = 1;
    doc.pcrs.insert(0, value);
    doc.pcrs.insert(5, [0u8; 48]);
    assert!(AttestationVerifier::validate_attestation_content(&doc).is_ok());
}

#[test]
fn public_key_length_bounds() {
    let mut doc = valid_doc();
    doc.public_key = Some(vec![1u8; 1]);
    assert!(AttestationVerifier::validate_attestation_content(&doc).is_ok());
    doc.public_key = Some(vec![1u8; 1024]);
    assert!(AttestationVerifier::validate_attestation_content(&doc).is_ok());
    doc.public_key = Some(vec![1u8; 1025]);
    assert_eq!(error_message(&doc), "public_key length 1025 out of range (1-1024)");
    doc.public_key = Some(vec![]);
    assert_eq!(error_message(&doc), "public_key length 0 out of range (1-1024)");
}

#[test]
fn size_messages_are_exact() {
    let mut doc = valid_doc();
    doc.user_data = Some(vec![0u8; 513]);
    assert_eq!(error_message(&doc), "user_data length 513 exceeds maximum (512)");
    doc.user_data = None;
    doc.nonce = Some(vec![0u8; 1000]);
    assert_eq!(error_message(&doc), "nonce length 1000 exceeds maximum (512)");
}

#[test]
fn first_failing_check_is_reported() {
    let mut doc = valid_doc();
    doc.module_id = String::new();
    doc.timestamp = 0;
    doc.cabundle.clear();
    assert!(matches!(content_error(&doc), ContentError::EmptyModuleId));
    doc.module_id = "m".into();
    assert!(matches!(content_error(&doc), ContentError::ZeroTimestamp));
    doc.timestamp = 1;
    assert!(matches!(content_error(&doc), ContentError::EmptyCabundle));
    assert_eq!(error_message(&doc), "cabundle is empty");
}

#[test]
fn fixed_messages_are_exact() {
    let mut doc = valid_doc();
    doc.module_id = String::new();
    assert_eq!(error_message(&doc), "module_id is empty");
    let mut doc = valid_doc();
    doc.timestamp = 0;
    assert_eq!(error_message(&doc), "timestamp is zero");
    let mut doc = valid_doc();
    doc.pcrs.insert(0, [0u8; 48]);
    assert_eq!(error_message(&doc), "all PCRs are zero (Nitro debug mode)");
}
