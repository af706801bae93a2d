//! Properties of verification that span its steps.

use vstd::prelude::*;
use vstd::set_lib::lemma_subset_equality;
use crate::cert::certificate_info;
use crate::chain::{
    chain_digests, chain_expiries, chain_fault, digest_views,
    chain_ders, chain_verifies, first_bad_link_from, first_malformed_from, info_at, link_fault,
    keccak256_digest, lemma_none_malformed, parent_of, seconds_of,
};
use crate::cose::sig_structure_encoding;
use crate::document::{
    AttestationDocument, content_fault, is_bad_pcr_index, is_zero_pcr,
    all_pcrs_zero, MAX_PCR_INDEX,
};
use crate::ecdsa::{is_p384_signature_encoding, p384_ecdsa_sha384_verifies, p384_sec1_key_valid};
use crate::error::{same_error, VerifierError};
use crate::journal::{is_journal_of, is_pcr_listing, same_journal, Pcr, VerifierJournal};
use crate::verify::{content_accepted, input_outcome, verify_outcome, AttestationReport, VerifierInput};
use crate::attestation::{opt_view, pcr_map_of, report_fields, report_holds, DocumentFields};
use vstd::utf8::decode_utf8;

verus! {

/// The indices of a list of PCRs, in order.
pub open spec fn pcr_indices(list: Seq<Pcr>) -> Seq<u64> {
    list.map_values(|p: Pcr| p.index)
}

proof fn lemma_listing_covers(list: Seq<Pcr>, pcrs: Map<u64, [u8; 48]>)
    requires
        is_pcr_listing(list, pcrs),
        pcrs.dom().finite(),
    ensures
        pcr_indices(list).to_set() == pcrs.dom(),
{
    let idx = pcr_indices(list);
    assert(idx.no_duplicates()) by {
        assert forall|i: int, j: int| 0 <= i < idx.len() && 0 <= j < idx.len() && i != j implies idx[i]
            != idx[j] by {
            if i < j {
                assert(list[i].index < list[j].index);
            } else {
                assert(list[j].index < list[i].index);
            }
        }
    }
    idx.unique_seq_to_set();
    assert(idx.to_set().subset_of(pcrs.dom())) by {
        assert forall|x: u64| idx.to_set().contains(x) implies pcrs.dom().contains(x) by {
            let i: int = choose|i: int| 0 <= i < idx.len() && idx[i] == x;
            assert(pcrs.contains_key(list[i].index));
        }
    }
    lemma_subset_equality(idx.to_set(), pcrs.dom());
}

proof fn lemma_listing_holds(list: Seq<Pcr>, pcrs: Map<u64, [u8; 48]>, k: u64) -> (i: int)
    requires
        is_pcr_listing(list, pcrs),
        pcrs.dom().finite(),
        pcrs.contains_key(k),
    ensures
        0 <= i < list.len(),
        list[i].index == k,
        list[i].value == pcrs[k],
{
    lemma_listing_covers(list, pcrs);
    assert(pcr_indices(list).to_set().contains(k));
    let i: int = choose|i: int| 0 <= i < pcr_indices(list).len() && pcr_indices(list)[i] == k;
    assert(pcrs.contains_key(list[i].index));
    i
}

/// Every PCR of the document appears in the journal, with its value.
pub proof fn law_journal_lists_every_pcr(
    j: VerifierJournal,
    prefix: u8,
    doc: AttestationDocument,
    k: u64,
)
    requires
        is_journal_of(j, prefix, doc),
        doc.pcrs@.contains_key(k),
    ensures
        exists|i: int| 0 <= i < j.pcrs@.len() && j.pcrs@[i].index == k && j.pcrs@[i].value == doc.pcrs@[k],
{
    let i: int = lemma_listing_holds(j.pcrs@, doc.pcrs@, k);
    assert(j.pcrs@[i].index == k);
}

proof fn lemma_listings_agree_below(a: Seq<Pcr>, b: Seq<Pcr>, pcrs: Map<u64, [u8; 48]>, n: int)
    requires
        is_pcr_listing(a, pcrs),
        is_pcr_listing(b, pcrs),
        pcrs.dom().finite(),
        0 <= n <= a.len(),
    ensures
        forall|i: int| 0 <= i < n ==> a[i].index == b[i].index,
    decreases n,
{
    if n > 0 {
        lemma_listings_agree_below(a, b, pcrs, n - 1);
        let i: int = n - 1;
        if a[i].index < b[i].index {
            let t: int = lemma_listing_holds(b, pcrs, a[i].index);
            if t < i {
                assert(a[t].index == b[t].index);
                assert(a[t].index < a[i].index);
            } else if t > i {
                assert(b[i].index < b[t].index);
            }
        } else if b[i].index < a[i].index {
            let t: int = lemma_listing_holds(a, pcrs, b[i].index);
            if t < i {
                assert(a[t].index == b[t].index);
                assert(b[t].index < b[i].index);
            } else if t > i {
                assert(a[i].index < a[t].index);
            }
        }
    }
}

/// A journal's PCR list is fully determined by the document's PCRs: any
/// two lists that hold each PCR once, in increasing order of index, are
/// equal.
pub proof fn law_pcr_listing_unique(a: Seq<Pcr>, b: Seq<Pcr>, doc: AttestationDocument)
    requires
        is_pcr_listing(a, doc.pcrs@),
        is_pcr_listing(b, doc.pcrs@),
    ensures
        a == b,
{
    lemma_listings_agree_below(a, b, doc.pcrs@, a.len() as int);
    assert forall|i: int| 0 <= i < a.len() implies a[i] == b[i] by {
        assert(a[i].index == b[i].index);
        assert(doc.pcrs@.contains_key(a[i].index));
        assert(doc.pcrs@.contains_key(b[i].index));
    }
    assert(a =~= b);
}

/// `verify_report` rejects exactly the documents that `validate_attestation_content`
/// rejects, with the same content error, before looking at the certificate
/// chain or the signature; when `verify_report` succeeds, content validation
/// succeeds.
pub proof fn law_verify_agrees_with_content_validation(
    prefix: u8,
    report: AttestationReport,
    r: Result<VerifierJournal, VerifierError>,
    v: Result<(), VerifierError>,
)
    requires
        verify_outcome(prefix, report, r),
        content_accepted(report.doc, v),
    ensures
        v matches Err(VerifierError::ContentValidation(e1)) ==> (r matches Err(
            VerifierError::ContentValidation(e2),
        ) && e1@ == e2@),
        r is Ok ==> v is Ok,
{
}

/// A journal is produced only for a report whose certificate chain
/// verifies (trusting the first `prefix` certificates, at the document's
/// time) and whose COSE signature verifies under the public key of the
/// chain's leaf certificate, over the report's `Sig_structure`.
pub proof fn law_journal_only_for_signed_reports(
    prefix: u8,
    report: AttestationReport,
    j: VerifierJournal,
)
    requires
        verify_outcome(prefix, report, Ok(j)),
    ensures
        chain_verifies(report.doc.cabundle@, report.doc.certificate@, prefix as nat, report.doc.timestamp),
        ({
            let ders = chain_ders(report.doc.cabundle@, report.doc.certificate@);
            let leaf_key = info_at(ders, ders.len() - 1).key;
            let message = sig_structure_encoding(report.cose.protected@, report.cose.payload@);
            &&& p384_sec1_key_valid(leaf_key)
            &&& is_p384_signature_encoding(report.cose.signature@)
            &&& p384_ecdsa_sha384_verifies(leaf_key, message, report.cose.signature@)
            &&& is_journal_of(j, prefix, report.doc)
        }),
{
}

proof fn lemma_no_bad_link(ders: Seq<Seq<u8>>, t: int, i: int, q: int)
    requires
        first_bad_link_from(ders, t, i) is None,
        0 <= i <= q < ders.len(),
    ensures
        link_fault(info_at(ders, q), info_at(ders, parent_of(q)), t) is None,
    decreases q - i,
{
    if i < q {
        lemma_no_bad_link(ders, t, i + 1, q);
    }
}

/// The chain behind every journal holds: every certificate reads, and every
/// certificate after the trusted prefix names its parent (the root: itself)
/// as issuer, carries a signature that verifies under its parent's key, and
/// is valid at the document's time (in seconds).
pub proof fn law_journal_chain_links_hold(
    prefix: u8,
    report: AttestationReport,
    j: VerifierJournal,
    q: int,
)
    requires
        verify_outcome(prefix, report, Ok(j)),
        0 <= q < report.doc.cabundle@.len() + 1,
    ensures
        ({
            let ders = chain_ders(report.doc.cabundle@, report.doc.certificate@);
            let t = seconds_of(report.doc.timestamp);
            &&& certificate_info(ders[q]) is Some
            &&& prefix <= q ==> {
                let child = info_at(ders, q);
                let parent = info_at(ders, parent_of(q));
                &&& child.issuer == parent.subject
                &&& p384_ecdsa_sha384_verifies(parent.key, child.tbs, child.signature)
                &&& child.not_before <= t <= child.not_after
            }
        }),
{
    let ders = chain_ders(report.doc.cabundle@, report.doc.certificate@);
    let t = seconds_of(report.doc.timestamp);
    lemma_none_malformed(ders, 0, q);
    if prefix <= q {
        lemma_no_bad_link(ders, t, prefix as int, q);
    }
}

/// Every journal carries content within the validated bounds: a non-empty
/// module id, a non-zero timestamp, 1 to 32 PCRs with indices 0 to 31 and
/// at least one that is not all zero, a public key of at most 1024 bytes,
/// and user data and nonce of at most 512 bytes.
pub proof fn law_journal_content_in_bounds(
    prefix: u8,
    report: AttestationReport,
    j: VerifierJournal,
)
    requires
        verify_outcome(prefix, report, Ok(j)),
    ensures
        j.moduleId@.len() > 0,
        j.timestamp != 0,
        1 <= j.pcrs@.len() <= 32,
        forall|i: int| 0 <= i < j.pcrs@.len() ==> j.pcrs@[i].index <= MAX_PCR_INDEX,
        exists|i: int| 0 <= i < j.pcrs@.len() && !is_zero_pcr(j.pcrs@[i].value),
        j.publicKey@.len() <= 1024,
        j.userData@.len() <= 512,
        j.nonce@.len() <= 512,
        j.certs@.len() == j.certExpiries@.len(),
        j.certs@.len() == report.doc.cabundle@.len() + 1,
{
    let doc = report.doc;
    assert(content_fault(doc) is None);
    assert(is_journal_of(j, prefix, doc));
    assert forall|i: int| 0 <= i < j.pcrs@.len() implies j.pcrs@[i].index <= MAX_PCR_INDEX by {
        assert(doc.pcrs@.contains_key(j.pcrs@[i].index));
        assert(!is_bad_pcr_index(doc.pcrs@, j.pcrs@[i].index));
    }
    assert(!all_pcrs_zero(doc.pcrs@));
    let k: u64 = choose|k: u64| doc.pcrs@.contains_key(k) && !is_zero_pcr(doc.pcrs@[k]);
    let i: int = lemma_listing_holds(j.pcrs@, doc.pcrs@, k);
    assert(!is_zero_pcr(j.pcrs@[i].value));
}

/// Verification is deterministic: on the same inputs, any two results that
/// `verify_report` may return agree, on success in every field of the journal and
/// on failure in the kind and content of the error.
pub proof fn law_verify_deterministic(
    prefix: u8,
    report: AttestationReport,
    r1: Result<VerifierJournal, VerifierError>,
    r2: Result<VerifierJournal, VerifierError>,
)
    requires
        verify_outcome(prefix, report, r1),
        verify_outcome(prefix, report, r2),
    ensures
        r1 matches Ok(j1) ==> r2 matches Ok(j2) && same_journal(j1, j2),
        r1 matches Err(e1) ==> r2 matches Err(e2) && same_error(e1, e2),
{
    if r1 is Ok {
        let j1 = r1->Ok_0;
        let j2 = r2->Ok_0;
        law_pcr_listing_unique(j1.pcrs@, j2.pcrs@, report.doc);
    }
}

/// Two maps that both hold exactly the PCR entries `e` are equal.
proof fn lemma_pcr_map_unique(m1: Map<u64, [u8; 48]>, m2: Map<u64, [u8; 48]>, e: Seq<(u64, Seq<u8>)>)
    requires
        pcr_map_of(m1, e),
        pcr_map_of(m2, e),
    ensures
        m1 == m2,
{
    broadcast use vstd::array::group_array_axioms;
    assert forall|k: u64| #[trigger] m1.contains_key(k) implies m2.contains_key(k) && m1[k] == m2[k] by {
        let i = choose|i: int| 0 <= i < e.len() && (#[trigger] e[i]).0 == k;
        assert(m1[e[i].0]@ == m2[e[i].0]@);
        assert(m1[k] =~= m2[k]);
    }
    assert forall|k: u64| #[trigger] m2.contains_key(k) implies m1.contains_key(k) by {
        let i = choose|i: int| 0 <= i < e.len() && (#[trigger] e[i]).0 == k;
    }
    assert(m1 =~= m2);
}

/// Two reports decoded from the same fields meet the same outcomes.
proof fn lemma_outcome_by_fields(
    prefix: u8,
    rep1: AttestationReport,
    rep2: AttestationReport,
    h: Seq<u8>,
    p: Seq<u8>,
    g: Seq<u8>,
    f: DocumentFields,
    r: Result<VerifierJournal, VerifierError>,
)
    requires
        report_holds(rep1, h, p, g, f),
        report_holds(rep2, h, p, g, f),
        verify_outcome(prefix, rep1, r),
    ensures
        verify_outcome(prefix, rep2, r),
{
    let d1 = rep1.doc;
    let d2 = rep2.doc;
    lemma_pcr_map_unique(d1.pcrs@, d2.pcrs@, f.pcrs);
    assert(d1.cabundle@.map_values(|v: Vec<u8>| v@) =~= d2.cabundle@.map_values(|v: Vec<u8>| v@));
    assert(chain_ders(d1.cabundle@, d1.certificate@) == chain_ders(d2.cabundle@, d2.certificate@));
    assert(content_fault(d1) == content_fault(d2));
}

/// Verification of an encoded report is deterministic: any two results
/// that `verify` may return for the same input agree, on success in every
/// field of the journal and on failure in the kind and content of the
/// error.
pub proof fn law_verify_input_deterministic(
    input: VerifierInput,
    r1: Result<VerifierJournal, VerifierError>,
    r2: Result<VerifierJournal, VerifierError>,
)
    requires
        input_outcome(input, r1),
        input_outcome(input, r2),
    ensures
        r1 matches Ok(j1) ==> r2 matches Ok(j2) && same_journal(j1, j2),
        r1 matches Err(e1) ==> r2 matches Err(e2) && same_error(e1, e2),
{
    match report_fields(input.attestationReport@) {
        None => {},
        Some((h, p, g, f)) => {
            let prefix = input.trustedCertsPrefixLen;
            let rep1 = choose|rep: AttestationReport| report_holds(rep, h, p, g, f) && #[trigger] verify_outcome(prefix, rep, r1);
            let rep2 = choose|rep: AttestationReport| report_holds(rep, h, p, g, f) && #[trigger] verify_outcome(prefix, rep, r2);
            lemma_outcome_by_fields(prefix, rep2, rep1, h, p, g, f, r2);
            law_verify_deterministic(prefix, rep1, r1, r2);
        },
    }
}

/// A journal is produced from an encoded report only when the report
/// decodes, the certificates in its bytes (CA bundle, then leaf) form a
/// chain that verifies at the document's time, trusting the first
/// `trustedCertsPrefixLen` of them, and the signature in its bytes verifies
/// under the leaf's key over the `Sig_structure` of its protected header and
/// payload; the journal then lists those certificates' digests and expiries
/// and the document's timestamp.
pub proof fn law_journal_only_for_signed_input(input: VerifierInput, j: VerifierJournal)
    requires
        input_outcome(input, Ok(j)),
    ensures
        report_fields(input.attestationReport@) matches Some((h, p, g, f)) && ({
            let ders = f.cabundle.push(f.certificate);
            let leaf_key = info_at(ders, ders.len() - 1).key;
            &&& chain_fault(ders, input.trustedCertsPrefixLen as nat, seconds_of(f.timestamp)) is None
            &&& p384_sec1_key_valid(leaf_key)
            &&& is_p384_signature_encoding(g)
            &&& p384_ecdsa_sha384_verifies(leaf_key, sig_structure_encoding(h, p), g)
            &&& digest_views(j.certs@) == chain_digests(ders)
            &&& j.certExpiries@ == chain_expiries(ders)
            &&& j.timestamp == f.timestamp
        }),
{
    match report_fields(input.attestationReport@) {
        None => {},
        Some((h, p, g, f)) => {
            let prefix = input.trustedCertsPrefixLen;
            let rep = choose|rep: AttestationReport| report_holds(rep, h, p, g, f) && #[trigger] verify_outcome(prefix, rep, Ok(j));
            assert(chain_ders(rep.doc.cabundle@, rep.doc.certificate@) =~= f.cabundle.push(f.certificate));
        },
    }
}

/// The journal of an encoded report lists every certificate of the report
/// once, in the order in which they stand in it, root first: position `i`
/// of `certs` is the Keccak-256 digest of the `i`-th certificate of the CA
/// bundle, and of the leaf certificate at the last position; position `i`
/// of `certExpiries` is the `notAfter` time of that same certificate.
pub proof fn law_journal_lists_each_certificate(input: VerifierInput, j: VerifierJournal)
    requires
        input_outcome(input, Ok(j)),
    ensures
        report_fields(input.attestationReport@) matches Some((h, p, g, f)) && ({
            let n = f.cabundle.len();
            &&& j.certs@.len() == n + 1
            &&& j.certExpiries@.len() == n + 1
            &&& forall|i: int| 0 <= i < n ==> (#[trigger] j.certs@[i])@ == keccak256_digest(f.cabundle[i])
            &&& j.certs@[n as int]@ == keccak256_digest(f.certificate)
            &&& forall|i: int| 0 <= i < n ==> (#[trigger] certificate_info(f.cabundle[i])) is Some
            &&& forall|i: int|
                0 <= i < n ==> (#[trigger] j.certExpiries@[i]) == (certificate_info(f.cabundle[i])->Some_0.not_after as u64)
            &&& certificate_info(f.certificate) is Some
            &&& j.certExpiries@[n as int] == certificate_info(f.certificate)->Some_0.not_after as u64
        }),
{
    law_journal_only_for_signed_input(input, j);
    let (h, p, g, f) = report_fields(input.attestationReport@)->Some_0;
    let ders = f.cabundle.push(f.certificate);
    let n = f.cabundle.len();
    assert(first_malformed_from(ders, 0) is None);
    assert(digest_views(j.certs@) == chain_digests(ders));
    assert(j.certExpiries@ == chain_expiries(ders));
    assert(j.certs@.len() == digest_views(j.certs@).len());
    assert forall|i: int| 0 <= i < n implies (#[trigger] j.certs@[i])@ == keccak256_digest(f.cabundle[i]) by {
        assert(digest_views(j.certs@)[i] == j.certs@[i]@);
        assert(ders[i] == f.cabundle[i]);
    }
    assert(digest_views(j.certs@)[n as int] == j.certs@[n as int]@);
    assert forall|i: int| 0 <= i < n implies (#[trigger] certificate_info(f.cabundle[i])) is Some by {
        assert(ders[i] == f.cabundle[i]);
        lemma_none_malformed(ders, 0, i);
    }
    assert forall|i: int| 0 <= i < n implies (#[trigger] j.certExpiries@[i]) == (certificate_info(
        f.cabundle[i],
    )->Some_0.not_after as u64) by {
        assert(ders[i] == f.cabundle[i]);
    }
    lemma_none_malformed(ders, 0, n as int);
}

/// The chain behind every journal, read off the report itself: with `n`
/// certificates in the CA bundle, certificate `q` is the bundle's `q`-th
/// (the leaf at `q == n`) and reads; from the trusted prefix on, its issuer
/// is the subject of the certificate before it (the root's: its own), its
/// signature over its `tbsCertificate` verifies under that certificate's
/// key, and the document's timestamp in milliseconds falls within its
/// validity, from the first millisecond of `notBefore` to the last
/// millisecond of `notAfter`.
pub proof fn law_journal_links_hold_in_report(
    prefix: u8,
    report: AttestationReport,
    j: VerifierJournal,
    q: int,
)
    requires
        verify_outcome(prefix, report, Ok(j)),
        0 <= q <= report.doc.cabundle@.len(),
    ensures
        ({
            let n = report.doc.cabundle@.len() as int;
            let child_der = if q < n {
                report.doc.cabundle@[q]@
            } else {
                report.doc.certificate@
            };
            let parent_der = if q == 0 {
                child_der
            } else {
                report.doc.cabundle@[q - 1]@
            };
            let ts = report.doc.timestamp as int;
            &&& certificate_info(child_der) is Some
            &&& prefix <= q ==> {
                let child = certificate_info(child_der)->Some_0;
                let parent = certificate_info(parent_der)->Some_0;
                &&& certificate_info(parent_der) is Some
                &&& child.issuer == parent.subject
                &&& p384_ecdsa_sha384_verifies(parent.key, child.tbs, child.signature)
                &&& child.not_before * 1000 <= ts < (child.not_after + 1) * 1000
            }
        }),
{
    let ders = chain_ders(report.doc.cabundle@, report.doc.certificate@);
    let n = report.doc.cabundle@.len() as int;
    let t = seconds_of(report.doc.timestamp);
    let ts = report.doc.timestamp as int;
    law_journal_chain_links_hold(prefix, report, j, q);
    if q < n {
        assert(ders[q] == report.doc.cabundle@[q]@);
    } else {
        assert(ders[q] == report.doc.certificate@);
    }
    if q > 0 {
        assert(ders[q - 1] == report.doc.cabundle@[q - 1]@);
        lemma_none_malformed(ders, 0, q - 1);
    }
    if prefix <= q {
        let child = info_at(ders, q);
        assert(t == ts / 1000);
        assert(child.not_before <= ts / 1000 ==> child.not_before * 1000 <= ts) by (nonlinear_arith)
            requires
                ts >= 0,
        ;
        assert(ts / 1000 <= child.not_after ==> ts < (child.not_after + 1) * 1000) by (nonlinear_arith)
            requires
                ts >= 0,
        ;
    }
}

/// The bytes of an optional field as the journal holds them: empty when
/// the field is absent.
pub open spec fn optional_or_empty(o: Option<Seq<u8>>) -> Seq<u8> {
    match o {
        Some(b) => b,
        None => seq![],
    }
}

/// The journal of an encoded report holds what the report's document
/// says: its module id (the text the document holds), its timestamp, its
/// public key, user data and nonce (empty where absent or `null`), and
/// every PCR of the document with exactly its value, listed in increasing
/// order of index.
pub proof fn law_journal_holds_document(input: VerifierInput, j: VerifierJournal)
    requires
        input_outcome(input, Ok(j)),
    ensures
        report_fields(input.attestationReport@) matches Some((h, p, g, f)) && ({
            &&& j.moduleId@ == decode_utf8(f.module_id)
            &&& j.timestamp == f.timestamp
            &&& j.publicKey@ == optional_or_empty(f.public_key)
            &&& j.userData@ == optional_or_empty(f.user_data)
            &&& j.nonce@ == optional_or_empty(f.nonce)
            &&& forall|i: int|
                0 <= i < f.pcrs.len() ==> exists|m: int|
                    0 <= m < j.pcrs@.len() && j.pcrs@[m].index == (#[trigger] f.pcrs[i]).0 && j.pcrs@[m].value@
                        == f.pcrs[i].1
            &&& forall|m: int, m2: int| 0 <= m < m2 < j.pcrs@.len() ==> j.pcrs@[m].index < j.pcrs@[m2].index
        }),
{
    let (h, p, g, f) = report_fields(input.attestationReport@)->Some_0;
    let prefix = input.trustedCertsPrefixLen;
    let rep = choose|rep: AttestationReport| report_holds(rep, h, p, g, f) && #[trigger] verify_outcome(prefix, rep, Ok(j));
    let doc = rep.doc;
    assert(is_journal_of(j, prefix, doc));
    assert(opt_view(doc.public_key) == f.public_key);
    assert forall|i: int| 0 <= i < f.pcrs.len() implies exists|m: int|
        0 <= m < j.pcrs@.len() && j.pcrs@[m].index == (#[trigger] f.pcrs[i]).0 && j.pcrs@[m].value@ == f.pcrs[i].1 by {
        let k = f.pcrs[i].0;
        assert(doc.pcrs@.contains_key(k));
        law_journal_lists_every_pcr(j, prefix, doc, k);
        let m = choose|m: int| 0 <= m < j.pcrs@.len() && j.pcrs@[m].index == k && j.pcrs@[m].value == doc.pcrs@[k];
        assert(j.pcrs@[m].value@ == doc.pcrs@[k]@);
    }
}

} // verus!
