//! The journal of data that a successful verification vouches for.

use vstd::prelude::*;
use vstd::std_specs::btree::*;
use vstd::std_specs::iter::IteratorSpec;
use crate::document::{AttestationDocument, iter_keys};
use crate::order::lemma_increasing_u64;
use crate::chain::{chain_ders, chain_digests, chain_expiries, digest_views};

verus! {

/// Outcome recorded in a journal.
#[derive(PartialEq, Eq, Structural, Clone, Copy, Debug)]
pub enum VerificationResult {
    /// Every check passed.
    Success,
}

/// One platform configuration register: its index and its 48-byte value.
#[derive(Clone, Copy, Debug)]
pub struct Pcr {
    pub index: u64,
    pub value: [u8; 48],
}

/// The verified data of an attestation.
#[allow(non_snake_case)]
#[derive(Debug)]
pub struct VerifierJournal {
    pub result: VerificationResult,
    pub trustedCertsPrefixLen: u8,
    pub timestamp: u64,
    pub certs: Vec<[u8; 32]>,
    pub certExpiries: Vec<u64>,
    pub userData: Vec<u8>,
    pub nonce: Vec<u8>,
    pub publicKey: Vec<u8>,
    pub pcrs: Vec<Pcr>,
    pub moduleId: String,
}

/// The bytes of an optional field, empty when the field is absent.
pub open spec fn bytes_or_empty(o: Option<Vec<u8>>) -> Seq<u8> {
    match o {
        Some(b) => b@,
        None => seq![],
    }
}

/// `list` holds every entry of `pcrs` exactly once, in increasing order of
/// index.
pub open spec fn is_pcr_listing(list: Seq<Pcr>, pcrs: Map<u64, [u8; 48]>) -> bool {
    &&& list.len() == pcrs.len()
    &&& forall|i: int|
        0 <= i < list.len() ==> pcrs.contains_key(#[trigger] list[i].index) && pcrs[list[i].index]
            == list[i].value
    &&& forall|i: int, j: int| 0 <= i < j < list.len() ==> list[i].index < list[j].index
}

/// `j` is the journal of a verified report: made with trusted prefix length
/// `prefix` from document `doc`, whose chain (CA bundle, then leaf) gives
/// the digests and expiries.
pub open spec fn is_journal_of(j: VerifierJournal, prefix: u8, doc: AttestationDocument) -> bool {
    let ders = chain_ders(doc.cabundle@, doc.certificate@);
    &&& j.result == VerificationResult::Success
    &&& j.trustedCertsPrefixLen == prefix
    &&& j.timestamp == doc.timestamp
    &&& digest_views(j.certs@) == chain_digests(ders)
    &&& j.certExpiries@ == chain_expiries(ders)
    &&& j.certs@.len() == j.certExpiries@.len()
    &&& j.userData@ == bytes_or_empty(doc.user_data)
    &&& j.nonce@ == bytes_or_empty(doc.nonce)
    &&& j.publicKey@ == bytes_or_empty(doc.public_key)
    &&& is_pcr_listing(j.pcrs@, doc.pcrs@)
    &&& j.moduleId@ == doc.module_id@
}

/// Two journals that hold the same data.
pub open spec fn same_journal(a: VerifierJournal, b: VerifierJournal) -> bool {
    &&& a.result == b.result
    &&& a.trustedCertsPrefixLen == b.trustedCertsPrefixLen
    &&& a.timestamp == b.timestamp
    &&& digest_views(a.certs@) == digest_views(b.certs@)
    &&& a.certExpiries@ == b.certExpiries@
    &&& a.userData@ == b.userData@
    &&& a.nonce@ == b.nonce@
    &&& a.publicKey@ == b.publicKey@
    &&& a.pcrs@ == b.pcrs@
    &&& a.moduleId@ == b.moduleId@
}

/// The PCRs of `pcrs` as a list ordered by index.
pub fn pcr_listing(pcrs: &std::collections::BTreeMap<u64, [u8; 48]>) -> (r: Vec<Pcr>)
    ensures
        is_pcr_listing(r@, pcrs@),
{
    let iter = pcrs.iter();
    let ghost s = iter.remaining();
    proof {
        broadcast use axiom_spec_btree_map_iter;
        lemma_increasing_u64(iter_keys(s));
    }
    let mut out: Vec<Pcr> = Vec::new();
    for kv in it: iter
        invariant
            it.seq() == s,
            s == spec_btree_map_iter(pcrs).remaining(),
            s.len() == pcrs@.len(),
            forall|a: int, b: int| 0 <= a < b < s.len() ==> iter_keys(s)[a] < iter_keys(s)[b],
            out@.len() == it.index(),
            forall|i: int|
                0 <= i < out@.len() ==> (#[trigger] out@[i]).index == *s[i].0 && out@[i].value
                    == *s[i].1,
    {
        let (k, v) = kv;
        out.push(Pcr { index: *k, value: *v });
    }
    proof {
        assert forall|i: int| 0 <= i < out@.len() implies pcrs@.contains_key(
            #[trigger] out@[i].index,
        ) && pcrs@[out@[i].index] == out@[i].value by {
            assert(pcrs@.contains_key(*s[i].0) && pcrs@[*s[i].0] == *s[i].1);
        }
        assert forall|i: int, j: int| 0 <= i < j < out@.len() implies out@[i].index
            < out@[j].index by {
            assert(iter_keys(s)[i] < iter_keys(s)[j]);
        }
    }
    out
}

} // verus!
