//! The attestation document of an AWS Nitro Enclave and the bounds that its
//! content must meet.

use vstd::prelude::*;
use vstd::string::*;
use vstd::std_specs::btree::*;
use vstd::std_specs::iter::IteratorSpec;
use crate::error::ContentFault;
use crate::order::lemma_increasing_u64;

verus! {

/// Size in bytes of one PCR value (a SHA-384 digest).
pub const PCR_LEN: usize = 48;

/// The largest PCR index that an attestation may hold.
pub const MAX_PCR_INDEX: u64 = 31;

/// The largest number of PCRs that an attestation may hold.
pub const MAX_PCR_COUNT: usize = 32;

/// The largest accepted length of a present `public_key`.
pub const MAX_PUBLIC_KEY_LEN: usize = 1024;

/// The largest accepted length of `user_data` and of `nonce`.
pub const MAX_USER_DATA_LEN: usize = 512;

/// An attestation document, the payload of the COSE envelope.
#[derive(Debug)]
pub struct AttestationDocument {
    /// Identifier of the enclave module.
    pub module_id: String,
    /// Milliseconds since the UNIX epoch at which the document was made.
    pub timestamp: u64,
    /// Name of the digest algorithm of the PCRs.
    pub digest: String,
    /// PCR values by index.
    pub pcrs: std::collections::BTreeMap<u64, [u8; 48]>,
    /// DER encoding of the leaf certificate.
    pub certificate: Vec<u8>,
    /// DER encodings of the issuing certificates, root first.
    pub cabundle: Vec<Vec<u8>>,
    /// Optional public key supplied by the enclave.
    pub public_key: Option<Vec<u8>>,
    /// Optional user data supplied by the enclave.
    pub user_data: Option<Vec<u8>>,
    /// Optional nonce supplied by the enclave.
    pub nonce: Option<Vec<u8>>,
}

/// The only accepted digest algorithm name.
pub open spec fn expected_digest() -> Seq<char> {
    seq!['S', 'H', 'A', '3', '8', '4']
}

/// Whether `digest` names the accepted digest algorithm, `"SHA384"`.
pub fn is_expected_digest(digest: &String) -> (r: bool)
    ensures
        r == (digest@ == expected_digest()),
{
    let expected = String::from_str("SHA384");
    proof {
        reveal_strlit("SHA384");
        assert(expected@ =~= expected_digest());
    }
    *digest == expected
}

/// A PCR value made only of zero bytes.
pub open spec fn is_zero_pcr(v: [u8; 48]) -> bool {
    forall|i: int| 0 <= i < PCR_LEN ==> v@[i] == 0
}

/// `k` is the index of a PCR of `pcrs` and lies above the accepted range.
pub open spec fn is_bad_pcr_index(pcrs: Map<u64, [u8; 48]>, k: u64) -> bool {
    pcrs.contains_key(k) && k > MAX_PCR_INDEX
}

/// The smallest PCR index of `pcrs` above the accepted range (meaningful
/// when there is one).
pub open spec fn smallest_bad_pcr_index(pcrs: Map<u64, [u8; 48]>) -> u64 {
    choose|k: u64|
        is_bad_pcr_index(pcrs, k) && forall|j: u64| is_bad_pcr_index(pcrs, j) ==> k <= j
}

/// Some PCR index of `pcrs` lies above the accepted range.
pub open spec fn has_bad_pcr_index(pcrs: Map<u64, [u8; 48]>) -> bool {
    exists|k: u64| is_bad_pcr_index(pcrs, k)
}

/// Every PCR of `pcrs` is all zero bytes.
pub open spec fn all_pcrs_zero(pcrs: Map<u64, [u8; 48]>) -> bool {
    forall|k: u64| pcrs.contains_key(k) ==> is_zero_pcr(#[trigger] pcrs[k])
}

/// The length of an optional byte string, when present.
pub open spec fn present_len(o: Option<Vec<u8>>) -> Option<nat> {
    match o {
        Some(b) => Some(b@.len()),
        None => None,
    }
}

/// The first bound, in the order in which they are checked, that `doc`
/// breaks; `None` when its content is acceptable.
pub open spec fn content_fault(doc: AttestationDocument) -> Option<ContentFault> {
    let n_pcrs: nat = doc.pcrs@.len();
    if doc.module_id@.len() == 0 {
        Some(ContentFault::EmptyModuleId)
    } else if doc.timestamp == 0 {
        Some(ContentFault::ZeroTimestamp)
    } else if doc.digest@ != expected_digest() {
        Some(ContentFault::UnsupportedDigest(doc.digest@))
    } else if doc.cabundle@.len() == 0 {
        Some(ContentFault::EmptyCabundle)
    } else if n_pcrs == 0 || n_pcrs > MAX_PCR_COUNT {
        Some(ContentFault::PcrCountOutOfRange(n_pcrs))
    } else if has_bad_pcr_index(doc.pcrs@) {
        Some(ContentFault::PcrIndexOutOfRange(smallest_bad_pcr_index(doc.pcrs@) as nat))
    } else if all_pcrs_zero(doc.pcrs@) {
        Some(ContentFault::AllPcrsZero)
    } else if present_len(doc.public_key) matches Some(n) && (n == 0 || n > MAX_PUBLIC_KEY_LEN) {
        Some(ContentFault::PublicKeyLength(present_len(doc.public_key).unwrap()))
    } else if present_len(doc.user_data) matches Some(n) && n > MAX_USER_DATA_LEN {
        Some(ContentFault::UserDataTooLarge(present_len(doc.user_data).unwrap()))
    } else if present_len(doc.nonce) matches Some(n) && n > MAX_USER_DATA_LEN {
        Some(ContentFault::NonceTooLarge(present_len(doc.nonce).unwrap()))
    } else {
        None
    }
}

/// The keys of a map iteration, in the order in which they are visited.
pub open spec fn iter_keys(s: Seq<(&u64, &[u8; 48])>) -> Seq<u64> {
    s.map_values(|kv: (&u64, &[u8; 48])| *kv.0)
}

/// The smallest PCR index above `MAX_PCR_INDEX`, if any.
pub fn first_bad_pcr_index(pcrs: &std::collections::BTreeMap<u64, [u8; 48]>) -> (r: Option<u64>)
    ensures
        r is None <==> !has_bad_pcr_index(pcrs@),
        r matches Some(k) ==> k == smallest_bad_pcr_index(pcrs@),
{
    let iter = pcrs.iter();
    let ghost s = iter.remaining();
    proof {
        broadcast use axiom_spec_btree_map_iter;
        assert(increasing_seq(iter_keys(s)));
        lemma_increasing_u64(iter_keys(s));
    }
    for kv in it: iter
        invariant
            it.seq() == s,
            s == spec_btree_map_iter(pcrs).remaining(),
            forall|a: int, b: int| 0 <= a < b < s.len() ==> iter_keys(s)[a] < iter_keys(s)[b],
            forall|j: int| 0 <= j < it.index() ==> *s[j].0 <= MAX_PCR_INDEX,
    {
        let (k, _v) = kv;
        if *k > MAX_PCR_INDEX {
            proof {
                let i: int = it.index();
                assert(pcrs@.contains_key(*s[i].0));
                assert forall|j: u64| is_bad_pcr_index(pcrs@, j) implies *k <= j by {
                    assert(s.contains((&j, &pcrs@[j])));
                    let t: int = choose|t: int| 0 <= t < s.len() && s[t] == (&j, &pcrs@[j]);
                    if t > i {
                        assert(iter_keys(s)[i] == *k);
                        assert(iter_keys(s)[t] == j);
                    }
                }
                let m: u64 = smallest_bad_pcr_index(pcrs@);
                assert(is_bad_pcr_index(pcrs@, *k));
                assert(is_bad_pcr_index(pcrs@, m) && forall|j: u64| is_bad_pcr_index(pcrs@, j) ==> m <= j);
            }
            return Some(*k);
        }
    }
    proof {
        assert forall|j: u64| !is_bad_pcr_index(pcrs@, j) by {
            if pcrs@.contains_key(j) {
                assert(s.contains((&j, &pcrs@[j])));
            }
        }
    }
    None
}

/// Whether the 48 bytes of a PCR value are all zero.
fn pcr_is_zero(v: &[u8; 48]) -> (r: bool)
    ensures
        r == is_zero_pcr(*v),
{
    let mut i: usize = 0;
    while i < PCR_LEN
        invariant
            0 <= i <= PCR_LEN,
            forall|t: int| 0 <= t < i ==> v@[t] == 0,
        decreases PCR_LEN - i,
    {
        if v[i] != 0 {
            return false;
        }
        i = i + 1;
    }
    true
}

/// Whether every PCR value of `pcrs` is all zero bytes.
pub fn every_pcr_zero(pcrs: &std::collections::BTreeMap<u64, [u8; 48]>) -> (r: bool)
    ensures
        r == all_pcrs_zero(pcrs@),
{
    let iter = pcrs.iter();
    let ghost s = iter.remaining();
    proof {
        broadcast use axiom_spec_btree_map_iter;
    }
    for kv in it: iter
        invariant
            it.seq() == s,
            s == spec_btree_map_iter(pcrs).remaining(),
            forall|j: int| 0 <= j < it.index() ==> is_zero_pcr(*s[j].1),
    {
        let (_k, v) = kv;
        if !pcr_is_zero(v) {
            proof {
                let i: int = it.index();
                assert(pcrs@.contains_key(*s[i].0) && pcrs@[*s[i].0] == *s[i].1);
            }
            return false;
        }
    }
    proof {
        assert forall|k: u64| pcrs@.contains_key(k) implies is_zero_pcr(#[trigger] pcrs@[k]) by {
            assert(s.contains((&k, &pcrs@[k])));
        }
    }
    true
}

} // verus!
