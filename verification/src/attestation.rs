//! Decoding an attestation report: a CBOR `COSE_Sign1` message whose payload
//! is the CBOR map of the attestation document.
//!
//! The document's map holds, in any order, the required entries
//! `module_id`, `digest` (texts), `timestamp` (an unsigned integer), `pcrs`
//! (a map from unsigned integers to 48-byte strings), `certificate` (a byte
//! string) and `cabundle` (an array of byte strings), and the optional
//! entries `public_key`, `user_data` and `nonce` (each a byte string or
//! `null`). An entry under another text key is skipped when its value is a
//! well-formed item. A key of the document that occurs twice is refused, and
//! so is a repeated PCR index, as RFC 8949 makes a map with a repeated key
//! invalid.

use vstd::prelude::*;
use vstd::utf8::{valid_utf8, decode_utf8};
use crate::cbor::{
    container_at, item_end, string_at, uint_at, read_container, read_string, read_uint,
    skip_item, CBOR_NULL, MAJOR_MAP, MAX_NESTING,
};
use crate::cert::{copy_range, range_equals};
use crate::cose::{CoseSign1, MAJOR_ARRAY, MAJOR_BYTES, MAJOR_TEXT};
use crate::document::{AttestationDocument, PCR_LEN};
use crate::error::VerifierError;
use crate::verify::AttestationReport;

verus! {

/// The byte strings of the `n` items from `pos` on, and the position after
/// them.
pub open spec fn byte_strings_at(s: Seq<u8>, pos: int, n: nat) -> Option<(Seq<Seq<u8>>, int)>
    decreases n,
{
    if n == 0 {
        Some((seq![], pos))
    } else {
        match string_at(s, pos, MAJOR_BYTES) {
            None => None,
            Some((b, p)) => match byte_strings_at(s, p, (n - 1) as nat) {
                None => None,
                Some((rest, q)) => Some((seq![b] + rest, q)),
            },
        }
    }
}

/// The `n` map entries from `pos` on, each an unsigned integer key and a
/// byte string value, and the position after them.
pub open spec fn pcr_entries_at(s: Seq<u8>, pos: int, n: nat) -> Option<(Seq<(u64, Seq<u8>)>, int)>
    decreases n,
{
    if n == 0 {
        Some((seq![], pos))
    } else {
        match uint_at(s, pos) {
            None => None,
            Some((k, p)) => match string_at(s, p, MAJOR_BYTES) {
                None => None,
                Some((v, q)) => match pcr_entries_at(s, q, (n - 1) as nat) {
                    None => None,
                    Some((rest, e)) => Some((seq![(k as u64, v)] + rest, e)),
                },
            },
        }
    }
}

/// PCR entries that an attestation document can hold: each value is a
/// 48-byte digest and no index occurs twice.
pub open spec fn pcr_entries_valid(e: Seq<(u64, Seq<u8>)>) -> bool {
    &&& forall|i: int| 0 <= i < e.len() ==> (#[trigger] e[i]).1.len() == PCR_LEN
    &&& forall|i: int, j: int| 0 <= i < j < e.len() ==> (#[trigger] e[i]).0 != (#[trigger] e[j]).0
}

/// `m` maps the index of each entry of `e` to its value, and holds nothing
/// else.
pub open spec fn pcr_map_of(m: Map<u64, [u8; 48]>, e: Seq<(u64, Seq<u8>)>) -> bool {
    &&& forall|k: u64| #[trigger] m.contains_key(k) <==> exists|i: int| 0 <= i < e.len() && (#[trigger] e[i]).0 == k
    &&& forall|i: int| 0 <= i < e.len() ==> m[(#[trigger] e[i]).0]@ == e[i].1
}

/// Copies a 48-byte PCR value out of `s`.
fn read_pcr_value(s: &[u8], a: usize) -> (r: [u8; 48])
    requires
        a + 48 <= s.len(),
    ensures
        r@ == s@.subrange(a as int, a + 48),
{
    let mut out: [u8; 48] = [0u8; 48];
    let mut j: usize = 0;
    while j < 48
        invariant
            0 <= j <= 48,
            a + 48 <= s.len(),
            forall|t: int| 0 <= t < j ==> out@[t] == s@[a + t],
        decreases 48 - j,
    {
        out[j] = s[a + j];
        j = j + 1;
    }
    assert(out@ =~= s@.subrange(a as int, a + 48));
    out
}

/// Reads `n` byte strings from `pos` on.
pub fn read_byte_strings(s: &[u8], pos: usize, n: u64) -> (r: Option<(Vec<Vec<u8>>, usize)>)
    ensures
        match byte_strings_at(s@, pos as int, n as nat) {
            Some((items, p)) => r matches Some((v, q)) && q == p && v@.len() == items.len()
                && forall|i: int| 0 <= i < items.len() ==> (#[trigger] v@[i])@ == items[i],
            None => r is None,
        },
        r matches Some((_v, q)) ==> pos <= q <= s@.len() || n == 0,
{
    let mut out: Vec<Vec<u8>> = Vec::new();
    let mut cur: usize = pos;
    let mut i: u64 = 0;
    let ghost done: Seq<Seq<u8>> = seq![];
    while i < n
        invariant
            0 <= i <= n,
            pos <= cur,
            i > 0 ==> cur <= s@.len(),
            done.len() == i,
            out@.len() == i,
            forall|t: int| 0 <= t < i ==> (#[trigger] out@[t])@ == done[t],
            byte_strings_at(s@, pos as int, n as nat) == match byte_strings_at(s@, cur as int, (n - i) as nat) {
                Some((rest, q)) => Some((done + rest, q)),
                None => None,
            },
        decreases n - i,
    {
        let (a, b) = match read_string(s, cur, MAJOR_BYTES) {
            Some(x) => x,
            None => return None,
        };
        let item = copy_range(s, a, b);
        proof {
            let b_seq = s@.subrange(a as int, b as int);
            let tail = byte_strings_at(s@, b as int, (n - i - 1) as nat);
            assert(byte_strings_at(s@, cur as int, (n - i) as nat) == match tail {
                None => None,
                Some((rest, q)) => Some((seq![b_seq] + rest, q)),
            });
            match tail {
                Some((rest, q)) => {
                    assert(done + (seq![b_seq] + rest) =~= done.push(b_seq) + rest);
                },
                None => {},
            }
            done = done.push(b_seq);
        }
        out.push(item);
        cur = b;
        i = i + 1;
    }
    proof {
        assert(done + seq![] =~= done);
    }
    Some((out, cur))
}

/// `u64` keys are ordered as a `BTreeMap` needs.
proof fn lemma_u64_keys_ordered()
    ensures
        vstd::laws_cmp::obeys_cmp::<u64>(),
{
    broadcast use vstd::laws_cmp::group_laws_cmp;
}

/// Reads `n` PCR entries from `pos` on into a map; `None` where they do not
/// read or are not valid.
pub fn read_pcr_entries(s: &[u8], pos: usize, n: u64) -> (r: Option<
    (std::collections::BTreeMap<u64, [u8; 48]>, usize),
>)
    ensures
        r is Some <==> (pcr_entries_at(s@, pos as int, n as nat) matches Some((e, _p))
            && pcr_entries_valid(e)),
        r matches Some((m, q)) ==> (pcr_entries_at(s@, pos as int, n as nat) matches Some((e, p))
            && q == p && pcr_map_of(m@, e)),
{
    proof {
        lemma_u64_keys_ordered();
    }
    let mut m: std::collections::BTreeMap<u64, [u8; 48]> = std::collections::BTreeMap::new();
    let mut cur: usize = pos;
    let mut i: u64 = 0;
    let ghost done: Seq<(u64, Seq<u8>)> = seq![];
    while i < n
        invariant
            0 <= i <= n,
            done.len() == i,
            pcr_entries_valid(done),
            pcr_map_of(m@, done),
            pcr_entries_at(s@, pos as int, n as nat) == match pcr_entries_at(s@, cur as int, (n - i) as nat) {
                Some((rest, q)) => Some((done + rest, q)),
                None => None,
            },
        decreases n - i,
    {
        let ghost whole = pcr_entries_at(s@, pos as int, n as nat);
        let (k, p) = match read_uint(s, cur) {
            Some(x) => x,
            None => return None,
        };
        let (a, b) = match read_string(s, p, MAJOR_BYTES) {
            Some(x) => x,
            None => return None,
        };
        let ghost v = s@.subrange(a as int, b as int);
        let ghost tail = pcr_entries_at(s@, b as int, (n - i - 1) as nat);
        proof {
            assert(pcr_entries_at(s@, cur as int, (n - i) as nat) == match tail {
                None => None,
                Some((rest, e)) => Some((seq![(k, v)] + rest, e)),
            });
            match tail {
                Some((rest, q)) => {
                    assert(done + (seq![(k, v)] + rest) =~= done.push((k, v)) + rest);
                    assert((done.push((k, v)) + rest)[i as int] == (k, v));
                },
                None => {},
            }
        }
        if b - a != 48 {
            return None;
        }
        let value = read_pcr_value(s, a);
        let old_value = m.insert(k, value);
        if old_value.is_some() {
            proof {
                let j = choose|j: int| 0 <= j < done.len() && (#[trigger] done[j]).0 == k;
                match tail {
                    Some((rest, q)) => {
                        let all = done.push((k, v)) + rest;
                        assert(all[j] == done[j]);
                        assert(all[i as int] == (k, v));
                    },
                    None => {},
                }
            }
            return None;
        }
        proof {
            let nd = done.push((k, v));
            assert forall|t: int, u: int| 0 <= t < u < nd.len() implies (#[trigger] nd[t]).0 != (#[trigger] nd[u]).0 by {
                if u == i {
                    assert(nd[t] == done[t]);
                }
            }
            assert forall|t: int| 0 <= t < nd.len() implies (#[trigger] nd[t]).1.len() == PCR_LEN by {
                if t < i {
                    assert(nd[t] == done[t]);
                }
            }
            assert forall|kk: u64| #[trigger] m@.contains_key(kk) <==> exists|t: int| 0 <= t < nd.len() && (#[trigger] nd[t]).0 == kk by {
                if m@.contains_key(kk) && kk != k {
                    let t = choose|t: int| 0 <= t < done.len() && (#[trigger] done[t]).0 == kk;
                    assert(nd[t] == done[t]);
                }
                if exists|t: int| 0 <= t < nd.len() && (#[trigger] nd[t]).0 == kk {
                    let t = choose|t: int| 0 <= t < nd.len() && (#[trigger] nd[t]).0 == kk;
                    if t < i {
                        assert(nd[t] == done[t]);
                    } else {
                        assert(nd[t] == (k, v));
                    }
                }
                if kk == k {
                    assert(nd[i as int] == (k, v));
                }
            }
            assert forall|t: int| 0 <= t < nd.len() implies m@[(#[trigger] nd[t]).0]@ == nd[t].1 by {
                if t < i {
                    assert(nd[t] == done[t]);
                    assert(done[t].0 != k);
                }
            }
            done = nd;
        }
        cur = b;
        i = i + 1;
    }
    proof {
        assert(done + seq![] =~= done);
    }
    Some((m, cur))
}

/// `String::from_utf8` of the standard library: the string whose UTF-8
/// encoding is `bytes`, or `None` where `bytes` are not valid UTF-8. The
/// contract restates its documentation: it fails exactly on invalid UTF-8,
/// and otherwise holds the characters that `bytes` encode.
#[verifier::external_body]
fn utf8_string(bytes: Vec<u8>) -> (r: Option<String>)
    ensures
        r is Some <==> valid_utf8(bytes@),
        r matches Some(t) ==> t@ == decode_utf8(bytes@),
{
    match String::from_utf8(bytes) {
        Ok(t) => Some(t),
        Err(_) => None,
    }
}

/// The key `"module_id"` as UTF-8 bytes.
pub open spec fn module_id_key() -> Seq<u8> {
    seq![0x6du8, 0x6f, 0x64, 0x75, 0x6c, 0x65, 0x5f, 0x69, 0x64]
}

/// The key `"digest"` as UTF-8 bytes.
pub open spec fn digest_key() -> Seq<u8> {
    seq![0x64u8, 0x69, 0x67, 0x65, 0x73, 0x74]
}

/// The key `"timestamp"` as UTF-8 bytes.
pub open spec fn timestamp_key() -> Seq<u8> {
    seq![0x74u8, 0x69, 0x6d, 0x65, 0x73, 0x74, 0x61, 0x6d, 0x70]
}

/// The key `"pcrs"` as UTF-8 bytes.
pub open spec fn pcrs_key() -> Seq<u8> {
    seq![0x70u8, 0x63, 0x72, 0x73]
}

/// The key `"certificate"` as UTF-8 bytes.
pub open spec fn certificate_key() -> Seq<u8> {
    seq![0x63u8, 0x65, 0x72, 0x74, 0x69, 0x66, 0x69, 0x63, 0x61, 0x74, 0x65]
}

/// The key `"cabundle"` as UTF-8 bytes.
pub open spec fn cabundle_key() -> Seq<u8> {
    seq![0x63u8, 0x61, 0x62, 0x75, 0x6e, 0x64, 0x6c, 0x65]
}

/// The key `"public_key"` as UTF-8 bytes.
pub open spec fn public_key_key() -> Seq<u8> {
    seq![0x70u8, 0x75, 0x62, 0x6c, 0x69, 0x63, 0x5f, 0x6b, 0x65, 0x79]
}

/// The key `"user_data"` as UTF-8 bytes.
pub open spec fn user_data_key() -> Seq<u8> {
    seq![0x75u8, 0x73, 0x65, 0x72, 0x5f, 0x64, 0x61, 0x74, 0x61]
}

/// The key `"nonce"` as UTF-8 bytes.
pub open spec fn nonce_key() -> Seq<u8> {
    seq![0x6eu8, 0x6f, 0x6e, 0x63, 0x65]
}

/// The byte string or `null` at `pos`, and the position after it.
pub open spec fn optional_bytes_at(s: Seq<u8>, pos: int) -> Option<(Option<Seq<u8>>, int)> {
    if 0 <= pos < s.len() && s[pos] == CBOR_NULL {
        Some((None, pos + 1))
    } else {
        match string_at(s, pos, MAJOR_BYTES) {
            Some((b, p)) => Some((Some(b), p)),
            None => None,
        }
    }
}

/// Reads the byte string or `null` at `pos`.
fn read_optional_bytes(s: &[u8], pos: usize) -> (r: Option<(Option<Vec<u8>>, usize)>)
    ensures
        match optional_bytes_at(s@, pos as int) {
            Some((v, p)) => r matches Some((w, q)) && q == p && opt_view(w) == v,
            None => r is None,
        },
        r matches Some((_w, q)) ==> pos < q <= s@.len(),
{
    if pos < s.len() && s[pos] == CBOR_NULL {
        return Some((None, pos + 1));
    }
    match read_string(s, pos, MAJOR_BYTES) {
        Some((a, b)) => Some((Some(copy_range(s, a, b)), b)),
        None => None,
    }
}

/// The view of an optional byte vector.
pub open spec fn opt_view(o: Option<Vec<u8>>) -> Option<Seq<u8>> {
    match o {
        Some(v) => Some(v@),
        None => None,
    }
}

/// What an attestation document's CBOR map holds.
pub struct DocumentFields {
    pub module_id: Seq<u8>,
    pub digest: Seq<u8>,
    pub timestamp: u64,
    pub pcrs: Seq<(u64, Seq<u8>)>,
    pub certificate: Seq<u8>,
    pub cabundle: Seq<Seq<u8>>,
    pub public_key: Option<Seq<u8>>,
    pub user_data: Option<Seq<u8>>,
    pub nonce: Option<Seq<u8>>,
}

/// One entry of an attestation document's map, named by its key.
pub enum DocEntry {
    ModuleId(Seq<u8>),
    Digest(Seq<u8>),
    Timestamp(u64),
    Pcrs(Seq<(u64, Seq<u8>)>),
    Certificate(Seq<u8>),
    Cabundle(Seq<Seq<u8>>),
    PublicKey(Option<Seq<u8>>),
    UserData(Option<Seq<u8>>),
    Nonce(Option<Seq<u8>>),
    /// An entry whose key the document does not have.
    Other,
}

/// The key of an entry, numbered in the order of the document's fields,
/// and 9 for a key that the document does not have; the first six keys are
/// required.
pub open spec fn entry_kind(e: DocEntry) -> int {
    match e {
        DocEntry::ModuleId(_) => 0,
        DocEntry::Digest(_) => 1,
        DocEntry::Timestamp(_) => 2,
        DocEntry::Pcrs(_) => 3,
        DocEntry::Certificate(_) => 4,
        DocEntry::Cabundle(_) => 5,
        DocEntry::PublicKey(_) => 6,
        DocEntry::UserData(_) => 7,
        DocEntry::Nonce(_) => 8,
        DocEntry::Other => 9,
    }
}

/// The entry at `pos` (a text key, then a value of the type that the key
/// calls for), and the position after it.
#[verifier::opaque]
pub open spec fn entry_at(s: Seq<u8>, pos: int) -> Option<(DocEntry, int)> {
    match string_at(s, pos, MAJOR_TEXT) {
        None => None,
        Some((k, p)) => if k == module_id_key() {
            match string_at(s, p, MAJOR_TEXT) {
                Some((v, q)) => Some((DocEntry::ModuleId(v), q)),
                None => None,
            }
        } else if k == digest_key() {
            match string_at(s, p, MAJOR_TEXT) {
                Some((v, q)) => Some((DocEntry::Digest(v), q)),
                None => None,
            }
        } else if k == timestamp_key() {
            match uint_at(s, p) {
                Some((t, q)) => Some((DocEntry::Timestamp(t as u64), q)),
                None => None,
            }
        } else if k == pcrs_key() {
            match container_at(s, p, MAJOR_MAP) {
                Some((n, q)) => match pcr_entries_at(s, q, n) {
                    Some((e, r)) => Some((DocEntry::Pcrs(e), r)),
                    None => None,
                },
                None => None,
            }
        } else if k == certificate_key() {
            match string_at(s, p, MAJOR_BYTES) {
                Some((v, q)) => Some((DocEntry::Certificate(v), q)),
                None => None,
            }
        } else if k == cabundle_key() {
            match container_at(s, p, MAJOR_ARRAY) {
                Some((n, q)) => match byte_strings_at(s, q, n) {
                    Some((b, r)) => Some((DocEntry::Cabundle(b), r)),
                    None => None,
                },
                None => None,
            }
        } else if k == public_key_key() {
            match optional_bytes_at(s, p) {
                Some((v, q)) => Some((DocEntry::PublicKey(v), q)),
                None => None,
            }
        } else if k == user_data_key() {
            match optional_bytes_at(s, p) {
                Some((v, q)) => Some((DocEntry::UserData(v), q)),
                None => None,
            }
        } else if k == nonce_key() {
            match optional_bytes_at(s, p) {
                Some((v, q)) => Some((DocEntry::Nonce(v), q)),
                None => None,
            }
        } else {
            match item_end(s, p, MAX_NESTING as nat) {
                Some(q) => Some((DocEntry::Other, q)),
                None => None,
            }
        },
    }
}

/// The `n` entries from `pos` on, and the position after them.
pub open spec fn entries_at(s: Seq<u8>, pos: int, n: nat) -> Option<(Seq<DocEntry>, int)>
    decreases n,
{
    if n == 0 {
        Some((seq![], pos))
    } else {
        match entry_at(s, pos) {
            None => None,
            Some((e, p)) => match entries_at(s, p, (n - 1) as nat) {
                None => None,
                Some((rest, q)) => Some((seq![e] + rest, q)),
            },
        }
    }
}

/// The value of an entry is acceptable: texts are UTF-8 and the PCRs are
/// valid.
pub open spec fn entry_ok(e: DocEntry) -> bool {
    match e {
        DocEntry::ModuleId(v) => valid_utf8(v),
        DocEntry::Digest(v) => valid_utf8(v),
        DocEntry::Pcrs(p) => pcr_entries_valid(p),
        _ => true,
    }
}

/// The last entry of `es` with key number `k`.
pub open spec fn entry_of_kind(es: Seq<DocEntry>, k: int) -> Option<DocEntry>
    decreases es.len(),
{
    if es.len() == 0 {
        None
    } else if entry_kind(es.last()) == k {
        Some(es.last())
    } else {
        entry_of_kind(es.drop_last(), k)
    }
}

/// The entries of a document: every value acceptable, no key of the
/// document twice, and every required key there.
pub open spec fn entries_valid(es: Seq<DocEntry>) -> bool {
    &&& forall|i: int| 0 <= i < es.len() ==> entry_ok(#[trigger] es[i])
    &&& forall|i: int, j: int|
        0 <= i < j < es.len() ==> entry_kind(#[trigger] es[i]) != entry_kind(#[trigger] es[j]) || entry_kind(es[i])
            == 9
    &&& forall|k: int| 0 <= k < 6 ==> (#[trigger] entry_of_kind(es, k)) is Some
}

/// The fields that the entries `es` give.
pub open spec fn fields_of(es: Seq<DocEntry>) -> DocumentFields {
    DocumentFields {
        module_id: match entry_of_kind(es, 0) {
            Some(DocEntry::ModuleId(v)) => v,
            _ => seq![],
        },
        digest: match entry_of_kind(es, 1) {
            Some(DocEntry::Digest(v)) => v,
            _ => seq![],
        },
        timestamp: match entry_of_kind(es, 2) {
            Some(DocEntry::Timestamp(t)) => t,
            _ => 0,
        },
        pcrs: match entry_of_kind(es, 3) {
            Some(DocEntry::Pcrs(p)) => p,
            _ => seq![],
        },
        certificate: match entry_of_kind(es, 4) {
            Some(DocEntry::Certificate(v)) => v,
            _ => seq![],
        },
        cabundle: match entry_of_kind(es, 5) {
            Some(DocEntry::Cabundle(b)) => b,
            _ => seq![],
        },
        public_key: match entry_of_kind(es, 6) {
            Some(DocEntry::PublicKey(v)) => v,
            _ => None,
        },
        user_data: match entry_of_kind(es, 7) {
            Some(DocEntry::UserData(v)) => v,
            _ => None,
        },
        nonce: match entry_of_kind(es, 8) {
            Some(DocEntry::Nonce(v)) => v,
            _ => None,
        },
    }
}

proof fn lemma_entry_of_kind_push(es: Seq<DocEntry>, e: DocEntry, k: int)
    ensures
        entry_of_kind(es.push(e), k) == if entry_kind(e) == k {
            Some(e)
        } else {
            entry_of_kind(es, k)
        },
{
    assert(es.push(e).drop_last() =~= es);
}

proof fn lemma_entry_of_kind_kind(es: Seq<DocEntry>, k: int)
    ensures
        entry_of_kind(es, k) matches Some(e) ==> entry_kind(e) == k,
    decreases es.len(),
{
    if es.len() > 0 && entry_kind(es.last()) != k {
        lemma_entry_of_kind_kind(es.drop_last(), k);
    }
}

proof fn lemma_field_kind(f: DocField, e: DocEntry)
    requires
        field_holds(f, e),
    ensures
        field_kind_of(f) == entry_kind(e),
{
    match e {
        DocEntry::ModuleId(_) => {},
        DocEntry::Digest(_) => {},
        DocEntry::Timestamp(_) => {},
        DocEntry::Pcrs(_) => {},
        DocEntry::Certificate(_) => {},
        DocEntry::Cabundle(_) => {},
        DocEntry::PublicKey(_) => {},
        DocEntry::UserData(_) => {},
        DocEntry::Nonce(_) => {},
        DocEntry::Other => {},
    }
}

proof fn lemma_kind_present(es: Seq<DocEntry>, j: int, k: int)
    requires
        0 <= j < es.len(),
        entry_kind(es[j]) == k,
    ensures
        entry_of_kind(es, k) is Some,
    decreases es.len(),
{
    if entry_kind(es.last()) != k {
        assert(j < es.len() - 1);
        assert(es.drop_last()[j] == es[j]);
        lemma_kind_present(es.drop_last(), j, k);
    }
}

proof fn lemma_entry_of_kind_found(es: Seq<DocEntry>, k: int)
    requires
        entry_of_kind(es, k) is Some,
    ensures
        exists|j: int| 0 <= j < es.len() && entry_kind(#[trigger] es[j]) == k,
    decreases es.len(),
{
    if entry_kind(es.last()) != k {
        lemma_entry_of_kind_found(es.drop_last(), k);
        let j = choose|j: int| 0 <= j < es.drop_last().len() && entry_kind(#[trigger] es.drop_last()[j]) == k;
        assert(es[j] == es.drop_last()[j]);
    } else {
        assert(entry_kind(es[es.len() - 1]) == k);
    }
}

/// A decoded entry of a document.
enum DocField {
    ModuleId(String),
    Digest(String),
    Timestamp(u64),
    Pcrs(std::collections::BTreeMap<u64, [u8; 48]>),
    Certificate(Vec<u8>),
    Cabundle(Vec<Vec<u8>>),
    PublicKey(Option<Vec<u8>>),
    UserData(Option<Vec<u8>>),
    Nonce(Option<Vec<u8>>),
    Other,
}

/// `f` holds what `e` says.
spec fn field_holds(f: DocField, e: DocEntry) -> bool {
    match (f, e) {
        (DocField::ModuleId(t), DocEntry::ModuleId(v)) => t@ == decode_utf8(v),
        (DocField::Digest(t), DocEntry::Digest(v)) => t@ == decode_utf8(v),
        (DocField::Timestamp(a), DocEntry::Timestamp(b)) => a == b,
        (DocField::Pcrs(m), DocEntry::Pcrs(p)) => pcr_map_of(m@, p),
        (DocField::Certificate(c), DocEntry::Certificate(v)) => c@ == v,
        (DocField::Cabundle(b), DocEntry::Cabundle(v)) => b@.len() == v.len() && forall|i: int|
            0 <= i < v.len() ==> (#[trigger] b@[i])@ == v[i],
        (DocField::PublicKey(w), DocEntry::PublicKey(v)) => opt_view(w) == v,
        (DocField::UserData(w), DocEntry::UserData(v)) => opt_view(w) == v,
        (DocField::Nonce(w), DocEntry::Nonce(v)) => opt_view(w) == v,
        (DocField::Other, DocEntry::Other) => true,
        _ => false,
    }
}

/// A slot for the entry of one key: empty exactly when no such entry was
/// read, and otherwise holding it.
spec fn slot_holds(o: Option<DocField>, e: Option<DocEntry>) -> bool {
    match (o, e) {
        (None, None) => true,
        (Some(f), Some(d)) => field_holds(f, d),
        _ => false,
    }
}

spec fn field_kind_of(f: DocField) -> int {
    match f {
        DocField::ModuleId(_) => 0,
        DocField::Digest(_) => 1,
        DocField::Timestamp(_) => 2,
        DocField::Pcrs(_) => 3,
        DocField::Certificate(_) => 4,
        DocField::Cabundle(_) => 5,
        DocField::PublicKey(_) => 6,
        DocField::UserData(_) => 7,
        DocField::Nonce(_) => 8,
        DocField::Other => 9,
    }
}

fn field_kind(f: &DocField) -> (r: usize)
    ensures
        r == field_kind_of(*f),
        r < 10,
{
    match f {
        DocField::ModuleId(_) => 0,
        DocField::Digest(_) => 1,
        DocField::Timestamp(_) => 2,
        DocField::Pcrs(_) => 3,
        DocField::Certificate(_) => 4,
        DocField::Cabundle(_) => 5,
        DocField::PublicKey(_) => 6,
        DocField::UserData(_) => 7,
        DocField::Nonce(_) => 8,
        DocField::Other => 9,
    }
}

/// Reads a text string at `pos` as UTF-8.
fn read_text(s: &[u8], pos: usize) -> (r: Option<(String, usize)>)
    ensures
        match string_at(s@, pos as int, MAJOR_TEXT) {
            Some((v, q)) => if valid_utf8(v) {
                r matches Some((t, q2)) && t@ == decode_utf8(v) && q2 == q
            } else {
                r is None
            },
            None => r is None,
        },
{
    match read_string(s, pos, MAJOR_TEXT) {
        Some((a, b)) => match utf8_string(copy_range(s, a, b)) {
            Some(t) => Some((t, b)),
            None => None,
        },
        None => None,
    }
}

/// Reads the entry at `pos`.
fn read_entry(s: &[u8], pos: usize) -> (r: Option<(DocField, usize)>)
    ensures
        match entry_at(s@, pos as int) {
            Some((e, q)) => if entry_ok(e) {
                r matches Some((f, q2)) && q2 == q && field_holds(f, e)
            } else {
                r is None
            },
            None => r is None,
        },
{
    reveal(entry_at);
    let (a, b) = match read_string(s, pos, MAJOR_TEXT) {
        Some(x) => x,
        None => return None,
    };
    let k0: [u8; 9] = [0x6d, 0x6f, 0x64, 0x75, 0x6c, 0x65, 0x5f, 0x69, 0x64];
    let k1: [u8; 6] = [0x64, 0x69, 0x67, 0x65, 0x73, 0x74];
    let k2: [u8; 9] = [0x74, 0x69, 0x6d, 0x65, 0x73, 0x74, 0x61, 0x6d, 0x70];
    let k3: [u8; 4] = [0x70, 0x63, 0x72, 0x73];
    let k4: [u8; 11] = [0x63, 0x65, 0x72, 0x74, 0x69, 0x66, 0x69, 0x63, 0x61, 0x74, 0x65];
    let k5: [u8; 8] = [0x63, 0x61, 0x62, 0x75, 0x6e, 0x64, 0x6c, 0x65];
    let k6: [u8; 10] = [0x70, 0x75, 0x62, 0x6c, 0x69, 0x63, 0x5f, 0x6b, 0x65, 0x79];
    let k7: [u8; 9] = [0x75, 0x73, 0x65, 0x72, 0x5f, 0x64, 0x61, 0x74, 0x61];
    let k8: [u8; 5] = [0x6e, 0x6f, 0x6e, 0x63, 0x65];
    assert(k0@ =~= module_id_key());
    assert(k1@ =~= digest_key());
    assert(k2@ =~= timestamp_key());
    assert(k3@ =~= pcrs_key());
    assert(k4@ =~= certificate_key());
    assert(k5@ =~= cabundle_key());
    assert(k6@ =~= public_key_key());
    assert(k7@ =~= user_data_key());
    assert(k8@ =~= nonce_key());
    if range_equals(s, a, b, &k0) {
        match read_text(s, b) {
            Some((t, q)) => Some((DocField::ModuleId(t), q)),
            None => None,
        }
    } else if range_equals(s, a, b, &k1) {
        match read_text(s, b) {
            Some((t, q)) => Some((DocField::Digest(t), q)),
            None => None,
        }
    } else if range_equals(s, a, b, &k2) {
        match read_uint(s, b) {
            Some((t, q)) => Some((DocField::Timestamp(t), q)),
            None => None,
        }
    } else if range_equals(s, a, b, &k3) {
        match read_container(s, b, MAJOR_MAP) {
            Some((n, q)) => match read_pcr_entries(s, q, n) {
                Some((m, r)) => Some((DocField::Pcrs(m), r)),
                None => None,
            },
            None => None,
        }
    } else if range_equals(s, a, b, &k4) {
        match read_string(s, b, MAJOR_BYTES) {
            Some((c0, c1)) => Some((DocField::Certificate(copy_range(s, c0, c1)), c1)),
            None => None,
        }
    } else if range_equals(s, a, b, &k5) {
        match read_container(s, b, MAJOR_ARRAY) {
            Some((n, q)) => match read_byte_strings(s, q, n) {
                Some((v, r)) => Some((DocField::Cabundle(v), r)),
                None => None,
            },
            None => None,
        }
    } else if range_equals(s, a, b, &k6) {
        match read_optional_bytes(s, b) {
            Some((v, q)) => Some((DocField::PublicKey(v), q)),
            None => None,
        }
    } else if range_equals(s, a, b, &k7) {
        match read_optional_bytes(s, b) {
            Some((v, q)) => Some((DocField::UserData(v), q)),
            None => None,
        }
    } else if range_equals(s, a, b, &k8) {
        match read_optional_bytes(s, b) {
            Some((v, q)) => Some((DocField::Nonce(v), q)),
            None => None,
        }
    } else {
        match skip_item(s, b, MAX_NESTING) {
            Some(q) => Some((DocField::Other, q)),
            None => None,
        }
    }
}

/// The reading of the CBOR map `s` of an attestation document; `None` when
/// it does not read: a key that is not a text, a repeated key of the
/// document, a required key missing, an entry of the wrong type or an
/// unknown entry that is not well-formed, bytes left over, a text that is not UTF-8, a PCR
/// value that is not 48 bytes long, or a repeated PCR index.
#[verifier::opaque]
pub open spec fn document_fields(s: Seq<u8>) -> Option<DocumentFields> {
    match container_at(s, 0, MAJOR_MAP) {
        None => None,
        Some((n, p0)) => match entries_at(s, p0, n) {
            None => None,
            Some((es, p1)) => if p1 == s.len() && entries_valid(es) {
                Some(fields_of(es))
            } else {
                None
            },
        },
    }
}

/// `d` holds what `f` says.
pub open spec fn document_of(d: AttestationDocument, f: DocumentFields) -> bool {
    &&& d.module_id@ == decode_utf8(f.module_id)
    &&& d.digest@ == decode_utf8(f.digest)
    &&& d.timestamp == f.timestamp
    &&& pcr_map_of(d.pcrs@, f.pcrs)
    &&& d.certificate@ == f.certificate
    &&& d.cabundle@.len() == f.cabundle.len()
    &&& forall|i: int| 0 <= i < f.cabundle.len() ==> (#[trigger] d.cabundle@[i])@ == f.cabundle[i]
    &&& opt_view(d.public_key) == f.public_key
    &&& opt_view(d.user_data) == f.user_data
    &&& opt_view(d.nonce) == f.nonce
}

/// Decodes the CBOR map `s` of an attestation document.
pub fn parse_document(s: &[u8]) -> (r: Option<AttestationDocument>)
    ensures
        match document_fields(s@) {
            Some(f) => r matches Some(d) && document_of(d, f),
            None => r is None,
        },
{
    reveal(document_fields);
    let (n, p0) = match read_container(s, 0, MAJOR_MAP) {
        Some(x) => x,
        None => return None,
    };
    let ghost whole = entries_at(s@, p0 as int, n as nat);
    let mut slots: Vec<Option<DocField>> = vec![None, None, None, None, None, None, None, None, None];
    let mut cur: usize = p0;
    let mut i: u64 = 0;
    let ghost done: Seq<DocEntry> = seq![];
    while i < n
        invariant
            0 <= i <= n,
            done.len() == i,
            slots@.len() == 9,
            whole == entries_at(s@, p0 as int, n as nat),
            container_at(s@, 0, MAJOR_MAP) == Some((n as nat, p0 as int)),
            forall|t: int| 0 <= t < i ==> entry_ok(#[trigger] done[t]),
            forall|t: int, u: int|
                0 <= t < u < i ==> entry_kind(#[trigger] done[t]) != entry_kind(#[trigger] done[u]) || entry_kind(
                    done[t],
                ) == 9,
            forall|k: int| 0 <= k < 9 ==> slot_holds(#[trigger] slots@[k], entry_of_kind(done, k)),
            whole == match entries_at(s@, cur as int, (n - i) as nat) {
                Some((rest, q)) => Some((done + rest, q)),
                None => None,
            },
        decreases n - i,
    {
        let ghost at = entry_at(s@, cur as int);
        proof {
            if let Some((e, p)) = at {
                let tail = entries_at(s@, p, (n - i - 1) as nat);
                assert(entries_at(s@, cur as int, (n - i) as nat) == match tail {
                    None => None,
                    Some((rest, q)) => Some((seq![e] + rest, q)),
                });
                if let Some((rest, q)) = tail {
                    assert(done + (seq![e] + rest) =~= done.push(e) + rest);
                    assert((done.push(e) + rest)[i as int] == e);
                    assert(whole == Some((done.push(e) + rest, q)));
                } else {
                    assert(whole is None);
                }
            } else {
                assert(entries_at(s@, cur as int, (n - i) as nat) is None);
                assert(whole is None);
            }
        }
        let (f, q) = match read_entry(s, cur) {
            Some(x) => x,
            None => {
                proof {
                    if let Some((es, p1)) = whole {
                        let e = at->Some_0.0;
                        assert(es[i as int] == e);
                        assert(!entry_ok(es[i as int]));
                        assert(!entries_valid(es));
                    }
                    reveal(document_fields);
                }
                return None;
            },
        };
        let ghost e = at->Some_0.0;
        let k = field_kind(&f);
        proof {
            lemma_field_kind(f, e);
        }
        if k < 9 && slots[k].is_some() {
            proof {
                lemma_entry_of_kind_found(done, k as int);
                let j = choose|j: int| 0 <= j < done.len() && entry_kind(#[trigger] done[j]) == k;
                if let Some((es, _e)) = whole {
                    assert(es[j] == done[j]);
                    assert(es[i as int] == e);
                    assert(entry_kind(es[j]) == entry_kind(es[i as int]));
                    assert(!entries_valid(es));
                }
                reveal(document_fields);
            }
            return None;
        }
        if k < 9 {
            slots[k] = Some(f);
        }
        proof {
            let nd = done.push(e);
            assert forall|kk: int| 0 <= kk < 9 implies slot_holds(#[trigger] slots@[kk], entry_of_kind(nd, kk)) by {
                lemma_entry_of_kind_push(done, e, kk);
            }
            assert forall|t: int| 0 <= t < nd.len() implies entry_ok(#[trigger] nd[t]) by {
                if t < i {
                    assert(nd[t] == done[t]);
                }
            }
            assert forall|t: int, u: int| 0 <= t < u < nd.len() implies entry_kind(#[trigger] nd[t]) != entry_kind(#[trigger] nd[u]) || entry_kind(nd[t]) == 9 by {
                if u == i {
                    assert(nd[t] == done[t]);
                    if entry_kind(done[t]) == k {
                        assert(entry_of_kind(done, k as int) is Some) by {
                            lemma_kind_present(done, t, k as int);
                        }
                    }
                } else {
                    assert(nd[t] == done[t]);
                    assert(nd[u] == done[u]);
                }
            }
            done = nd;
        }
        cur = q;
        i = i + 1;
    }
    proof {
        assert(done + seq![] =~= done);
        assert forall|k: int| 0 <= k < 9 implies (#[trigger] entry_of_kind(done, k) matches Some(e) ==> entry_kind(e) == k) by {
            lemma_entry_of_kind_kind(done, k);
        }
        assert(slot_holds(slots@[0], entry_of_kind(done, 0)));
        assert(slot_holds(slots@[1], entry_of_kind(done, 1)));
        assert(slot_holds(slots@[2], entry_of_kind(done, 2)));
        assert(slot_holds(slots@[3], entry_of_kind(done, 3)));
        assert(slot_holds(slots@[4], entry_of_kind(done, 4)));
        assert(slot_holds(slots@[5], entry_of_kind(done, 5)));
        assert(slot_holds(slots@[6], entry_of_kind(done, 6)));
        assert(slot_holds(slots@[7], entry_of_kind(done, 7)));
        assert(slot_holds(slots@[8], entry_of_kind(done, 8)));
    }
    if cur != s.len() {
        return None;
    }
    let s8 = match slots.pop() {
        Some(x) => x,
        None => return None,
    };
    let s7 = match slots.pop() {
        Some(x) => x,
        None => return None,
    };
    let s6 = match slots.pop() {
        Some(x) => x,
        None => return None,
    };
    let s5 = match slots.pop() {
        Some(x) => x,
        None => return None,
    };
    let s4 = match slots.pop() {
        Some(x) => x,
        None => return None,
    };
    let s3 = match slots.pop() {
        Some(x) => x,
        None => return None,
    };
    let s2 = match slots.pop() {
        Some(x) => x,
        None => return None,
    };
    let s1 = match slots.pop() {
        Some(x) => x,
        None => return None,
    };
    let s0 = match slots.pop() {
        Some(x) => x,
        None => return None,
    };
    let module_id = match s0 {
        Some(DocField::ModuleId(t)) => t,
        _ => return None,
    };
    let digest = match s1 {
        Some(DocField::Digest(t)) => t,
        _ => return None,
    };
    let timestamp = match s2 {
        Some(DocField::Timestamp(t)) => t,
        _ => return None,
    };
    let pcrs = match s3 {
        Some(DocField::Pcrs(m)) => m,
        _ => return None,
    };
    let certificate = match s4 {
        Some(DocField::Certificate(c)) => c,
        _ => return None,
    };
    let cabundle = match s5 {
        Some(DocField::Cabundle(b)) => b,
        _ => return None,
    };
    let public_key = match s6 {
        Some(DocField::PublicKey(v)) => v,
        None => None,
        _ => return None,
    };
    let user_data = match s7 {
        Some(DocField::UserData(v)) => v,
        None => None,
        _ => return None,
    };
    let nonce = match s8 {
        Some(DocField::Nonce(v)) => v,
        None => None,
        _ => return None,
    };
    Some(
        AttestationDocument {
            module_id,
            timestamp,
            digest,
            pcrs,
            certificate,
            cabundle,
            public_key,
            user_data,
            nonce,
        },
    )
}

/// The head byte of CBOR tag 18, which marks a `COSE_Sign1` message.
pub const COSE_SIGN1_TAG: u8 = 0xd2;

/// The protected header, payload and signature of the `COSE_Sign1` message
/// `s`: an array of four items, optionally under tag 18: the protected
/// header, a byte string; the unprotected header, a map of well-formed items
/// (nested at most `MAX_NESTING` deep), which is not kept; the payload and
/// the signature, byte strings.
#[verifier::opaque]
pub open spec fn envelope_fields(s: Seq<u8>) -> Option<(Seq<u8>, Seq<u8>, Seq<u8>)> {
    let p0: int = if 0 < s.len() && s[0] == COSE_SIGN1_TAG {
        1
    } else {
        0
    };
    match container_at(s, p0, MAJOR_ARRAY) {
        None => None,
        Some((n, p1)) => match string_at(s, p1, MAJOR_BYTES) {
            None => None,
            Some((protected, p2)) => match container_at(s, p2, MAJOR_MAP) {
                None => None,
                Some((_m, _q)) => match item_end(s, p2, MAX_NESTING as nat) {
                    None => None,
                    Some(p3) => match string_at(s, p3, MAJOR_BYTES) {
                        None => None,
                        Some((payload, p4)) => match string_at(s, p4, MAJOR_BYTES) {
                            None => None,
                            Some((signature, p5)) => if n == 4 && p5 == s.len() {
                                Some((protected, payload, signature))
                            } else {
                                None
                            },
                        },
                    },
                },
            },
        },
    }
}

/// The reading of an attestation report: the envelope's protected header,
/// payload and signature, and the fields of the document in the payload.
pub open spec fn report_fields(s: Seq<u8>) -> Option<(Seq<u8>, Seq<u8>, Seq<u8>, DocumentFields)> {
    match envelope_fields(s) {
        None => None,
        Some((protected, payload, signature)) => match document_fields(payload) {
            None => None,
            Some(f) => Some((protected, payload, signature, f)),
        },
    }
}

/// `rep` holds the protected header `h`, payload `p` and signature `g` of
/// an envelope, and a document with the fields `f`.
pub open spec fn report_holds(
    rep: AttestationReport,
    h: Seq<u8>,
    p: Seq<u8>,
    g: Seq<u8>,
    f: DocumentFields,
) -> bool {
    &&& rep.cose.protected@ == h
    &&& rep.cose.payload@ == p
    &&& rep.cose.signature@ == g
    &&& document_of(rep.doc, f)
}

/// Decodes a `COSE_Sign1` message into its protected header, payload and
/// signature.
pub fn parse_envelope(s: &[u8]) -> (r: Option<CoseSign1>)
    ensures
        match envelope_fields(s@) {
            Some((h, p, g)) => r matches Some(c) && c.protected@ == h && c.payload@ == p && c.signature@ == g,
            None => r is None,
        },
{
    reveal(envelope_fields);
    let p0: usize = if 0 < s.len() && s[0] == COSE_SIGN1_TAG {
        1
    } else {
        0
    };
    let (n, p1) = match read_container(s, p0, MAJOR_ARRAY) {
        Some(x) => x,
        None => return None,
    };
    let (h0, h1) = match read_string(s, p1, MAJOR_BYTES) {
        Some(x) => x,
        None => return None,
    };
    if read_container(s, h1, MAJOR_MAP).is_none() {
        return None;
    }
    let p3 = match skip_item(s, h1, MAX_NESTING) {
        Some(x) => x,
        None => return None,
    };
    let (a0, a1) = match read_string(s, p3, MAJOR_BYTES) {
        Some(x) => x,
        None => return None,
    };
    let (g0, g1) = match read_string(s, a1, MAJOR_BYTES) {
        Some(x) => x,
        None => return None,
    };
    if n != 4 || g1 != s.len() {
        return None;
    }
    Some(
        CoseSign1 {
            protected: copy_range(s, h0, h1),
            payload: copy_range(s, a0, a1),
            signature: copy_range(s, g0, g1),
        },
    )
}

impl AttestationReport {
    /// Decodes an attestation report: a `COSE_Sign1` message whose payload
    /// is the CBOR map of an attestation document.
    pub fn parse(bytes: &[u8]) -> (r: Result<AttestationReport, VerifierError>)
        ensures
            match report_fields(bytes@) {
                Some((h, p, g, f)) => r matches Ok(rep) && report_holds(rep, h, p, g, f),
                None => r matches Err(VerifierError::MalformedReport),
            },
    {
        let cose = match parse_envelope(bytes) {
            Some(c) => c,
            None => return Err(VerifierError::MalformedReport),
        };
        let doc = match parse_document(cose.payload.as_slice()) {
            Some(d) => d,
            None => return Err(VerifierError::MalformedReport),
        };
        Ok(AttestationReport { cose, doc })
    }
}

} // verus!
