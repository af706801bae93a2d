//! Validation of the certificate chain of an attestation: the CA bundle
//! (root first) followed by the leaf certificate.
//!
//! The first `trusted_prefix_len` certificates are trusted as they are. Each
//! later certificate must name its parent's subject as issuer (a root, at
//! position 0, names its own), carry an ECDSA/P-384 SHA-384 signature that
//! verifies under its parent's key (the root's under its own), and be valid
//! at the attestation's time.

use vstd::prelude::*;
use vstd::string::*;
use crate::text::{decimal, push_decimal};
use crate::cert::{
    certificate_info, copy_range, parse_certificate, parsed_as, range_equals, CertInfo,
    ParsedCertificate,
};
use crate::ecdsa::{
    decode_sec1_key, decode_signature, ecdsa_sha384_verify, is_p384_signature_encoding,
    p384_ecdsa_sha384_verifies, p384_sec1_key_valid,
};

verus! {

/// Name for the Keccak-256 digest of `data`, as `alloy_primitives::keccak256`
/// computes it.
pub uninterp spec fn keccak256_digest(data: Seq<u8>) -> Seq<u8>;

/// Calls `alloy_primitives::keccak256`. The contract claims only that the
/// 32-byte result is a function of the input, named `keccak256_digest`.
#[verifier::external_body]
fn keccak256(data: &[u8]) -> (r: [u8; 32])
    ensures
        r@ == keccak256_digest(data@),
{
    alloy_primitives::keccak256(data).0
}

/// Why a link of the chain was rejected.
#[derive(Debug, PartialEq, Eq, Structural, Clone, Copy)]
pub enum LinkFault {
    /// The certificate's issuer is not its parent's subject.
    IssuerMismatch,
    /// The parent's public key is not a valid P-384 point.
    InvalidIssuerKey,
    /// The certificate's signature is not a valid P-384 signature.
    InvalidSignature,
    /// The signature does not verify under the parent's key.
    SignatureMismatch,
    /// The attestation time is before the certificate's `notBefore`.
    NotYetValid,
    /// The attestation time is after the certificate's `notAfter`.
    Expired,
}

/// Why a certificate chain was rejected.
#[derive(Debug)]
pub enum ChainError {
    /// More certificates are to be trusted than the chain holds.
    TrustedPrefixTooLong(usize),
    /// The certificate at this position (root first) does not read.
    MalformedCertificate(usize),
    /// The certificate at this position fails the check named.
    Link(usize, LinkFault),
}

/// The mathematical content of a [`ChainError`].
pub enum ChainFault {
    TrustedPrefixTooLong(nat),
    MalformedCertificate(nat),
    Link(nat, LinkFault),
}

impl View for ChainError {
    type V = ChainFault;

    open spec fn view(&self) -> ChainFault {
        match self {
            ChainError::TrustedPrefixTooLong(n) => ChainFault::TrustedPrefixTooLong(*n as nat),
            ChainError::MalformedCertificate(i) => ChainFault::MalformedCertificate(*i as nat),
            ChainError::Link(i, k) => ChainFault::Link(*i as nat, *k),
        }
    }
}

/// The phrase that describes a link fault.
pub open spec fn link_phrase(k: LinkFault) -> Seq<char> {
    match k {
        LinkFault::IssuerMismatch => "issuer does not match its parent's subject"@,
        LinkFault::InvalidIssuerKey => "issuer public key is invalid"@,
        LinkFault::InvalidSignature => "signature is malformed"@,
        LinkFault::SignatureMismatch => "signature does not verify"@,
        LinkFault::NotYetValid => "not yet valid"@,
        LinkFault::Expired => "expired"@,
    }
}

/// The message that describes a chain fault.
pub open spec fn chain_message(f: ChainFault) -> Seq<char> {
    match f {
        ChainFault::TrustedPrefixTooLong(n) =>
            "trusted prefix length "@ + decimal(n) + " exceeds the chain length"@,
        ChainFault::MalformedCertificate(i) => "certificate "@ + decimal(i) + " is malformed"@,
        ChainFault::Link(i, k) => "certificate "@ + decimal(i) + ": "@ + link_phrase(k),
    }
}

fn link_phrase_str(k: LinkFault) -> (s: &'static str)
    ensures
        s@ == link_phrase(k),
{
    match k {
        LinkFault::IssuerMismatch => "issuer does not match its parent's subject",
        LinkFault::InvalidIssuerKey => "issuer public key is invalid",
        LinkFault::InvalidSignature => "signature is malformed",
        LinkFault::SignatureMismatch => "signature does not verify",
        LinkFault::NotYetValid => "not yet valid",
        LinkFault::Expired => "expired",
    }
}

impl ChainError {
    /// The human-readable description of this error.
    pub fn message(&self) -> (s: String)
        ensures
            s@ == chain_message(self@),
    {
        match self {
            ChainError::TrustedPrefixTooLong(n) => {
                let mut s = String::from_str("trusted prefix length ");
                push_decimal(&mut s, *n as u64);
                s.append(" exceeds the chain length");
                s
            },
            ChainError::MalformedCertificate(i) => {
                let mut s = String::from_str("certificate ");
                push_decimal(&mut s, *i as u64);
                s.append(" is malformed");
                s
            },
            ChainError::Link(i, k) => {
                let mut s = String::from_str("certificate ");
                push_decimal(&mut s, *i as u64);
                s.append(": ");
                s.append(link_phrase_str(*k));
                s
            },
        }
    }
}

/// The DER certificates of a chain, root first: the CA bundle, then the leaf.
pub open spec fn chain_ders(cabundle: Seq<Vec<u8>>, leaf: Seq<u8>) -> Seq<Seq<u8>> {
    cabundle.map_values(|v: Vec<u8>| v@).push(leaf)
}

/// The reading of the certificate at position `i`.
pub open spec fn info_at(ders: Seq<Seq<u8>>, i: int) -> CertInfo {
    certificate_info(ders[i]).unwrap()
}

/// The position of the parent of the certificate at `i` (a root is its own).
pub open spec fn parent_of(i: int) -> int {
    if i == 0 {
        0
    } else {
        i - 1
    }
}

/// The first check, in order, that `child` fails against `parent` at UNIX
/// time `t`.
pub open spec fn link_fault(child: CertInfo, parent: CertInfo, t: int) -> Option<LinkFault> {
    if child.issuer != parent.subject {
        Some(LinkFault::IssuerMismatch)
    } else if !p384_sec1_key_valid(parent.key) {
        Some(LinkFault::InvalidIssuerKey)
    } else if !is_p384_signature_encoding(child.signature) {
        Some(LinkFault::InvalidSignature)
    } else if !p384_ecdsa_sha384_verifies(parent.key, child.tbs, child.signature) {
        Some(LinkFault::SignatureMismatch)
    } else if t < child.not_before {
        Some(LinkFault::NotYetValid)
    } else if t > child.not_after {
        Some(LinkFault::Expired)
    } else {
        None
    }
}

/// The first position from `i` on whose certificate does not read.
pub open spec fn first_malformed_from(ders: Seq<Seq<u8>>, i: int) -> Option<nat>
    decreases ders.len() - i,
{
    if i < 0 || i >= ders.len() {
        None
    } else if certificate_info(ders[i]) is None {
        Some(i as nat)
    } else {
        first_malformed_from(ders, i + 1)
    }
}

/// Every certificate from `i` on reads when none is malformed.
pub proof fn lemma_none_malformed(ders: Seq<Seq<u8>>, i: int, q: int)
    requires
        first_malformed_from(ders, i) is None,
        0 <= i <= q < ders.len(),
    ensures
        certificate_info(ders[q]) is Some,
    decreases q - i,
{
    if i < q {
        lemma_none_malformed(ders, i + 1, q);
    }
}

/// The first position from `i` on whose link fails, with the failure.
pub open spec fn first_bad_link_from(ders: Seq<Seq<u8>>, t: int, i: int) -> Option<(nat, LinkFault)>
    decreases ders.len() - i,
{
    if i < 0 || i >= ders.len() {
        None
    } else {
        match link_fault(info_at(ders, i), info_at(ders, parent_of(i)), t) {
            Some(k) => Some((i as nat, k)),
            None => first_bad_link_from(ders, t, i + 1),
        }
    }
}

/// The reason a chain is rejected, checked in this order: the trusted
/// prefix fits in the chain; every certificate reads; every link after the
/// trusted prefix holds at UNIX time `t`. `None` when the chain is accepted.
pub open spec fn chain_fault(ders: Seq<Seq<u8>>, prefix: nat, t: int) -> Option<ChainFault> {
    if prefix > ders.len() {
        Some(ChainFault::TrustedPrefixTooLong(prefix))
    } else {
        match first_malformed_from(ders, 0) {
            Some(i) => Some(ChainFault::MalformedCertificate(i)),
            None => match first_bad_link_from(ders, t, prefix as int) {
                Some((i, k)) => Some(ChainFault::Link(i, k)),
                None => None,
            },
        }
    }
}

/// The attestation time in seconds of a timestamp in milliseconds.
pub open spec fn seconds_of(timestamp_ms: u64) -> int {
    timestamp_ms as int / 1000
}

/// The chain of `cabundle` and `leaf` verifies with the first
/// `prefix` certificates trusted, at the time `timestamp_ms`.
pub open spec fn chain_verifies(cabundle: Seq<Vec<u8>>, leaf: Seq<u8>, prefix: nat, timestamp_ms: u64) -> bool {
    chain_fault(chain_ders(cabundle, leaf), prefix, seconds_of(timestamp_ms)) is None
}

/// The Keccak-256 digests of the chain's certificates, root first.
pub open spec fn chain_digests(ders: Seq<Seq<u8>>) -> Seq<Seq<u8>> {
    ders.map_values(|d: Seq<u8>| keccak256_digest(d))
}

/// The `notAfter` times of the chain's certificates, root first.
pub open spec fn chain_expiries(ders: Seq<Seq<u8>>) -> Seq<u64> {
    Seq::new(ders.len(), |i: int| info_at(ders, i).not_after as u64)
}

/// The 32-byte digests as byte sequences.
pub open spec fn digest_views(d: Seq<[u8; 32]>) -> Seq<Seq<u8>> {
    d.map_values(|x: [u8; 32]| x@)
}

/// The outcome of a verified chain: a Keccak-256 digest per certificate,
/// each certificate's expiry (root first, same length), and the leaf's
/// public key.
#[derive(Debug)]
pub struct VerifiedChain {
    certs: Vec<[u8; 32]>,
    cert_expiries: Vec<u64>,
    leaf_public_key: Vec<u8>,
}

impl VerifiedChain {
    #[verifier::type_invariant]
    spec fn lengths_agree(self) -> bool {
        self.certs@.len() == self.cert_expiries@.len()
    }

    /// The certificate digests.
    pub closed spec fn spec_certs(self) -> Seq<[u8; 32]> {
        self.certs@
    }

    /// The certificate expiries.
    pub closed spec fn spec_cert_expiries(self) -> Seq<u64> {
        self.cert_expiries@
    }

    /// The leaf certificate's public key.
    pub closed spec fn spec_leaf_public_key(self) -> Seq<u8> {
        self.leaf_public_key@
    }

    /// The leaf certificate's public key (SEC1).
    pub fn leaf_public_key(&self) -> (r: &[u8])
        ensures
            r@ == self.spec_leaf_public_key(),
    {
        self.leaf_public_key.as_slice()
    }

    /// The certificate digests and the expiries, of equal length.
    pub fn into_parts(self) -> (r: (Vec<[u8; 32]>, Vec<u64>))
        ensures
            r.0@ == self.spec_certs(),
            r.1@ == self.spec_cert_expiries(),
            r.0@.len() == r.1@.len(),
    {
        proof {
            use_type_invariant(&self);
        }
        let VerifiedChain { certs, cert_expiries, leaf_public_key: _ } = self;
        (certs, cert_expiries)
    }
}

/// What a parsed certificate says, as a [`CertInfo`].
pub open spec fn info_of(p: ParsedCertificate) -> CertInfo {
    CertInfo {
        tbs: p.tbs@,
        issuer: p.issuer@,
        subject: p.subject@,
        not_before: p.not_before as int,
        not_after: p.not_after as int,
        key: p.key@,
        signature: p.signature@,
    }
}

/// The first check that `child` fails against `parent` at time `t`.
pub fn check_link(child: &ParsedCertificate, parent: &ParsedCertificate, t: u64) -> (r: Option<LinkFault>)
    ensures
        r == link_fault(info_of(*child), info_of(*parent), t as int),
{
    let issuer_matches: bool = range_equals(
        child.issuer.as_slice(),
        0,
        child.issuer.len(),
        parent.subject.as_slice(),
    );
    assert(child.issuer@.subrange(0, child.issuer@.len() as int) =~= child.issuer@);
    if !issuer_matches {
        return Some(LinkFault::IssuerMismatch);
    }
    if decode_sec1_key(parent.key.as_slice()).is_err() {
        return Some(LinkFault::InvalidIssuerKey);
    }
    if decode_signature(child.signature.as_slice()).is_err() {
        return Some(LinkFault::InvalidSignature);
    }
    if ecdsa_sha384_verify(parent.key.as_slice(), child.tbs.as_slice(), child.signature.as_slice()).is_err() {
        return Some(LinkFault::SignatureMismatch);
    }
    if t < child.not_before {
        return Some(LinkFault::NotYetValid);
    }
    if t > child.not_after {
        return Some(LinkFault::Expired);
    }
    None
}

/// The first `n` parsed certificates are the readings of the first `n`
/// certificates of `ders`.
pub open spec fn parsed_prefix(ders: Seq<Seq<u8>>, ps: Seq<ParsedCertificate>, n: int) -> bool {
    forall|j: int|
        0 <= j < n ==> parsed_as(#[trigger] ps[j], info_at(ders, j))
}

proof fn lemma_push_parsed(ders: Seq<Seq<u8>>, before: Seq<ParsedCertificate>, p: ParsedCertificate, i: int)
    requires
        parsed_prefix(ders, before, i),
        before.len() == i,
        certificate_info(ders[i]) is Some,
        parsed_as(p, info_at(ders, i)),
    ensures
        parsed_prefix(ders, before.push(p), i + 1),
{
    let after = before.push(p);
    assert(after[i] == p);
    assert forall|j: int| 0 <= j < i + 1 implies parsed_as(#[trigger] after[j], info_at(ders, j)) by {
        if j < i {
            assert(after[j] == before[j]);
            assert(parsed_as(before[j], info_at(ders, j)));
        }
    }
    assert(parsed_prefix(ders, after, i + 1));
}

/// Validates the chain `cabundle` (root first) followed by `leaf`, trusting
/// its first `trusted_prefix_len` certificates, at `timestamp_ms`
/// (milliseconds since the UNIX epoch).
pub fn verify_chain(cabundle: &Vec<Vec<u8>>, leaf: &[u8], trusted_prefix_len: usize, timestamp_ms: u64) -> (r: Result<
    VerifiedChain,
    ChainError,
>)
    ensures
        match chain_fault(chain_ders(cabundle@, leaf@), trusted_prefix_len as nat, seconds_of(timestamp_ms)) {
            Some(f) => r matches Err(e) && e@ == f,
            None => r matches Ok(c) && {
                let ders = chain_ders(cabundle@, leaf@);
                &&& digest_views(c.spec_certs()) == chain_digests(ders)
                &&& c.spec_cert_expiries() == chain_expiries(ders)
                &&& c.spec_leaf_public_key() == info_at(ders, ders.len() - 1).key
                &&& c.spec_certs().len() == cabundle@.len() + 1
                &&& forall|i: int|
                    0 <= i < cabundle@.len() ==> (#[trigger] c.spec_certs()[i])@ == keccak256_digest(
                        cabundle@[i]@,
                    )
                &&& c.spec_certs()[cabundle@.len() as int]@ == keccak256_digest(leaf@)
                &&& forall|i: int| 0 <= i < cabundle@.len() ==> (#[trigger] certificate_info(cabundle@[i]@)) is Some
                &&& forall|i: int|
                    0 <= i < cabundle@.len() ==> (#[trigger] c.spec_cert_expiries()[i]) == (certificate_info(
                        cabundle@[i]@,
                    )->Some_0.not_after as u64)
                &&& certificate_info(leaf@) matches Some(info) && c.spec_cert_expiries()[cabundle@.len() as int]
                    == info.not_after as u64
                &&& certificate_info(leaf@) matches Some(info) && c.spec_leaf_public_key() == info.key
            },
        },
{
    let ghost ders = chain_ders(cabundle@, leaf@);
    let n_bundle: usize = cabundle.len();
    assert(ders.len() == n_bundle + 1);
    if trusted_prefix_len > n_bundle && trusted_prefix_len - n_bundle > 1 {
        return Err(ChainError::TrustedPrefixTooLong(trusted_prefix_len));
    }
    let mut parsed: Vec<ParsedCertificate> = Vec::new();
    let mut i: usize = 0;
    while i < n_bundle
        invariant
            0 <= i <= n_bundle == cabundle@.len(),
            ders == chain_ders(cabundle@, leaf@),
            ders.len() == n_bundle + 1,
            trusted_prefix_len <= ders.len(),
            parsed@.len() == i,
            first_malformed_from(ders, 0) == first_malformed_from(ders, i as int),
            parsed_prefix(ders, parsed@, i as int),
        decreases n_bundle - i,
    {
        let c: &[u8] = cabundle[i].as_slice();
        assert(c@ == ders[i as int]);
        match parse_certificate(c) {
            Some(p) => {
                assert(certificate_info(ders[i as int]) is Some);
                let ghost before = parsed@;
                let ghost pv = p;
                parsed.push(p);
                proof {
                    lemma_push_parsed(ders, before, pv, i as int);
                }
            },
            None => {
                return Err(ChainError::MalformedCertificate(i));
            },
        }
        i = i + 1;
    }
    assert(ders[n_bundle as int] == leaf@);
    match parse_certificate(leaf) {
        Some(p) => {
            assert(certificate_info(ders[n_bundle as int]) is Some);
            let ghost before = parsed@;
            let ghost pv = p;
            parsed.push(p);
            proof {
                lemma_push_parsed(ders, before, pv, n_bundle as int);
            }
        },
        None => {
            return Err(ChainError::MalformedCertificate(n_bundle));
        },
    }
    assert(first_malformed_from(ders, n_bundle + 1) is None);
    let n: usize = parsed.len();
    let t: u64 = timestamp_ms / 1000;
    let mut k: usize = trusted_prefix_len;
    while k < n
        invariant
            n == parsed@.len() == ders.len(),
            ders == chain_ders(cabundle@, leaf@),
            trusted_prefix_len <= k <= n,
            first_malformed_from(ders, 0) is None,
            t == seconds_of(timestamp_ms),
            first_bad_link_from(ders, t as int, trusted_prefix_len as int) == first_bad_link_from(
                ders,
                t as int,
                k as int,
            ),
            parsed_prefix(ders, parsed@, n as int),
        decreases n - k,
    {
        let parent: usize = if k == 0 {
            0
        } else {
            k - 1
        };
        assert(parsed_as(parsed@[k as int], info_at(ders, k as int)));
        assert(parsed_as(parsed@[parent as int], info_at(ders, parent as int)));
        let found: Option<LinkFault> = check_link(&parsed[k], &parsed[parent], t);
        assert(link_fault(info_of(parsed@[k as int]), info_of(parsed@[parent as int]), t as int)
            == link_fault(info_at(ders, k as int), info_at(ders, parent_of(k as int)), t as int));
        if let Some(fault) = found {
            assert(first_bad_link_from(ders, t as int, k as int) == Some((k as nat, fault)));
            assert(chain_fault(ders, trusted_prefix_len as nat, t as int) == Some(
                ChainFault::Link(k as nat, fault),
            ));
            return Err(ChainError::Link(k, fault));
        }
        k = k + 1;
    }
    let mut certs: Vec<[u8; 32]> = Vec::new();
    let mut expiries: Vec<u64> = Vec::new();
    let mut j: usize = 0;
    while j < n
        invariant
            n == parsed@.len() == ders.len() == n_bundle + 1,
            ders == chain_ders(cabundle@, leaf@),
            0 <= j <= n,
            certs@.len() == j,
            expiries@.len() == j,
            forall|q: int| 0 <= q < j ==> (#[trigger] certs@[q])@ == keccak256_digest(ders[q]),
            forall|q: int| 0 <= q < j ==> #[trigger] expiries@[q] == info_at(ders, q).not_after as u64,
            parsed_prefix(ders, parsed@, n as int),
            first_malformed_from(ders, 0) is None,
        decreases n - j,
    {
        let d: [u8; 32] = if j < n_bundle {
            assert(ders[j as int] == cabundle@[j as int]@);
            keccak256(cabundle[j].as_slice())
        } else {
            keccak256(leaf)
        };
        certs.push(d);
        assert(parsed_as(parsed@[j as int], info_at(ders, j as int)));
        expiries.push(parsed[j].not_after);
        j = j + 1;
    }
    let last: usize = n - 1;
    assert(parsed_as(parsed@[last as int], info_at(ders, last as int)));
    let key: Vec<u8> = copy_range(parsed[last].key.as_slice(), 0, parsed[last].key.len());
    assert(parsed@[last as int].key@.subrange(0, parsed@[last as int].key@.len() as int) =~= parsed@[last as int].key@);
    assert(digest_views(certs@) =~= chain_digests(ders));
    assert(expiries@ =~= chain_expiries(ders));
    assert forall|i: int| 0 <= i < cabundle@.len() implies (#[trigger] certs@[i])@ == keccak256_digest(
        cabundle@[i]@,
    ) by {
        assert(ders[i] == cabundle@[i]@);
    }
    proof {
        lemma_none_malformed(ders, 0, n_bundle as int);
    }
    assert(certificate_info(leaf@) is Some);
    let ghost ex = expiries@;
    let c = VerifiedChain { certs, cert_expiries: expiries, leaf_public_key: key };
    assert forall|i: int| 0 <= i < cabundle@.len() implies (#[trigger] certificate_info(cabundle@[i]@)) is Some by {
        assert(ders[i] == cabundle@[i]@);
        lemma_none_malformed(ders, 0, i);
    }
    assert forall|i: int| 0 <= i < cabundle@.len() implies (#[trigger] c.spec_cert_expiries()[i]) == (
    certificate_info(cabundle@[i]@)->Some_0.not_after as u64) by {
        assert(ders[i] == cabundle@[i]@);
        lemma_none_malformed(ders, 0, i);
        assert(c.spec_cert_expiries()[i] == ex[i]);
        assert(ex[i] == info_at(ders, i).not_after as u64);
    }
    Ok(c)
}

} // verus!
