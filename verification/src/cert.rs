//! Reading DER-encoded X.509 certificates.
//!
//! A certificate is read along `Certificate ::= SEQUENCE { tbsCertificate,
//! signatureAlgorithm, signatureValue }`. Of `tbsCertificate` the optional
//! `[0]` version, the serial number, the signature algorithm, issuer,
//! validity, subject and subject public key info are read; the fields after
//! them (unique identifiers, extensions) are not. Both signature algorithms
//! must be ecdsa-with-SHA384 and the key must be an EC key on secp384r1.

use vstd::prelude::*;
use crate::ecdsa::be_nat;
use crate::asn1time::{read_time, time_seconds};

verus! {

/// DER tag of SEQUENCE.
pub const TAG_SEQUENCE: u8 = 0x30;

/// DER tag of INTEGER.
pub const TAG_INTEGER: u8 = 0x02;

/// DER tag of BIT STRING.
pub const TAG_BIT_STRING: u8 = 0x03;

/// DER tag of the explicit `[0]` version field of a certificate.
pub const TAG_VERSION: u8 = 0xa0;

/// The DER element that starts at `pos` and ends no later than `end`: its
/// tag and the start and end of its contents. The length is in short form
/// or in minimal long form with 1 to 4 length bytes (no leading zero byte,
/// and at least 0x80).
#[verifier::opaque]
pub open spec fn tlv_at(s: Seq<u8>, pos: int, end: int) -> Option<(u8, int, int)> {
    if 0 <= pos && pos + 2 <= end && end <= s.len() {
        let first = s[pos + 1];
        if first < 0x80 {
            let start = pos + 2;
            let stop = start + first;
            if stop <= end {
                Some((s[pos], start, stop))
            } else {
                None
            }
        } else if 0x81 <= first <= 0x84 {
            let start = pos + 2 + (first - 0x80);
            if start <= end {
                let len = be_nat(s.subrange(pos + 2, start));
                let stop = start + len;
                if stop <= end && s[pos + 2] != 0 && len >= 0x80 {
                    Some((s[pos], start, stop))
                } else {
                    None
                }
            } else {
                None
            }
        } else {
            None
        }
    } else {
        None
    }
}

/// The contents of the element at `pos` when its tag is `tag`.
pub open spec fn element(s: Seq<u8>, pos: int, end: int, tag: u8) -> Option<(int, int)> {
    match tlv_at(s, pos, end) {
        Some((t, a, b)) => if t == tag {
            Some((a, b))
        } else {
            None
        },
        None => None,
    }
}

/// The position right after the element at `pos` when its tag is `tag`.
pub open spec fn after(s: Seq<u8>, pos: int, end: int, tag: u8) -> Option<int> {
    match element(s, pos, end, tag) {
        Some((_a, b)) => Some(b),
        None => None,
    }
}

/// The position after the optional `[0]` version element at `pos`.
pub open spec fn after_version(s: Seq<u8>, pos: int, end: int) -> int {
    match tlv_at(s, pos, end) {
        Some((t, _a, b)) => if t == TAG_VERSION {
            b
        } else {
            pos
        },
        None => pos,
    }
}

/// A range of machine positions as a range of integers.
pub open spec fn int_range3(r: Option<(u8, usize, usize)>) -> Option<(u8, int, int)> {
    match r {
        Some((t, a, b)) => Some((t, a as int, b as int)),
        None => None,
    }
}

/// A pair of machine positions as integers.
pub open spec fn int_range2(r: Option<(usize, usize)>) -> Option<(int, int)> {
    match r {
        Some((a, b)) => Some((a as int, b as int)),
        None => None,
    }
}

/// A machine position as an integer.
pub open spec fn int_pos(r: Option<usize>) -> Option<int> {
    match r {
        Some(a) => Some(a as int),
        None => None,
    }
}

/// Reads the DER element header at `pos`, within `end`.
pub fn read_tlv(s: &[u8], pos: usize, end: usize) -> (r: Option<(u8, usize, usize)>)
    requires
        end <= s@.len(),
    ensures
        int_range3(r) == tlv_at(s@, pos as int, end as int),
        r matches Some((t, a, b)) ==> pos + 2 <= a <= b <= end,
{
    reveal(tlv_at);
    if pos > end || end - pos < 2 {
        return None;
    }
    let tag: u8 = s[pos];
    let first: u8 = s[pos + 1];
    if first < 0x80 {
        let start: usize = pos + 2;
        let len: usize = first as usize;
        if len <= end - start {
            Some((tag, start, start + len))
        } else {
            None
        }
    } else if 0x81 <= first && first <= 0x84 {
        let n: usize = (first - 0x80) as usize;
        if n > end - (pos + 2) {
            return None;
        }
        let start: usize = pos + 2 + n;
        let mut len: u64 = 0;
        let mut i: usize = 0;
        while i < n
            invariant
                0 <= i <= n <= 4,
                pos + 2 + n == start,
                start <= end <= s@.len(),
                len == be_nat(s@.subrange(pos + 2, pos + 2 + i)),
                i == 0 ==> len == 0,
                i <= 1 ==> len < 0x100,
                i <= 2 ==> len < 0x1_0000,
                i <= 3 ==> len < 0x100_0000,
                len < 0x1_0000_0000,
            decreases n - i,
        {
            let byte: u8 = s[pos + 2 + i];
            proof {
                let sub = s@.subrange(pos + 2, pos + 2 + i + 1);
                assert(sub.drop_last() =~= s@.subrange(pos + 2, pos + 2 + i));
                assert(sub.last() == byte);
            }
            len = len * 256 + byte as u64;
            i = i + 1;
        }
        if len <= (end - start) as u64 && s[pos + 2] != 0 && len >= 0x80 {
            Some((tag, start, start + len as usize))
        } else {
            None
        }
    } else {
        None
    }
}

/// The contents of the element at `pos` when its tag is `tag`.
pub fn read_element(s: &[u8], pos: usize, end: usize, tag: u8) -> (r: Option<(usize, usize)>)
    requires
        end <= s@.len(),
    ensures
        int_range2(r) == element(s@, pos as int, end as int, tag),
        r matches Some((a, b)) ==> pos + 2 <= a <= b <= end,
{
    match read_tlv(s, pos, end) {
        Some((t, a, b)) => if t == tag {
            Some((a, b))
        } else {
            None
        },
        None => None,
    }
}

/// The position after the element at `pos` when its tag is `tag`.
pub fn skip_element(s: &[u8], pos: usize, end: usize, tag: u8) -> (r: Option<usize>)
    requires
        end <= s@.len(),
    ensures
        int_pos(r) == after(s@, pos as int, end as int, tag),
        r matches Some(p) ==> pos + 2 <= p <= end,
{
    match read_element(s, pos, end, tag) {
        Some((_a, b)) => Some(b),
        None => None,
    }
}


/// The algorithm identifier contents of an EC public key on secp384r1:
/// OID id-ecPublicKey followed by OID secp384r1.
pub open spec fn ec_p384_key_algorithm() -> Seq<u8> {
    seq![0x06u8, 0x07, 0x2a, 0x86, 0x48, 0xce, 0x3d, 0x02, 0x01, 0x06, 0x05, 0x2b, 0x81, 0x04, 0x00, 0x22]
}

/// The algorithm identifier contents of ecdsa-with-SHA384 (no parameters).
pub open spec fn ecdsa_sha384_algorithm() -> Seq<u8> {
    seq![0x06u8, 0x08, 0x2a, 0x86, 0x48, 0xce, 0x3d, 0x04, 0x03, 0x03]
}

/// The position after the AlgorithmIdentifier SEQUENCE at `pos`, when its
/// contents are exactly `alg`.
#[verifier::opaque]
pub open spec fn after_algorithm(s: Seq<u8>, pos: int, end: int, alg: Seq<u8>) -> Option<int> {
    match element(s, pos, end, TAG_SEQUENCE) {
        Some((a, b)) => if s.subrange(a, b) == alg {
            Some(b)
        } else {
            None
        },
        None => None,
    }
}

/// The `notBefore` and `notAfter` times (UNIX seconds) of the Validity
/// SEQUENCE at `pos`, and the position after it.
#[verifier::opaque]
pub open spec fn validity_at(s: Seq<u8>, pos: int, end: int) -> Option<(int, int, int)> {
    match element(s, pos, end, TAG_SEQUENCE) {
        None => None,
        Some((v0, v1)) => match tlv_at(s, v0, v1) {
            None => None,
            Some((ta, a1, b1)) => match time_seconds(ta, s.subrange(a1, b1)) {
                None => None,
                Some(nb) => match tlv_at(s, b1, v1) {
                    None => None,
                    Some((tb, a2, b2)) => if b2 != v1 {
                        None
                    } else {
                        match time_seconds(tb, s.subrange(a2, b2)) {
                            None => None,
                            Some(na) => Some((nb, na, v1)),
                        }
                    },
                },
            },
        },
    }
}

/// The subject public key (SEC1 bytes) of the SubjectPublicKeyInfo at `pos`:
/// an EC key on secp384r1 in a BIT STRING with no unused bits.
#[verifier::opaque]
pub open spec fn spki_key_at(s: Seq<u8>, pos: int, end: int) -> Option<Seq<u8>> {
    match element(s, pos, end, TAG_SEQUENCE) {
        None => None,
        Some((k0, k1)) => match after_algorithm(s, k0, k1, ec_p384_key_algorithm()) {
            None => None,
            Some(g1) => match element(s, g1, k1, TAG_BIT_STRING) {
                None => None,
                Some((b0, b1)) => if b1 == k1 && b0 < b1 && s[b0] == 0 {
                    Some(s.subrange(b0 + 1, b1))
                } else {
                    None
                },
            },
        },
    }
}

/// What a certificate's `tbsCertificate` says of it.
pub struct TbsFields {
    pub issuer: Seq<u8>,
    pub subject: Seq<u8>,
    pub not_before: int,
    pub not_after: int,
    pub key: Seq<u8>,
}

/// The fields of the `tbsCertificate` whose contents are `[t0, t1)`.
#[verifier::opaque]
pub open spec fn tbs_fields(s: Seq<u8>, t0: int, t1: int) -> Option<TbsFields> {
    let p0 = after_version(s, t0, t1);
    match after(s, p0, t1, TAG_INTEGER) {
        None => None,
        Some(p1) => match after_algorithm(s, p1, t1, ecdsa_sha384_algorithm()) {
            None => None,
            Some(p2) => match after(s, p2, t1, TAG_SEQUENCE) {
                None => None,
                Some(p3) => match validity_at(s, p3, t1) {
                    None => None,
                    Some((nb, na, p4)) => match after(s, p4, t1, TAG_SEQUENCE) {
                        None => None,
                        Some(p5) => match spki_key_at(s, p5, t1) {
                            None => None,
                            Some(key) => Some(
                                TbsFields {
                                    issuer: s.subrange(p2, p3),
                                    subject: s.subrange(p4, p5),
                                    not_before: nb,
                                    not_after: na,
                                    key,
                                },
                            ),
                        },
                    },
                },
            },
        },
    }
}

/// `s` without its leading zero bytes.
pub open spec fn strip_zeros(s: Seq<u8>) -> Seq<u8>
    decreases s.len(),
{
    if s.len() > 0 && s[0] == 0 {
        strip_zeros(s.drop_first())
    } else {
        s
    }
}

/// The 48-byte big-endian form of the non-negative DER INTEGER with
/// contents `x`, when it fits in 48 bytes.
pub open spec fn fixed48(x: Seq<u8>) -> Option<Seq<u8>> {
    if x.len() == 0 || x[0] >= 0x80 {
        None
    } else {
        let v = strip_zeros(x);
        if v.len() <= 48 {
            Some(Seq::new((48 - v.len()) as nat, |i: int| 0u8) + v)
        } else {
            None
        }
    }
}

/// The fixed-size `r || s` form of the DER `Ecdsa-Sig-Value` whose encoding
/// is exactly `[a, b)`.
#[verifier::opaque]
pub open spec fn ecdsa_sig_value(s: Seq<u8>, a: int, b: int) -> Option<Seq<u8>> {
    match element(s, a, b, TAG_SEQUENCE) {
        None => None,
        Some((e0, e1)) => if e1 != b {
            None
        } else {
            match element(s, e0, e1, TAG_INTEGER) {
                None => None,
                Some((r0, r1)) => match element(s, r1, e1, TAG_INTEGER) {
                    None => None,
                    Some((s0, s1)) => if s1 != e1 {
                        None
                    } else {
                        match (fixed48(s.subrange(r0, r1)), fixed48(s.subrange(s0, s1))) {
                            (Some(r), Some(sv)) => Some(r + sv),
                            _ => None,
                        }
                    },
                },
            }
        },
    }
}

/// What a certificate says of itself: the DER `tbsCertificate` (the signed
/// bytes), issuer and subject names (DER), validity in UNIX seconds, the
/// subject's SEC1 public key, and the issuer's signature as `r || s`.
pub struct CertInfo {
    pub tbs: Seq<u8>,
    pub issuer: Seq<u8>,
    pub subject: Seq<u8>,
    pub not_before: int,
    pub not_after: int,
    pub key: Seq<u8>,
    pub signature: Seq<u8>,
}

/// The reading of a DER certificate; `None` when it does not read.
#[verifier::opaque]
pub open spec fn certificate_info(c: Seq<u8>) -> Option<CertInfo> {
    match element(c, 0, c.len() as int, TAG_SEQUENCE) {
        None => None,
        Some((a, b)) => if b != c.len() {
            None
        } else {
            match tlv_at(c, a, b) {
                None => None,
                Some((tt, t0, t1)) => if tt != TAG_SEQUENCE {
                    None
                } else {
                    match tbs_fields(c, t0, t1) {
                        None => None,
                        Some(f) => match after_algorithm(c, t1, b, ecdsa_sha384_algorithm()) {
                            None => None,
                            Some(o1) => match element(c, o1, b, TAG_BIT_STRING) {
                                None => None,
                                Some((z0, z1)) => if z1 != b || z0 >= z1 || c[z0] != 0 {
                                    None
                                } else {
                                    match ecdsa_sig_value(c, z0 + 1, z1) {
                                        None => None,
                                        Some(sig) => Some(
                                            CertInfo {
                                                tbs: c.subrange(a, t1),
                                                issuer: f.issuer,
                                                subject: f.subject,
                                                not_before: f.not_before,
                                                not_after: f.not_after,
                                                key: f.key,
                                                signature: sig,
                                            },
                                        ),
                                    }
                                },
                            },
                        },
                    }
                },
            }
        },
    }
}

/// A certificate as read by [`parse_certificate`].
#[derive(Debug)]
pub struct ParsedCertificate {
    pub tbs: Vec<u8>,
    pub issuer: Vec<u8>,
    pub subject: Vec<u8>,
    pub not_before: u64,
    pub not_after: u64,
    pub key: Vec<u8>,
    pub signature: Vec<u8>,
}

/// `p` holds what `info` says.
pub open spec fn parsed_as(p: ParsedCertificate, info: CertInfo) -> bool {
    &&& p.tbs@ == info.tbs
    &&& p.issuer@ == info.issuer
    &&& p.subject@ == info.subject
    &&& p.not_before == info.not_before
    &&& p.not_after == info.not_after
    &&& p.key@ == info.key
    &&& p.signature@ == info.signature
}

/// The bytes `s[a..b]`.
pub fn copy_range(s: &[u8], a: usize, b: usize) -> (r: Vec<u8>)
    requires
        a <= b <= s@.len(),
    ensures
        r@ == s@.subrange(a as int, b as int),
{
    let mut out: Vec<u8> = Vec::new();
    let mut i: usize = a;
    while i < b
        invariant
            a <= i <= b <= s@.len(),
            out@ == s@.subrange(a as int, i as int),
        decreases b - i,
    {
        out.push(s[i]);
        i = i + 1;
        assert(out@ =~= s@.subrange(a as int, i as int));
    }
    out
}

/// Whether `s[a..b]` equals `t`.
pub fn range_equals(s: &[u8], a: usize, b: usize, t: &[u8]) -> (r: bool)
    requires
        a <= b <= s@.len(),
    ensures
        r == (s@.subrange(a as int, b as int) == t@),
{
    if b - a != t.len() {
        assert(s@.subrange(a as int, b as int).len() != t@.len());
        return false;
    }
    let mut i: usize = 0;
    while i < t.len()
        invariant
            a <= b <= s@.len(),
            b - a == t@.len(),
            0 <= i <= t@.len(),
            forall|j: int| 0 <= j < i ==> s@[a + j] == t@[j],
        decreases t@.len() - i,
    {
        if s[a + i] != t[i] {
            assert(s@.subrange(a as int, b as int)[i as int] != t@[i as int]);
            return false;
        }
        i = i + 1;
    }
    assert(s@.subrange(a as int, b as int) =~= t@);
    true
}

fn read_after_algorithm(s: &[u8], pos: usize, end: usize, alg: &[u8]) -> (r: Option<usize>)
    requires
        end <= s@.len(),
    ensures
        int_pos(r) == after_algorithm(s@, pos as int, end as int, alg@),
        r matches Some(p) ==> pos + 2 <= p <= end,
{
    reveal(after_algorithm);
    match read_element(s, pos, end, TAG_SEQUENCE) {
        Some((a, b)) => if range_equals(s, a, b, alg) {
            Some(b)
        } else {
            None
        },
        None => None,
    }
}

fn read_validity(s: &[u8], pos: usize, end: usize) -> (r: Option<(u64, u64, usize)>)
    requires
        end <= s@.len(),
    ensures
        match validity_at(s@, pos as int, end as int) {
            Some((nb, na, p)) => r == Some((nb as u64, na as u64, p as usize)) && 0 <= nb
                && 0 <= na && nb < 0x1_0000_0000_0000 && na < 0x1_0000_0000_0000 && pos + 2 <= p
                <= end,
            None => r is None,
        },
{
    reveal(validity_at);
    let (v0, v1) = match read_element(s, pos, end, TAG_SEQUENCE) {
        Some(x) => x,
        None => return None,
    };
    let (ta, a1, b1) = match read_tlv(s, v0, v1) {
        Some(x) => x,
        None => return None,
    };
    let nb: u64 = match read_time(s, ta, a1, b1) {
        Some(t) => t,
        None => return None,
    };
    let (tb, a2, b2) = match read_tlv(s, b1, v1) {
        Some(x) => x,
        None => return None,
    };
    if b2 != v1 {
        return None;
    }
    let na: u64 = match read_time(s, tb, a2, b2) {
        Some(t) => t,
        None => return None,
    };
    Some((nb, na, v1))
}

fn read_spki_key(s: &[u8], pos: usize, end: usize) -> (r: Option<Vec<u8>>)
    requires
        end <= s@.len(),
    ensures
        match spki_key_at(s@, pos as int, end as int) {
            Some(k) => r matches Some(v) && v@ == k,
            None => r is None,
        },
{
    reveal(spki_key_at);
    let (k0, k1) = match read_element(s, pos, end, TAG_SEQUENCE) {
        Some(x) => x,
        None => return None,
    };
    let alg: [u8; 16] = [0x06, 0x07, 0x2a, 0x86, 0x48, 0xce, 0x3d, 0x02, 0x01, 0x06, 0x05, 0x2b, 0x81, 0x04, 0x00, 0x22];
    assert(alg@ =~= ec_p384_key_algorithm());
    let g1: usize = match read_after_algorithm(s, k0, k1, &alg) {
        Some(p) => p,
        None => return None,
    };
    let (b0, b1) = match read_element(s, g1, k1, TAG_BIT_STRING) {
        Some(x) => x,
        None => return None,
    };
    if b1 == k1 && b0 < b1 && s[b0] == 0 {
        Some(copy_range(s, b0 + 1, b1))
    } else {
        None
    }
}

/// What `tbs_fields` reads, as machine values.
struct ParsedTbs {
    issuer: Vec<u8>,
    subject: Vec<u8>,
    not_before: u64,
    not_after: u64,
    key: Vec<u8>,
}

fn read_tbs(s: &[u8], t0: usize, t1: usize) -> (r: Option<ParsedTbs>)
    requires
        t1 <= s@.len(),
    ensures
        match tbs_fields(s@, t0 as int, t1 as int) {
            Some(f) => r matches Some(p) && p.issuer@ == f.issuer && p.subject@ == f.subject
                && p.not_before == f.not_before && p.not_after == f.not_after && p.key@ == f.key,
            None => r is None,
        },
{
    reveal(tbs_fields);
    let p0: usize = match read_tlv(s, t0, t1) {
        Some((t, _a, b)) => if t == TAG_VERSION {
            b
        } else {
            t0
        },
        None => t0,
    };
    let p1: usize = match skip_element(s, p0, t1, TAG_INTEGER) {
        Some(p) => p,
        None => return None,
    };
    let alg: [u8; 10] = [0x06, 0x08, 0x2a, 0x86, 0x48, 0xce, 0x3d, 0x04, 0x03, 0x03];
    assert(alg@ =~= ecdsa_sha384_algorithm());
    let p2: usize = match read_after_algorithm(s, p1, t1, &alg) {
        Some(p) => p,
        None => return None,
    };
    let p3: usize = match skip_element(s, p2, t1, TAG_SEQUENCE) {
        Some(p) => p,
        None => return None,
    };
    let (nb, na, p4) = match read_validity(s, p3, t1) {
        Some(x) => x,
        None => return None,
    };
    let p5: usize = match skip_element(s, p4, t1, TAG_SEQUENCE) {
        Some(p) => p,
        None => return None,
    };
    let key: Vec<u8> = match read_spki_key(s, p5, t1) {
        Some(k) => k,
        None => return None,
    };
    Some(
        ParsedTbs {
            issuer: copy_range(s, p2, p3),
            subject: copy_range(s, p4, p5),
            not_before: nb,
            not_after: na,
            key,
        },
    )
}

fn read_fixed48(s: &[u8], a: usize, b: usize) -> (r: Option<Vec<u8>>)
    requires
        a <= b <= s@.len(),
    ensures
        match fixed48(s@.subrange(a as int, b as int)) {
            Some(v) => r matches Some(w) && w@ == v,
            None => r is None,
        },
{
    let ghost x = s@.subrange(a as int, b as int);
    if a == b || s[a] >= 0x80 {
        return None;
    }
    let mut i: usize = a;
    while i < b && s[i] == 0
        invariant
            a <= i <= b <= s@.len(),
            x == s@.subrange(a as int, b as int),
            strip_zeros(x) == strip_zeros(s@.subrange(i as int, b as int)),
        decreases b - i,
    {
        assert(s@.subrange(i as int, b as int).drop_first() =~= s@.subrange(i + 1, b as int));
        i = i + 1;
    }
    assert(strip_zeros(s@.subrange(i as int, b as int)) == s@.subrange(i as int, b as int));
    if b - i > 48 {
        return None;
    }
    let mut out: Vec<u8> = Vec::new();
    let pad: usize = 48 - (b - i);
    let mut k: usize = 0;
    while k < pad
        invariant
            0 <= k <= pad,
            out@ == Seq::new(k as nat, |j: int| 0u8),
        decreases pad - k,
    {
        out.push(0);
        k = k + 1;
        assert(out@ =~= Seq::new(k as nat, |j: int| 0u8));
    }
    let rest: Vec<u8> = copy_range(s, i, b);
    let mut j: usize = 0;
    let ghost start = out@;
    while j < rest.len()
        invariant
            0 <= j <= rest@.len(),
            out@ == start + rest@.take(j as int),
        decreases rest@.len() - j,
    {
        out.push(rest[j]);
        j = j + 1;
        assert(out@ =~= start + rest@.take(j as int));
    }
    assert(rest@.take(j as int) =~= rest@);
    Some(out)
}

fn read_sig_value(s: &[u8], a: usize, b: usize) -> (r: Option<Vec<u8>>)
    requires
        a <= b <= s@.len(),
    ensures
        match ecdsa_sig_value(s@, a as int, b as int) {
            Some(v) => r matches Some(w) && w@ == v,
            None => r is None,
        },
{
    reveal(ecdsa_sig_value);
    let (e0, e1) = match read_element(s, a, b, TAG_SEQUENCE) {
        Some(x) => x,
        None => return None,
    };
    if e1 != b {
        return None;
    }
    let (r0, r1) = match read_element(s, e0, e1, TAG_INTEGER) {
        Some(x) => x,
        None => return None,
    };
    let (s0, s1) = match read_element(s, r1, e1, TAG_INTEGER) {
        Some(x) => x,
        None => return None,
    };
    if s1 != e1 {
        return None;
    }
    let mut rv: Vec<u8> = match read_fixed48(s, r0, r1) {
        Some(v) => v,
        None => return None,
    };
    let sv: Vec<u8> = match read_fixed48(s, s0, s1) {
        Some(v) => v,
        None => return None,
    };
    let ghost r_view = rv@;
    let mut j: usize = 0;
    while j < sv.len()
        invariant
            0 <= j <= sv@.len(),
            rv@ == r_view + sv@.take(j as int),
        decreases sv@.len() - j,
    {
        rv.push(sv[j]);
        j = j + 1;
        assert(rv@ =~= r_view + sv@.take(j as int));
    }
    assert(sv@.take(j as int) =~= sv@);
    Some(rv)
}

/// Reads a DER certificate; `None` when it does not read.
pub fn parse_certificate(c: &[u8]) -> (r: Option<ParsedCertificate>)
    ensures
        match certificate_info(c@) {
            Some(info) => r matches Some(p) && parsed_as(p, info),
            None => r is None,
        },
{
    reveal(certificate_info);
    let (a, b) = match read_element(c, 0, c.len(), TAG_SEQUENCE) {
        Some(x) => x,
        None => return None,
    };
    if b != c.len() {
        return None;
    }
    let (tt, t0, t1) = match read_tlv(c, a, b) {
        Some(x) => x,
        None => return None,
    };
    if tt != TAG_SEQUENCE {
        return None;
    }
    let f: ParsedTbs = match read_tbs(c, t0, t1) {
        Some(f) => f,
        None => return None,
    };
    let alg: [u8; 10] = [0x06, 0x08, 0x2a, 0x86, 0x48, 0xce, 0x3d, 0x04, 0x03, 0x03];
    assert(alg@ =~= ecdsa_sha384_algorithm());
    let o1: usize = match read_after_algorithm(c, t1, b, &alg) {
        Some(p) => p,
        None => return None,
    };
    let (z0, z1) = match read_element(c, o1, b, TAG_BIT_STRING) {
        Some(x) => x,
        None => return None,
    };
    if z1 != b || z0 >= z1 || c[z0] != 0 {
        return None;
    }
    let sig: Vec<u8> = match read_sig_value(c, z0 + 1, z1) {
        Some(v) => v,
        None => return None,
    };
    Some(
        ParsedCertificate {
            tbs: copy_range(c, a, t1),
            issuer: f.issuer,
            subject: f.subject,
            not_before: f.not_before,
            not_after: f.not_after,
            key: f.key,
            signature: sig,
        },
    )
}

} // verus!
