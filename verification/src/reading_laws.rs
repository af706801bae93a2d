//! Properties of the readers of certificates, times and CBOR items, stated
//! against what the formats say rather than against the readers' own
//! definitions.

use vstd::prelude::*;
use crate::cert::{
    after, after_algorithm, after_version, element, spki_key_at, tbs_fields, tlv_at, validity_at,
    certificate_info, ecdsa_sig_value, fixed48, strip_zeros, CertInfo,
    ec_p384_key_algorithm, ecdsa_sha384_algorithm, TbsFields, TAG_BIT_STRING, TAG_INTEGER,
    TAG_SEQUENCE, TAG_VERSION,
};
use crate::asn1time::{time_seconds, two_digits, all_digits, TAG_UTC_TIME, TAG_GENERALIZED_TIME};
use crate::attestation::{
    envelope_fields, report_fields, COSE_SIGN1_TAG, byte_strings_at, cabundle_key, certificate_key, digest_key, document_fields, entries_at,
    entries_valid, entry_at, entry_kind, entry_of_kind, fields_of, module_id_key, nonce_key,
    optional_bytes_at, pcr_entries_at, pcr_entries_valid, pcrs_key, public_key_key, timestamp_key,
    user_data_key, DocEntry, DocumentFields,
};
use vstd::utf8::valid_utf8;
use crate::cbor::{container_at, item_end, items_end, MAX_NESTING, head_at, string_at, uint_at, CBOR_NULL, MAJOR_MAP, MAJOR_UINT};
use crate::cose::{sig_structure_encoding, signature1_context, be_bytes, cbor_bytes, cbor_head, cbor_text, MAJOR_ARRAY, MAJOR_BYTES, MAJOR_TEXT};
use crate::ecdsa::be_nat;
use crate::asn1time::{
    days_before_month, days_before_year, days_in_month, fields_valid, is_leap, leaps_through,
    unix_seconds,
};

verus! {

proof fn lemma_tlv_at_wider(s: Seq<u8>, pos: int, end: int, end2: int)
    requires
        end <= end2 <= s.len(),
        tlv_at(s, pos, end) is Some,
    ensures
        tlv_at(s, pos, end2) == tlv_at(s, pos, end),
{
    reveal(tlv_at);
}

proof fn lemma_element_wider(s: Seq<u8>, pos: int, end: int, end2: int, tag: u8)
    requires
        end <= end2 <= s.len(),
        element(s, pos, end, tag) is Some,
    ensures
        element(s, pos, end2, tag) == element(s, pos, end, tag),
        after(s, pos, end2, tag) == after(s, pos, end, tag),
{
    lemma_tlv_at_wider(s, pos, end, end2);
}

/// The reading of a `tbsCertificate` does not depend on what follows the
/// subject public key info: a `tbsCertificate` that reads within `[t0, t1)`
/// reads the same within any wider range `[t0, t2)`, whatever the bytes
/// between `t1` and `t2` hold (such as the unique identifiers and the
/// extensions of an X.509 v3 certificate).
pub proof fn law_tbs_reading_ignores_trailing_fields(s: Seq<u8>, t0: int, t1: int, t2: int)
    requires
        t1 <= t2 <= s.len(),
        tbs_fields(s, t0, t1) is Some,
    ensures
        tbs_fields(s, t0, t2) == tbs_fields(s, t0, t1),
{
    reveal(tbs_fields);
    reveal(after_algorithm);
    reveal(validity_at);
    reveal(spki_key_at);
    assert(tlv_at(s, t0, t1) is Some) by {
        reveal(tlv_at);
        if tlv_at(s, t0, t1) is None {
            assert(after_version(s, t0, t1) == t0);
        }
    }
    lemma_tlv_at_wider(s, t0, t1, t2);
    let p0 = after_version(s, t0, t1);
    lemma_element_wider(s, p0, t1, t2, TAG_INTEGER);
    let p1 = after(s, p0, t1, TAG_INTEGER)->Some_0;
    lemma_element_wider(s, p1, t1, t2, TAG_SEQUENCE);
    let p2 = after_algorithm(s, p1, t1, crate::cert::ecdsa_sha384_algorithm())->Some_0;
    lemma_element_wider(s, p2, t1, t2, TAG_SEQUENCE);
    let p3 = after(s, p2, t1, TAG_SEQUENCE)->Some_0;
    lemma_element_wider(s, p3, t1, t2, TAG_SEQUENCE);
    let p4 = validity_at(s, p3, t1)->Some_0.2;
    lemma_element_wider(s, p4, t1, t2, TAG_SEQUENCE);
    let p5 = after(s, p4, t1, TAG_SEQUENCE)->Some_0;
    lemma_element_wider(s, p5, t1, t2, TAG_SEQUENCE);
}

/// Months follow one another: the first month starts its year, each next
/// month starts when the one before has run its days, and the last month
/// ends the year after 365 days, or 366 in a leap year.
pub proof fn law_months_follow_one_another(y: int, m: int)
    requires
        1 <= m < 12,
    ensures
        days_before_month(y, 1) == 0,
        days_before_month(y, m + 1) == days_before_month(y, m) + days_in_month(y, m),
        days_before_month(y, 12) + days_in_month(y, 12) == if is_leap(y) {
            366int
        } else {
            365int
        },
{
}

proof fn lemma_div_step(y: int, d: int)
    requires
        y >= 1,
        d > 0,
    ensures
        y / d - (y - 1) / d == if y % d == 0 {
            1int
        } else {
            0int
        },
{
    let q = y / d;
    let r = y % d;
    let q1 = (y - 1) / d;
    let r1 = (y - 1) % d;
    assert(y == d * q + r && 0 <= r < d) by (nonlinear_arith)
        requires
            d > 0,
            q == y / d,
            r == y % d,
    ;
    assert(y - 1 == d * q1 + r1 && 0 <= r1 < d) by (nonlinear_arith)
        requires
            d > 0,
            q1 == (y - 1) / d,
            r1 == (y - 1) % d,
    ;
    if r == 0 {
        assert(q1 == q - 1) by (nonlinear_arith)
            requires
                y == d * q,
                y - 1 == d * q1 + r1,
                0 <= r1 < d,
        ;
    } else {
        assert(q1 == q) by (nonlinear_arith)
            requires
                y == d * q + r,
                0 < r < d,
                y - 1 == d * q1 + r1,
                0 <= r1 < d,
        ;
    }
}

/// A year starts 365 days after the one before it, or 366 days after a
/// leap year.
pub proof fn law_years_follow_one_another(y: int)
    requires
        y >= 1970,
    ensures
        days_before_year(y + 1) == days_before_year(y) + if is_leap(y) {
            366int
        } else {
            365int
        },
{
    lemma_div_step(y, 4);
    lemma_div_step(y, 100);
    lemma_div_step(y, 400);
    assert(leaps_through(y) - leaps_through(y - 1) == if is_leap(y) {
        1int
    } else {
        0int
    }) by {
        if y % 400 == 0 {
            assert(y % 100 == 0 && y % 4 == 0) by (nonlinear_arith)
                requires
                    y % 400 == 0,
            ;
        } else if y % 100 == 0 {
            assert(y % 4 == 0) by (nonlinear_arith)
                requires
                    y % 100 == 0,
            ;
        } else if y % 4 != 0 {
            assert(y % 100 != 0 && y % 400 != 0) by (nonlinear_arith)
                requires
                    y % 4 != 0,
            ;
        }
    }
}

/// UNIX time counts days one by one: the epoch is 1970-01-01T00:00:00Z, and
/// midnight of the day after a valid date comes exactly 86400 seconds after
/// midnight of that date (at a month's end the next day is the first of
/// the next month, at a year's end January 1 of the next year).
pub proof fn law_unix_time_counts_days(y: int, mo: int, d: int)
    requires
        fields_valid(y, mo, d, 0, 0, 0),
    ensures
        unix_seconds(1970, 1, 1, 0, 0, 0) == 0,
        d < days_in_month(y, mo) ==> fields_valid(y, mo, d + 1, 0, 0, 0) && unix_seconds(y, mo, d + 1, 0, 0, 0)
            == unix_seconds(y, mo, d, 0, 0, 0) + 86400,
        d == days_in_month(y, mo) && mo < 12 ==> fields_valid(y, mo + 1, 1, 0, 0, 0) && unix_seconds(
            y,
            mo + 1,
            1,
            0,
            0,
            0,
        ) == unix_seconds(y, mo, d, 0, 0, 0) + 86400,
        d == days_in_month(y, mo) && mo == 12 ==> fields_valid(y + 1, 1, 1, 0, 0, 0) && unix_seconds(
            y + 1,
            1,
            1,
            0,
            0,
            0,
        ) == unix_seconds(y, mo, d, 0, 0, 0) + 86400,
{
    law_years_follow_one_another(y);
    if mo < 12 {
        law_months_follow_one_another(y, mo);
    } else {
        law_months_follow_one_another(y, 1);
    }
}

/// UNIX time counts seconds one by one within a day: midnight is the
/// day's first second, and each valid time of day is one second after the
/// one before it (a minute after 59 seconds, an hour after 59 minutes).
pub proof fn law_unix_time_counts_seconds(y: int, mo: int, d: int, h: int, mi: int, se: int)
    requires
        fields_valid(y, mo, d, h, mi, se),
    ensures
        se < 59 ==> fields_valid(y, mo, d, h, mi, se + 1) && unix_seconds(y, mo, d, h, mi, se + 1)
            == unix_seconds(y, mo, d, h, mi, se) + 1,
        se == 59 && mi < 59 ==> fields_valid(y, mo, d, h, mi + 1, 0) && unix_seconds(y, mo, d, h, mi + 1, 0)
            == unix_seconds(y, mo, d, h, mi, se) + 1,
        se == 59 && mi == 59 && h < 23 ==> fields_valid(y, mo, d, h + 1, 0, 0) && unix_seconds(
            y,
            mo,
            d,
            h + 1,
            0,
            0,
        ) == unix_seconds(y, mo, d, h, mi, se) + 1,
        se == 59 && mi == 59 && h == 23 ==> unix_seconds(y, mo, d, 0, 0, 0) + 86400 == unix_seconds(
            y,
            mo,
            d,
            h,
            mi,
            se,
        ) + 1,
{
}

/// `256` to the power `w`.
pub open spec fn pow256(w: nat) -> nat
    decreases w,
{
    if w == 0 {
        1
    } else {
        256 * pow256((w - 1) as nat)
    }
}

proof fn lemma_pow256_values()
    ensures
        pow256(1) == 0x100,
        pow256(2) == 0x1_0000,
        pow256(4) == 0x1_0000_0000,
        pow256(8) == 0x1_0000_0000_0000_0000,
{
    reveal_with_fuel(pow256, 9);
}

proof fn lemma_be_bytes_len(n: nat, w: nat)
    ensures
        be_bytes(n, w).len() == w,
    decreases w,
{
    if w > 0 {
        lemma_be_bytes_len(n / 256, (w - 1) as nat);
    }
}

proof fn lemma_be_bytes_read_back(n: nat, w: nat)
    requires
        n < pow256(w),
    ensures
        be_nat(be_bytes(n, w)) == n,
    decreases w,
{
    if w > 0 {
        let b = be_bytes(n, w);
        assert(n / 256 < pow256((w - 1) as nat)) by (nonlinear_arith)
            requires
                n < 256 * pow256((w - 1) as nat),
        ;
        lemma_be_bytes_read_back(n / 256, (w - 1) as nat);
        assert(b.drop_last() =~= be_bytes(n / 256, (w - 1) as nat));
        assert(n == (n / 256) * 256 + n % 256) by (nonlinear_arith);
    } else {
        assert(n == 0);
    }
}

proof fn lemma_be_nat_bound(b: Seq<u8>)
    ensures
        be_nat(b) < pow256(b.len()),
    decreases b.len(),
{
    if b.len() > 0 {
        lemma_be_nat_bound(b.drop_last());
        let x = be_nat(b.drop_last());
        let p = pow256((b.len() - 1) as nat);
        let l = b.last() as nat;
        assert(x * 256 + l < 256 * p) by (nonlinear_arith)
            requires
                x < p,
                l < 256,
        ;
    }
}

/// The number of argument bytes of the shortest head with argument `n`.
pub open spec fn head_width(n: nat) -> nat {
    if n < 24 {
        0
    } else if n < 0x100 {
        1
    } else if n < 0x1_0000 {
        2
    } else if n < 0x1_0000_0000 {
        4
    } else {
        8
    }
}

proof fn lemma_cbor_head_shape(m: u8, n: nat)
    requires
        m < 8,
        n < 0x1_0000_0000_0000_0000,
    ensures
        cbor_head(m, n).len() == 1 + head_width(n),
        cbor_head(m, n).subrange(1, cbor_head(m, n).len() as int) == be_bytes(n, head_width(n)),
        head_width(n) > 0 ==> n < pow256(head_width(n)),
{
    lemma_be_bytes_len(n, head_width(n));
    lemma_pow256_values();
    reveal_with_fuel(pow256, 1);
    let h = cbor_head(m, n);
    assert(h.subrange(1, h.len() as int) =~= be_bytes(n, head_width(n)));
}

/// The CBOR head that the library writes reads back: wherever
/// `cbor_head(m, n)` stands in a byte string, the head read there has major
/// type `m` and argument `n`, and ends where the written head ends.
pub proof fn law_cbor_head_reads_back(m: u8, n: nat, s: Seq<u8>, pos: int)
    requires
        m < 8,
        n < 0x1_0000_0000_0000_0000,
        0 <= pos,
        pos + cbor_head(m, n).len() <= s.len(),
        s.subrange(pos, pos + cbor_head(m, n).len()) == cbor_head(m, n),
    ensures
        head_at(s, pos) == Some((m, n, pos + cbor_head(m, n).len())),
{
    reveal(head_at);
    lemma_cbor_head_shape(m, n);
    let h = cbor_head(m, n);
    let w = head_width(n);
    let x: int = if n < 24 {
        n as int
    } else if w == 1 {
        24
    } else if w == 2 {
        25
    } else if w == 4 {
        26
    } else {
        27
    };
    assert(h[0] == (m * 32 + x) as u8);
    assert(s[pos] == h[0]);
    assert(((m * 32 + x) as u8) / 32 == m && ((m * 32 + x) as u8) % 32 == x) by (nonlinear_arith)
        requires
            0 <= m < 8,
            0 <= x < 32,
    ;
    assert(s.subrange(pos + 1, pos + 1 + w) =~= h.subrange(1, h.len() as int));
    if w > 0 {
        lemma_be_bytes_read_back(n, w);
    }
}

/// The head that the library writes is the shortest one: no head with the
/// same major type and argument is shorter than `cbor_head(m, n)`.
pub proof fn law_cbor_head_is_shortest(m: u8, n: nat, s: Seq<u8>, pos: int, q: int)
    requires
        m < 8,
        head_at(s, pos) == Some((m, n, q)),
    ensures
        cbor_head(m, n).len() <= q - pos,
{
    reveal(head_at);
    let b = s[pos];
    let info = (b % 32) as u8;
    if info >= 24 {
        let stop = pos + 1 + crate::cbor::argument_width(info);
        lemma_be_nat_bound(s.subrange(pos + 1, stop));
        lemma_pow256_values();
    }
    lemma_cbor_head_shape(m, n);
}

proof fn lemma_string_reads_back(major: u8, v: Seq<u8>, s: Seq<u8>, p: int)
    requires
        major == MAJOR_BYTES || major == MAJOR_TEXT,
        v.len() < 0x1_0000_0000_0000_0000,
        0 <= p,
        p + cbor_head(major, v.len()).len() + v.len() <= s.len(),
        s.subrange(p, p + cbor_head(major, v.len()).len() + v.len()) == cbor_head(major, v.len()) + v,
    ensures
        string_at(s, p, major) == Some((v, p + cbor_head(major, v.len()).len() + v.len())),
{
    let h = cbor_head(major, v.len());
    let all = h + v;
    assert(s.subrange(p, p + h.len()) =~= all.subrange(0, h.len() as int));
    assert(all.subrange(0, h.len() as int) =~= h);
    law_cbor_head_reads_back(major, v.len(), s, p);
    assert(s.subrange(p + h.len(), p + h.len() + v.len()) =~= all.subrange(h.len() as int, all.len() as int));
    assert(all.subrange(h.len() as int, all.len() as int) =~= v);
}

proof fn lemma_bytes_item_reads_back(v: Seq<u8>, s: Seq<u8>, p: int)
    requires
        v.len() < 0x1_0000_0000_0000_0000,
        0 <= p,
        p + cbor_bytes(v).len() <= s.len(),
        s.subrange(p, p + cbor_bytes(v).len()) == cbor_bytes(v),
    ensures
        string_at(s, p, MAJOR_BYTES) == Some((v, p + cbor_bytes(v).len())),
{
    lemma_string_reads_back(MAJOR_BYTES, v, s, p);
}

/// The CBOR encoding of PCR entries: each index as an unsigned integer,
/// followed by its value as a byte string.
pub open spec fn pcr_entries_encoding(e: Seq<(u64, Seq<u8>)>) -> Seq<u8>
    decreases e.len(),
{
    if e.len() == 0 {
        seq![]
    } else {
        cbor_head(MAJOR_UINT, e[0].0 as nat) + cbor_bytes(e[0].1) + pcr_entries_encoding(e.drop_first())
    }
}

/// The CBOR encoding of a sequence of byte strings.
pub open spec fn byte_strings_encoding(b: Seq<Seq<u8>>) -> Seq<u8>
    decreases b.len(),
{
    if b.len() == 0 {
        seq![]
    } else {
        cbor_bytes(b[0]) + byte_strings_encoding(b.drop_first())
    }
}

/// Reading PCR entries gives back what was written: wherever the encoding
/// of entries `e` stands, reading `e.len()` entries there gives `e`, each
/// index with exactly the bytes of its value, and ends where the encoding
/// ends.
pub proof fn law_pcr_entries_read_back(e: Seq<(u64, Seq<u8>)>, s: Seq<u8>, pos: int)
    requires
        forall|i: int| 0 <= i < e.len() ==> (#[trigger] e[i]).1.len() < 0x1_0000_0000_0000_0000,
        0 <= pos,
        pos + pcr_entries_encoding(e).len() <= s.len(),
        s.subrange(pos, pos + pcr_entries_encoding(e).len()) == pcr_entries_encoding(e),
    ensures
        pcr_entries_at(s, pos, e.len()) == Some((e, pos + pcr_entries_encoding(e).len())),
    decreases e.len(),
{
    if e.len() > 0 {
        let enc = pcr_entries_encoding(e);
        let h = cbor_head(MAJOR_UINT, e[0].0 as nat);
        let v = cbor_bytes(e[0].1);
        let rest = e.drop_first();
        let renc = pcr_entries_encoding(rest);
        assert(enc == h + v + renc);
        assert(s.subrange(pos, pos + h.len()) =~= enc.subrange(0, h.len() as int));
        assert(enc.subrange(0, h.len() as int) =~= h);
        law_cbor_head_reads_back(MAJOR_UINT, e[0].0 as nat, s, pos);
        let p = pos + h.len();
        assert(s.subrange(p, p + v.len()) =~= enc.subrange(h.len() as int, (h.len() + v.len()) as int));
        assert(enc.subrange(h.len() as int, (h.len() + v.len()) as int) =~= v);
        lemma_bytes_item_reads_back(e[0].1, s, p);
        let q = p + v.len();
        assert(s.subrange(q, q + renc.len()) =~= enc.subrange((h.len() + v.len()) as int, enc.len() as int));
        assert(enc.subrange((h.len() + v.len()) as int, enc.len() as int) =~= renc);
        assert forall|i: int| 0 <= i < rest.len() implies (#[trigger] rest[i]).1.len() < 0x1_0000_0000_0000_0000 by {
            assert(rest[i] == e[i + 1]);
        }
        law_pcr_entries_read_back(rest, s, q);
        assert(seq![(e[0].0 as nat as u64, e[0].1)] + rest =~= e);
    }
}

/// Reading byte strings gives back what was written: wherever the encoding
/// of `b` stands, reading `b.len()` byte strings there gives `b` and ends
/// where the encoding ends.
pub proof fn law_byte_strings_read_back(b: Seq<Seq<u8>>, s: Seq<u8>, pos: int)
    requires
        forall|i: int| 0 <= i < b.len() ==> (#[trigger] b[i]).len() < 0x1_0000_0000_0000_0000,
        0 <= pos,
        pos + byte_strings_encoding(b).len() <= s.len(),
        s.subrange(pos, pos + byte_strings_encoding(b).len()) == byte_strings_encoding(b),
    ensures
        byte_strings_at(s, pos, b.len()) == Some((b, pos + byte_strings_encoding(b).len())),
    decreases b.len(),
{
    if b.len() > 0 {
        let enc = byte_strings_encoding(b);
        let v = cbor_bytes(b[0]);
        let rest = b.drop_first();
        let renc = byte_strings_encoding(rest);
        assert(enc == v + renc);
        assert(s.subrange(pos, pos + v.len()) =~= enc.subrange(0, v.len() as int));
        assert(enc.subrange(0, v.len() as int) =~= v);
        lemma_bytes_item_reads_back(b[0], s, pos);
        let q = pos + v.len();
        assert(s.subrange(q, q + renc.len()) =~= enc.subrange(v.len() as int, enc.len() as int));
        assert(enc.subrange(v.len() as int, enc.len() as int) =~= renc);
        assert forall|i: int| 0 <= i < rest.len() implies (#[trigger] rest[i]).len() < 0x1_0000_0000_0000_0000 by {
            assert(rest[i] == b[i + 1]);
        }
        law_byte_strings_read_back(rest, s, q);
        assert(seq![b[0]] + rest =~= b);
    }
}

proof fn lemma_split(s: Seq<u8>, pos: int, a: Seq<u8>, b: Seq<u8>)
    requires
        0 <= pos,
        pos + a.len() + b.len() <= s.len(),
        s.subrange(pos, pos + a.len() + b.len()) == a + b,
    ensures
        s.subrange(pos, pos + a.len()) == a,
        s.subrange(pos + a.len(), pos + a.len() + b.len()) == b,
{
    assert(s.subrange(pos, pos + a.len()) =~= (a + b).subrange(0, a.len() as int));
    assert((a + b).subrange(0, a.len() as int) =~= a);
    assert(s.subrange(pos + a.len(), pos + a.len() + b.len()) =~= (a + b).subrange(
        a.len() as int,
        (a.len() + b.len()) as int,
    ));
    assert((a + b).subrange(a.len() as int, (a.len() + b.len()) as int) =~= b);
}

/// The encoding of a byte string or `null`.
pub open spec fn optional_bytes_encoding(o: Option<Seq<u8>>) -> Seq<u8> {
    match o {
        Some(b) => cbor_bytes(b),
        None => seq![CBOR_NULL],
    }
}

/// The CBOR encoding of a document entry: its key as a text string, then
/// its value.
pub open spec fn entry_encoding(e: DocEntry) -> Seq<u8> {
    match e {
        DocEntry::ModuleId(v) => cbor_text(module_id_key()) + cbor_text(v),
        DocEntry::Digest(v) => cbor_text(digest_key()) + cbor_text(v),
        DocEntry::Timestamp(t) => cbor_text(timestamp_key()) + cbor_head(MAJOR_UINT, t as nat),
        DocEntry::Pcrs(p) => cbor_text(pcrs_key()) + (cbor_head(MAJOR_MAP, p.len()) + pcr_entries_encoding(p)),
        DocEntry::Certificate(v) => cbor_text(certificate_key()) + cbor_bytes(v),
        DocEntry::Cabundle(b) => cbor_text(cabundle_key()) + (cbor_head(MAJOR_ARRAY, b.len())
            + byte_strings_encoding(b)),
        DocEntry::PublicKey(o) => cbor_text(public_key_key()) + optional_bytes_encoding(o),
        DocEntry::UserData(o) => cbor_text(user_data_key()) + optional_bytes_encoding(o),
        DocEntry::Nonce(o) => cbor_text(nonce_key()) + optional_bytes_encoding(o),
        DocEntry::Other => seq![],
    }
}

/// A byte string or `null` whose length a CBOR head can state.
pub open spec fn optional_encodable(o: Option<Seq<u8>>) -> bool {
    o matches Some(b) ==> b.len() < 0x1_0000_0000_0000_0000
}

/// An entry of the document whose lengths CBOR heads can state.
pub open spec fn entry_encodable(e: DocEntry) -> bool {
    match e {
        DocEntry::ModuleId(v) => v.len() < 0x1_0000_0000_0000_0000,
        DocEntry::Digest(v) => v.len() < 0x1_0000_0000_0000_0000,
        DocEntry::Timestamp(_) => true,
        DocEntry::Pcrs(p) => p.len() < 0x1_0000_0000_0000_0000 && forall|i: int|
            0 <= i < p.len() ==> (#[trigger] p[i]).1.len() < 0x1_0000_0000_0000_0000,
        DocEntry::Certificate(v) => v.len() < 0x1_0000_0000_0000_0000,
        DocEntry::Cabundle(b) => b.len() < 0x1_0000_0000_0000_0000 && forall|i: int|
            0 <= i < b.len() ==> (#[trigger] b[i]).len() < 0x1_0000_0000_0000_0000,
        DocEntry::PublicKey(o) => optional_encodable(o),
        DocEntry::UserData(o) => optional_encodable(o),
        DocEntry::Nonce(o) => optional_encodable(o),
        DocEntry::Other => false,
    }
}

proof fn lemma_keys_distinct()
    ensures
        digest_key() != module_id_key(),
        timestamp_key() != module_id_key(),
        timestamp_key() != digest_key(),
        pcrs_key() != module_id_key(),
        pcrs_key() != digest_key(),
        pcrs_key() != timestamp_key(),
        certificate_key() != module_id_key(),
        certificate_key() != digest_key(),
        certificate_key() != timestamp_key(),
        certificate_key() != pcrs_key(),
        cabundle_key() != module_id_key(),
        cabundle_key() != digest_key(),
        cabundle_key() != timestamp_key(),
        cabundle_key() != pcrs_key(),
        cabundle_key() != certificate_key(),
        public_key_key() != module_id_key(),
        public_key_key() != digest_key(),
        public_key_key() != timestamp_key(),
        public_key_key() != pcrs_key(),
        public_key_key() != certificate_key(),
        public_key_key() != cabundle_key(),
        user_data_key() != module_id_key(),
        user_data_key() != digest_key(),
        user_data_key() != timestamp_key(),
        user_data_key() != pcrs_key(),
        user_data_key() != certificate_key(),
        user_data_key() != cabundle_key(),
        user_data_key() != public_key_key(),
        nonce_key() != module_id_key(),
        nonce_key() != digest_key(),
        nonce_key() != timestamp_key(),
        nonce_key() != pcrs_key(),
        nonce_key() != certificate_key(),
        nonce_key() != cabundle_key(),
        nonce_key() != public_key_key(),
        nonce_key() != user_data_key(),
{
    assert(module_id_key().len() == 9 && module_id_key()[0] == 0x6d);
    assert(digest_key().len() == 6);
    assert(timestamp_key().len() == 9 && timestamp_key()[0] == 0x74);
    assert(pcrs_key().len() == 4);
    assert(certificate_key().len() == 11);
    assert(cabundle_key().len() == 8);
    assert(public_key_key().len() == 10);
    assert(user_data_key().len() == 9 && user_data_key()[0] == 0x75);
    assert(nonce_key().len() == 5);
}

proof fn lemma_optional_reads_back(o: Option<Seq<u8>>, s: Seq<u8>, p: int)
    requires
        optional_encodable(o),
        0 <= p,
        p + optional_bytes_encoding(o).len() <= s.len(),
        s.subrange(p, p + optional_bytes_encoding(o).len()) == optional_bytes_encoding(o),
    ensures
        optional_bytes_at(s, p) == Some((o, p + optional_bytes_encoding(o).len())),
{
    match o {
        Some(b) => {
            lemma_bytes_item_reads_back(b, s, p);
            lemma_cbor_head_shape(MAJOR_BYTES, b.len());
            assert(s[p] == cbor_bytes(b)[0]);
            assert(cbor_bytes(b)[0] == cbor_head(MAJOR_BYTES, b.len())[0]);
            assert(s[p] != CBOR_NULL);
        },
        None => {
            assert(s[p] == s.subrange(p, p + 1)[0]);
        },
    }
}

proof fn lemma_entry_reads_back(e: DocEntry, s: Seq<u8>, pos: int)
    requires
        entry_encodable(e),
        0 <= pos,
        pos + entry_encoding(e).len() <= s.len(),
        s.subrange(pos, pos + entry_encoding(e).len()) == entry_encoding(e),
    ensures
        entry_at(s, pos) == Some((e, pos + entry_encoding(e).len())),
{
    reveal(entry_at);
    lemma_keys_distinct();
    let key = match e {
        DocEntry::ModuleId(_) => module_id_key(),
        DocEntry::Digest(_) => digest_key(),
        DocEntry::Timestamp(_) => timestamp_key(),
        DocEntry::Pcrs(_) => pcrs_key(),
        DocEntry::Certificate(_) => certificate_key(),
        DocEntry::Cabundle(_) => cabundle_key(),
        DocEntry::PublicKey(_) => public_key_key(),
        DocEntry::UserData(_) => user_data_key(),
        DocEntry::Nonce(_) => nonce_key(),
        DocEntry::Other => seq![],
    };
    let kt = cbor_text(key);
    let value = entry_encoding(e).subrange(kt.len() as int, entry_encoding(e).len() as int);
    assert(entry_encoding(e) =~= kt + value);
    lemma_split(s, pos, kt, value);
    assert(key.len() < 12);
    lemma_string_reads_back(MAJOR_TEXT, key, s, pos);
    let p = pos + kt.len();
    match e {
        DocEntry::ModuleId(v) => {
            assert(value == cbor_text(v));
            lemma_string_reads_back(MAJOR_TEXT, v, s, p);
        },
        DocEntry::Digest(v) => {
            assert(value == cbor_text(v));
            lemma_string_reads_back(MAJOR_TEXT, v, s, p);
        },
        DocEntry::Timestamp(t) => {
            assert(value == cbor_head(MAJOR_UINT, t as nat));
            law_cbor_head_reads_back(MAJOR_UINT, t as nat, s, p);
        },
        DocEntry::Pcrs(x) => {
            let h = cbor_head(MAJOR_MAP, x.len());
            assert(value == h + pcr_entries_encoding(x));
            lemma_split(s, p, h, pcr_entries_encoding(x));
            law_cbor_head_reads_back(MAJOR_MAP, x.len(), s, p);
            law_pcr_entries_read_back(x, s, p + h.len());
        },
        DocEntry::Certificate(v) => {
            assert(value == cbor_bytes(v));
            lemma_bytes_item_reads_back(v, s, p);
        },
        DocEntry::Cabundle(b) => {
            let h = cbor_head(MAJOR_ARRAY, b.len());
            assert(value == h + byte_strings_encoding(b));
            lemma_split(s, p, h, byte_strings_encoding(b));
            law_cbor_head_reads_back(MAJOR_ARRAY, b.len(), s, p);
            law_byte_strings_read_back(b, s, p + h.len());
        },
        DocEntry::PublicKey(o) => {
            assert(value == optional_bytes_encoding(o));
            lemma_optional_reads_back(o, s, p);
        },
        DocEntry::UserData(o) => {
            assert(value == optional_bytes_encoding(o));
            lemma_optional_reads_back(o, s, p);
        },
        DocEntry::Nonce(o) => {
            assert(value == optional_bytes_encoding(o));
            lemma_optional_reads_back(o, s, p);
        },
        DocEntry::Other => {},
    }
}

/// The CBOR encoding of a sequence of document entries.
pub open spec fn entries_encoding(es: Seq<DocEntry>) -> Seq<u8>
    decreases es.len(),
{
    if es.len() == 0 {
        seq![]
    } else {
        entry_encoding(es[0]) + entries_encoding(es.drop_first())
    }
}

proof fn lemma_entries_read_back(es: Seq<DocEntry>, s: Seq<u8>, pos: int)
    requires
        forall|i: int| 0 <= i < es.len() ==> entry_encodable(#[trigger] es[i]),
        0 <= pos,
        pos + entries_encoding(es).len() <= s.len(),
        s.subrange(pos, pos + entries_encoding(es).len()) == entries_encoding(es),
    ensures
        entries_at(s, pos, es.len()) == Some((es, pos + entries_encoding(es).len())),
    decreases es.len(),
{
    if es.len() > 0 {
        let a = entry_encoding(es[0]);
        let rest = es.drop_first();
        lemma_split(s, pos, a, entries_encoding(rest));
        lemma_entry_reads_back(es[0], s, pos);
        assert forall|i: int| 0 <= i < rest.len() implies entry_encodable(#[trigger] rest[i]) by {
            assert(rest[i] == es[i + 1]);
        }
        lemma_entries_read_back(rest, s, pos + a.len());
        assert(seq![es[0]] + rest =~= es);
    }
}

/// The entries of a document with fields `f`, in the order in which the
/// Nitro Secure Module writes them.
pub open spec fn document_entries(f: DocumentFields) -> Seq<DocEntry> {
    seq![
        DocEntry::ModuleId(f.module_id),
        DocEntry::Digest(f.digest),
        DocEntry::Timestamp(f.timestamp),
        DocEntry::Pcrs(f.pcrs),
        DocEntry::Certificate(f.certificate),
        DocEntry::Cabundle(f.cabundle),
        DocEntry::PublicKey(f.public_key),
        DocEntry::UserData(f.user_data),
        DocEntry::Nonce(f.nonce),
    ]
}

/// The CBOR encoding of a document with fields `f`: a map of its nine
/// entries.
pub open spec fn document_encoding(f: DocumentFields) -> Seq<u8> {
    cbor_head(MAJOR_MAP, 9) + entries_encoding(document_entries(f))
}

/// The fields of a document that CBOR can hold and the reading accepts:
/// lengths that a head can state, texts in UTF-8 and valid PCRs.
pub open spec fn document_fields_encodable(f: DocumentFields) -> bool {
    &&& f.module_id.len() < 0x1_0000_0000_0000_0000
    &&& f.digest.len() < 0x1_0000_0000_0000_0000
    &&& valid_utf8(f.module_id)
    &&& valid_utf8(f.digest)
    &&& f.pcrs.len() < 0x1_0000_0000_0000_0000
    &&& forall|i: int| 0 <= i < f.pcrs.len() ==> (#[trigger] f.pcrs[i]).1.len() < 0x1_0000_0000_0000_0000
    &&& pcr_entries_valid(f.pcrs)
    &&& f.certificate.len() < 0x1_0000_0000_0000_0000
    &&& f.cabundle.len() < 0x1_0000_0000_0000_0000
    &&& forall|i: int| 0 <= i < f.cabundle.len() ==> (#[trigger] f.cabundle[i]).len() < 0x1_0000_0000_0000_0000
    &&& optional_encodable(f.public_key)
    &&& optional_encodable(f.user_data)
    &&& optional_encodable(f.nonce)
}

proof fn lemma_entry_of_kind_at(es: Seq<DocEntry>, k: int)
    requires
        0 <= k < es.len(),
        forall|i: int| 0 <= i < es.len() ==> entry_kind(#[trigger] es[i]) == i,
    ensures
        entry_of_kind(es, k) == Some(es[k]),
    decreases es.len(),
{
    if k < es.len() - 1 {
        let d = es.drop_last();
        assert forall|i: int| 0 <= i < d.len() implies entry_kind(#[trigger] d[i]) == i by {
            assert(d[i] == es[i]);
        }
        lemma_entry_of_kind_at(d, k);
        assert(d[k] == es[k]);
    }
}

/// Reading a document gives back what was written: the CBOR map of the
/// nine entries of a document reads as exactly those fields, every byte of
/// every text, digest, certificate and optional field as it was written.
pub proof fn law_document_reads_back(f: DocumentFields)
    requires
        document_fields_encodable(f),
    ensures
        document_fields(document_encoding(f)) == Some(f),
{
    reveal(document_fields);
    let es = document_entries(f);
    let body = entries_encoding(es);
    let enc = document_encoding(f);
    let h = cbor_head(MAJOR_MAP, 9);
    assert(enc.subrange(0, enc.len() as int) =~= enc);
    lemma_split(enc, 0, h, body);
    law_cbor_head_reads_back(MAJOR_MAP, 9, enc, 0);
    assert(container_at(enc, 0, MAJOR_MAP) == Some((9nat, h.len() as int)));
    assert forall|i: int| 0 <= i < es.len() implies entry_encodable(#[trigger] es[i]) && entry_kind(es[i]) == i by {
        if i == 3 {
            assert(es[3] == DocEntry::Pcrs(f.pcrs));
        } else if i == 5 {
            assert(es[5] == DocEntry::Cabundle(f.cabundle));
        }
    }
    lemma_entries_read_back(es, enc, h.len() as int);
    assert(es.len() == 9);
    assert(entries_at(enc, h.len() as int, 9) == Some((es, enc.len() as int)));
    assert forall|k: int| 0 <= k < 9 implies (#[trigger] entry_of_kind(es, k)) == Some(es[k]) by {
        lemma_entry_of_kind_at(es, k);
    }
    assert(entries_valid(es)) by {
        assert forall|i: int| 0 <= i < es.len() implies crate::attestation::entry_ok(#[trigger] es[i]) by {
            if i == 3 {
                assert(es[3] == DocEntry::Pcrs(f.pcrs));
            }
        }
        assert(entry_of_kind(es, 0) is Some);
        assert(entry_of_kind(es, 1) is Some);
        assert(entry_of_kind(es, 2) is Some);
        assert(entry_of_kind(es, 3) is Some);
        assert(entry_of_kind(es, 4) is Some);
        assert(entry_of_kind(es, 5) is Some);
    }
    assert(entry_of_kind(es, 6) == Some(es[6]));
    assert(entry_of_kind(es, 7) == Some(es[7]));
    assert(entry_of_kind(es, 8) == Some(es[8]));
    assert(fields_of(es) == f);
}

/// The CBOR encoding of a `COSE_Sign1` message under tag 18 with
/// protected header `h`, an empty unprotected header, payload `p` and
/// signature `g`.
pub open spec fn envelope_encoding(h: Seq<u8>, p: Seq<u8>, g: Seq<u8>) -> Seq<u8> {
    seq![COSE_SIGN1_TAG] + cbor_head(MAJOR_ARRAY, 4) + cbor_bytes(h) + cbor_head(MAJOR_MAP, 0) + cbor_bytes(p)
        + cbor_bytes(g)
}

/// Reading an envelope gives back what was written: the protected header,
/// payload and signature, byte for byte.
pub proof fn law_envelope_reads_back(h: Seq<u8>, p: Seq<u8>, g: Seq<u8>)
    requires
        h.len() < 0x1_0000_0000_0000_0000,
        p.len() < 0x1_0000_0000_0000_0000,
        g.len() < 0x1_0000_0000_0000_0000,
    ensures
        envelope_fields(envelope_encoding(h, p, g)) == Some((h, p, g)),
{
    reveal(envelope_fields);
    let s = envelope_encoding(h, p, g);
    let a = cbor_head(MAJOR_ARRAY, 4);
    let m = cbor_head(MAJOR_MAP, 0);
    assert(s.subrange(0, s.len() as int) =~= s);
    let x0 = seq![COSE_SIGN1_TAG];
    let x1 = x0 + a;
    let x2 = x1 + cbor_bytes(h);
    let x3 = x2 + m;
    let x4 = x3 + cbor_bytes(p);
    assert(s == x4 + cbor_bytes(g));
    lemma_split(s, 0, x4, cbor_bytes(g));
    lemma_split(s, 0, x3, cbor_bytes(p));
    lemma_split(s, 0, x2, m);
    lemma_split(s, 0, x1, cbor_bytes(h));
    lemma_split(s, 0, x0, a);
    assert(s[0] == COSE_SIGN1_TAG);
    law_cbor_head_reads_back(MAJOR_ARRAY, 4, s, 1);
    lemma_bytes_item_reads_back(h, s, x1.len() as int);
    law_cbor_head_reads_back(MAJOR_MAP, 0, s, x2.len() as int);
    assert(item_end(s, x2.len() as int, MAX_NESTING as nat) == Some(x3.len() as int)) by {
        assert(items_end(s, x3.len() as int, 0, (MAX_NESTING - 1) as nat) == Some(x3.len() as int));
    }
    lemma_bytes_item_reads_back(p, s, x3.len() as int);
    lemma_bytes_item_reads_back(g, s, x4.len() as int);
}

/// Reading a report gives back what was written: an envelope whose payload
/// is the encoding of a document reads as that envelope and that document.
pub proof fn law_report_reads_back(h: Seq<u8>, g: Seq<u8>, f: DocumentFields)
    requires
        h.len() < 0x1_0000_0000_0000_0000,
        g.len() < 0x1_0000_0000_0000_0000,
        document_encoding(f).len() < 0x1_0000_0000_0000_0000,
        document_fields_encodable(f),
    ensures
        report_fields(envelope_encoding(h, document_encoding(f), g)) == Some((h, document_encoding(f), g, f)),
{
    law_envelope_reads_back(h, document_encoding(f), g);
    law_document_reads_back(f);
}

/// The DER length octets of a length `n` below 2^32, in the shortest
/// form: one byte below 0x80, else 0x80 plus the number of bytes of `n`,
/// then those bytes.
pub open spec fn der_length(n: nat) -> Seq<u8> {
    if n < 0x80 {
        seq![n as u8]
    } else if n < 0x100 {
        seq![0x81u8] + be_bytes(n, 1)
    } else if n < 0x1_0000 {
        seq![0x82u8] + be_bytes(n, 2)
    } else if n < 0x100_0000 {
        seq![0x83u8] + be_bytes(n, 3)
    } else {
        seq![0x84u8] + be_bytes(n, 4)
    }
}

/// The DER encoding of an element with tag `tag` and contents `c`.
pub open spec fn der_element(tag: u8, c: Seq<u8>) -> Seq<u8> {
    seq![tag] + der_length(c.len()) + c
}

proof fn lemma_be_nat_read_back(b: Seq<u8>)
    ensures
        be_bytes(be_nat(b), b.len()) == b,
    decreases b.len(),
{
    if b.len() > 0 {
        let d = b.drop_last();
        let x = be_nat(d);
        let n = x * 256 + b.last() as nat;
        assert(n / 256 == x && n % 256 == b.last()) by (nonlinear_arith)
            requires
                n == x * 256 + b.last() as nat,
                b.last() < 256,
        ;
        lemma_be_nat_read_back(d);
        assert(be_bytes(n, b.len()) =~= b);
    }
}

proof fn lemma_pow256_three()
    ensures
        pow256(3) == 0x100_0000,
{
    reveal_with_fuel(pow256, 4);
}

proof fn lemma_be_nat_leading(b: Seq<u8>)
    requires
        b.len() >= 1,
        b[0] != 0,
    ensures
        be_nat(b) >= pow256((b.len() - 1) as nat),
    decreases b.len(),
{
    if b.len() == 1 {
        reveal_with_fuel(be_nat, 2);
        assert(b.drop_last().len() == 0);
    } else {
        let d = b.drop_last();
        assert(d[0] == b[0]);
        lemma_be_nat_leading(d);
        let x = be_nat(d);
        assert(x * 256 + b.last() as nat >= 256 * pow256((d.len() - 1) as nat)) by (nonlinear_arith)
            requires
                x >= pow256((d.len() - 1) as nat),
        ;
    }
}

/// A DER element that the library writes reads back: wherever
/// `der_element(tag, c)` stands within the range read, the element read
/// there has tag `tag` and exactly the contents `c`.
pub proof fn law_der_element_reads_back(tag: u8, c: Seq<u8>, s: Seq<u8>, pos: int, end: int)
    requires
        c.len() < 0x1_0000_0000,
        0 <= pos,
        pos + der_element(tag, c).len() <= end <= s.len(),
        s.subrange(pos, pos + der_element(tag, c).len()) == der_element(tag, c),
    ensures
        tlv_at(s, pos, end) matches Some((t, a, b)) && t == tag && b == pos + der_element(tag, c).len()
            && a == b - c.len() && s.subrange(a, b) == c,
{
    reveal(tlv_at);
    let e = der_element(tag, c);
    let l = der_length(c.len());
    let n = c.len();
    lemma_pow256_values();
    lemma_pow256_three();
    let hd = seq![tag] + l;
    assert(e == hd + c);
    lemma_split(s, pos, hd, c);
    assert(s[pos] == hd[0]);
    assert(s[pos + 1] == hd[1]);
    let w: nat = if n < 0x80 {
        0
    } else if n < 0x100 {
        1
    } else if n < 0x1_0000 {
        2
    } else if n < 0x100_0000 {
        3
    } else {
        4
    };
    if w > 0 {
        lemma_be_bytes_len(n, w);
        assert(n < pow256(w));
        lemma_be_bytes_read_back(n, w);
        assert(l == seq![l[0]] + be_bytes(n, w));
        assert(s.subrange(pos + 2, pos + 2 + w) =~= hd.subrange(2, (2 + w) as int));
        assert(hd.subrange(2, (2 + w) as int) =~= be_bytes(n, w));
        assert(s[pos + 2] == be_bytes(n, w)[0]);
        if s[pos + 2] == 0 {
            let b = be_bytes(n, w);
            assert(be_nat(b) == be_nat(b.subrange(1, w as int))) by {
                lemma_be_nat_drop_zero(b);
            }
            lemma_be_nat_bound(b.subrange(1, w as int));
            reveal_with_fuel(pow256, 2);
        }
    }
    assert(l.len() == 1 + w);
}

proof fn lemma_be_nat_drop_zero(b: Seq<u8>)
    requires
        b.len() >= 1,
        b[0] == 0,
    ensures
        be_nat(b) == be_nat(b.subrange(1, b.len() as int)),
    decreases b.len(),
{
    if b.len() == 1 {
        reveal_with_fuel(be_nat, 2);
        assert(b.subrange(1, 1).len() == 0);
    } else {
        let d = b.drop_last();
        assert(d[0] == 0);
        lemma_be_nat_drop_zero(d);
        assert(b.subrange(1, b.len() as int).drop_last() =~= d.subrange(1, d.len() as int));
    }
}

/// The reader accepts DER only: every element it reads stands in the
/// bytes exactly as the library writes it, with the shortest length form,
/// so no two encodings of one element both read.
pub proof fn law_der_reading_is_canonical(s: Seq<u8>, pos: int, end: int)
    requires
        tlv_at(s, pos, end) is Some,
    ensures
        tlv_at(s, pos, end) matches Some((t, a, b)) && s.subrange(pos, b) == der_element(t, s.subrange(a, b)),
{
    reveal(tlv_at);
    lemma_pow256_values();
    lemma_pow256_three();
    let (t, a, b) = tlv_at(s, pos, end)->Some_0;
    let c = s.subrange(a, b);
    let first = s[pos + 1];
    if first >= 0x80 {
        let w = (first - 0x80) as nat;
        let lb = s.subrange(pos + 2, a);
        assert(lb.len() == w);
        assert(lb[0] == s[pos + 2]);
        lemma_be_nat_leading(lb);
        lemma_be_nat_bound(lb);
        lemma_be_nat_read_back(lb);
        if w == 1 {
            reveal_with_fuel(pow256, 2);
        }
        if w == 2 {
            reveal_with_fuel(pow256, 2);
        }
        if w == 3 {
            reveal_with_fuel(pow256, 3);
        }
        if w == 4 {
            reveal_with_fuel(pow256, 4);
        }
        assert(c.len() == be_nat(lb));
        assert(der_length(c.len()) == seq![first] + lb);
    }
    assert(s.subrange(pos, b) =~= der_element(t, c));
}

/// The contents of a Validity SEQUENCE: two time elements.
pub open spec fn validity_encoding(not_before: (u8, Seq<u8>), not_after: (u8, Seq<u8>)) -> Seq<u8> {
    der_element(not_before.0, not_before.1) + der_element(not_after.0, not_after.1)
}

/// The contents of a SubjectPublicKeyInfo of an EC key on secp384r1.
pub open spec fn spki_encoding(key: Seq<u8>) -> Seq<u8> {
    der_element(TAG_SEQUENCE, ec_p384_key_algorithm()) + der_element(TAG_BIT_STRING, seq![0u8] + key)
}

/// The contents of a `tbsCertificate`: version, serial number,
/// ecdsa-with-SHA384, issuer, validity, subject and subject public key
/// info, followed by `trailing` (unique identifiers, extensions).
pub open spec fn tbs_encoding(
    version: Seq<u8>,
    serial: Seq<u8>,
    issuer: Seq<u8>,
    not_before: (u8, Seq<u8>),
    not_after: (u8, Seq<u8>),
    subject: Seq<u8>,
    key: Seq<u8>,
    trailing: Seq<u8>,
) -> Seq<u8> {
    der_element(TAG_VERSION, version) + der_element(TAG_INTEGER, serial) + der_element(
        TAG_SEQUENCE,
        ecdsa_sha384_algorithm(),
    ) + der_element(TAG_SEQUENCE, issuer) + der_element(TAG_SEQUENCE, validity_encoding(not_before, not_after))
        + der_element(TAG_SEQUENCE, subject) + der_element(TAG_SEQUENCE, spki_encoding(key)) + trailing
}

proof fn lemma_piece(pre: Seq<u8>, a: Seq<u8>, post: Seq<u8>)
    ensures
        (pre + a + post).subrange(pre.len() as int, (pre.len() + a.len()) as int) == a,
{
    assert((pre + a + post).subrange(pre.len() as int, (pre.len() + a.len()) as int) =~= a);
}

proof fn lemma_validity_reads_back(s: Seq<u8>, pos: int, end: int, not_before: (u8, Seq<u8>), not_after: (u8, Seq<u8>))
    requires
        der_element(TAG_SEQUENCE, validity_encoding(not_before, not_after)).len() < 0x1_0000_0000,
        0 <= pos,
        pos + der_element(TAG_SEQUENCE, validity_encoding(not_before, not_after)).len() <= end <= s.len(),
        s.subrange(pos, pos + der_element(TAG_SEQUENCE, validity_encoding(not_before, not_after)).len())
            == der_element(TAG_SEQUENCE, validity_encoding(not_before, not_after)),
        time_seconds(not_before.0, not_before.1) is Some,
        time_seconds(not_after.0, not_after.1) is Some,
    ensures
        validity_at(s, pos, end) == Some((
            time_seconds(not_before.0, not_before.1)->Some_0,
            time_seconds(not_after.0, not_after.1)->Some_0,
            pos + der_element(TAG_SEQUENCE, validity_encoding(not_before, not_after)).len(),
        )),
{
    reveal(validity_at);
    let vc = validity_encoding(not_before, not_after);
    let e = der_element(TAG_SEQUENCE, vc);
    law_der_element_reads_back(TAG_SEQUENCE, vc, s, pos, end);
    let v0 = pos + e.len() - vc.len();
    let eb = der_element(not_before.0, not_before.1);
    let ea = der_element(not_after.0, not_after.1);
    assert(s.subrange(v0, v0 + vc.len()) == vc);
    lemma_split(s, v0, eb, ea);
    law_der_element_reads_back(not_before.0, not_before.1, s, v0, v0 + vc.len());
    law_der_element_reads_back(not_after.0, not_after.1, s, v0 + eb.len(), v0 + vc.len());
}

proof fn lemma_spki_reads_back(s: Seq<u8>, pos: int, end: int, key: Seq<u8>)
    requires
        der_element(TAG_SEQUENCE, spki_encoding(key)).len() < 0x1_0000_0000,
        0 <= pos,
        pos + der_element(TAG_SEQUENCE, spki_encoding(key)).len() <= end <= s.len(),
        s.subrange(pos, pos + der_element(TAG_SEQUENCE, spki_encoding(key)).len()) == der_element(
            TAG_SEQUENCE,
            spki_encoding(key),
        ),
    ensures
        spki_key_at(s, pos, end) == Some(key),
        after(s, pos, end, TAG_SEQUENCE) == Some(pos + der_element(TAG_SEQUENCE, spki_encoding(key)).len()),
{
    reveal(spki_key_at);
    reveal(after_algorithm);
    let kc = spki_encoding(key);
    let e = der_element(TAG_SEQUENCE, kc);
    law_der_element_reads_back(TAG_SEQUENCE, kc, s, pos, end);
    let k0 = pos + e.len() - kc.len();
    let ga = der_element(TAG_SEQUENCE, ec_p384_key_algorithm());
    let gb = der_element(TAG_BIT_STRING, seq![0u8] + key);
    assert(s.subrange(k0, k0 + kc.len()) == kc);
    lemma_split(s, k0, ga, gb);
    law_der_element_reads_back(TAG_SEQUENCE, ec_p384_key_algorithm(), s, k0, k0 + kc.len());
    law_der_element_reads_back(TAG_BIT_STRING, seq![0u8] + key, s, k0 + ga.len(), k0 + kc.len());
    let b0 = k0 + kc.len() - (key.len() + 1);
    assert(s.subrange(b0, k0 + kc.len()) == seq![0u8] + key);
    assert(s[b0] == (seq![0u8] + key)[0]);
    assert(s.subrange(b0 + 1, k0 + kc.len()) =~= (seq![0u8] + key).subrange(1, (key.len() + 1) as int));
    assert((seq![0u8] + key).subrange(1, (key.len() + 1) as int) =~= key);
}

/// Reading a `tbsCertificate` gives back what was written: wherever its
/// encoding stands, the issuer and subject read are the Name elements as
/// they were written, the validity times are those of the two time
/// elements, and the key is the bit string's contents after its
/// unused-bits byte, whatever follows the subject public key info.
#[verifier::rlimit(60)]
pub proof fn law_tbs_reads_back(
    version: Seq<u8>,
    serial: Seq<u8>,
    issuer: Seq<u8>,
    not_before: (u8, Seq<u8>),
    not_after: (u8, Seq<u8>),
    subject: Seq<u8>,
    key: Seq<u8>,
    trailing: Seq<u8>,
    s: Seq<u8>,
    t0: int,
)
    requires
        tbs_encoding(version, serial, issuer, not_before, not_after, subject, key, trailing).len() < 0x1_0000_0000,
        time_seconds(not_before.0, not_before.1) is Some,
        time_seconds(not_after.0, not_after.1) is Some,
        0 <= t0,
        t0 + tbs_encoding(version, serial, issuer, not_before, not_after, subject, key, trailing).len() <= s.len(),
        s.subrange(t0, t0 + tbs_encoding(version, serial, issuer, not_before, not_after, subject, key, trailing).len())
            == tbs_encoding(version, serial, issuer, not_before, not_after, subject, key, trailing),
    ensures
        tbs_fields(s, t0, t0 + tbs_encoding(
            version,
            serial,
            issuer,
            not_before,
            not_after,
            subject,
            key,
            trailing,
        ).len()) == Some(
            TbsFields {
                issuer: der_element(TAG_SEQUENCE, issuer),
                subject: der_element(TAG_SEQUENCE, subject),
                not_before: time_seconds(not_before.0, not_before.1)->Some_0,
                not_after: time_seconds(not_after.0, not_after.1)->Some_0,
                key: key,
            },
        ),
{
    reveal(tbs_fields);
    reveal(after_algorithm);
    let e0 = der_element(TAG_VERSION, version);
    let e1 = der_element(TAG_INTEGER, serial);
    let e2 = der_element(TAG_SEQUENCE, ecdsa_sha384_algorithm());
    let e3 = der_element(TAG_SEQUENCE, issuer);
    let e4 = der_element(TAG_SEQUENCE, validity_encoding(not_before, not_after));
    let e5 = der_element(TAG_SEQUENCE, subject);
    let e6 = der_element(TAG_SEQUENCE, spki_encoding(key));
    let tbs = tbs_encoding(version, serial, issuer, not_before, not_after, subject, key, trailing);
    let end = t0 + tbs.len();
    let r6 = e6 + trailing;
    let r5 = e5 + r6;
    let r4 = e4 + r5;
    let r3 = e3 + r4;
    let r2 = e2 + r3;
    let r1 = e1 + r2;
    assert(tbs =~= e0 + r1);
    let p1 = t0 + e0.len();
    let p2 = p1 + e1.len();
    let p3 = p2 + e2.len();
    let p4 = p3 + e3.len();
    let p5 = p4 + e4.len();
    let p6 = p5 + e5.len();
    lemma_split(s, t0, e0, r1);
    lemma_split(s, p1, e1, r2);
    lemma_split(s, p2, e2, r3);
    lemma_split(s, p3, e3, r4);
    lemma_split(s, p4, e4, r5);
    lemma_split(s, p5, e5, r6);
    lemma_split(s, p6, e6, trailing);
    law_der_element_reads_back(TAG_VERSION, version, s, t0, end);
    assert(after_version(s, t0, end) == p1);
    law_der_element_reads_back(TAG_INTEGER, serial, s, p1, end);
    law_der_element_reads_back(TAG_SEQUENCE, ecdsa_sha384_algorithm(), s, p2, end);
    law_der_element_reads_back(TAG_SEQUENCE, issuer, s, p3, end);
    lemma_validity_reads_back(s, p4, end, not_before, not_after);
    law_der_element_reads_back(TAG_SEQUENCE, subject, s, p5, end);
    lemma_spki_reads_back(s, p6, end, key);
}

/// The contents of the DER INTEGER of the non-negative number whose
/// big-endian bytes are `x`: without leading zero bytes, with one zero
/// byte in front where the first byte has its high bit set, and a single
/// zero byte for zero.
pub open spec fn der_uint(x: Seq<u8>) -> Seq<u8> {
    let v = strip_zeros(x);
    if v.len() == 0 {
        seq![0u8]
    } else if v[0] >= 0x80 {
        seq![0u8] + v
    } else {
        v
    }
}

proof fn lemma_strip_zeros(x: Seq<u8>)
    ensures
        strip_zeros(x).len() <= x.len(),
        strip_zeros(x).len() > 0 ==> strip_zeros(x)[0] != 0,
        x == Seq::new((x.len() - strip_zeros(x).len()) as nat, |i: int| 0u8) + strip_zeros(x),
    decreases x.len(),
{
    if x.len() > 0 && x[0] == 0 {
        let d = x.drop_first();
        lemma_strip_zeros(d);
        let v = strip_zeros(x);
        assert(v == strip_zeros(d));
        let zx = Seq::new((x.len() - v.len()) as nat, |i: int| 0u8);
        let zd = Seq::new((d.len() - v.len()) as nat, |i: int| 0u8);
        assert forall|i: int| 0 <= i < x.len() implies x[i] == (zx + v)[i] by {
            if i > 0 {
                assert(x[i] == d[i - 1]);
                assert(d[i - 1] == (zd + v)[i - 1]);
            }
        }
        assert(x =~= zx + v);
    } else {
        assert(x =~= Seq::new(0, |i: int| 0u8) + x);
    }
}

/// A 48-byte scalar written as a DER INTEGER reads back as those 48 bytes.
pub proof fn law_scalar_reads_back(x: Seq<u8>)
    requires
        x.len() == 48,
    ensures
        fixed48(der_uint(x)) == Some(x),
{
    lemma_strip_zeros(x);
    let v = strip_zeros(x);
    let d = der_uint(x);
    if v.len() == 0 {
        assert(strip_zeros(d) == strip_zeros(d.drop_first()));
        assert(d.drop_first().len() == 0);
    } else if v[0] >= 0x80 {
        assert(d.drop_first() =~= v);
        assert(strip_zeros(d) == strip_zeros(d.drop_first()));
    }
    assert(strip_zeros(d) == v);
}

/// The DER `Ecdsa-Sig-Value` of the signature `r || s`.
pub open spec fn signature_value_encoding(sig: Seq<u8>) -> Seq<u8> {
    der_element(
        TAG_SEQUENCE,
        der_element(TAG_INTEGER, der_uint(sig.take(48))) + der_element(TAG_INTEGER, der_uint(sig.skip(48))),
    )
}

/// The DER certificate with `tbsCertificate` contents `tbs`, signed with
/// ecdsa-with-SHA384, with the signature `r || s`.
pub open spec fn certificate_encoding(tbs: Seq<u8>, sig: Seq<u8>) -> Seq<u8> {
    der_element(
        TAG_SEQUENCE,
        der_element(TAG_SEQUENCE, tbs) + der_element(TAG_SEQUENCE, ecdsa_sha384_algorithm()) + der_element(
            TAG_BIT_STRING,
            seq![0u8] + signature_value_encoding(sig),
        ),
    )
}

proof fn lemma_signature_value_reads_back(sig: Seq<u8>, s: Seq<u8>, a: int)
    requires
        sig.len() == 96,
        0 <= a,
        a + signature_value_encoding(sig).len() <= s.len(),
        signature_value_encoding(sig).len() < 0x1_0000_0000,
        s.subrange(a, a + signature_value_encoding(sig).len()) == signature_value_encoding(sig),
    ensures
        ecdsa_sig_value(s, a, a + signature_value_encoding(sig).len()) == Some(sig),
{
    reveal(ecdsa_sig_value);
    let r = sig.take(48);
    let sv = sig.skip(48);
    let ir = der_element(TAG_INTEGER, der_uint(r));
    let is = der_element(TAG_INTEGER, der_uint(sv));
    let c = ir + is;
    let e = signature_value_encoding(sig);
    let b = a + e.len();
    law_der_element_reads_back(TAG_SEQUENCE, c, s, a, b);
    let e0 = b - c.len();
    lemma_split(s, e0, ir, is);
    law_der_element_reads_back(TAG_INTEGER, der_uint(r), s, e0, b);
    law_der_element_reads_back(TAG_INTEGER, der_uint(sv), s, e0 + ir.len(), b);
    law_scalar_reads_back(r);
    law_scalar_reads_back(sv);
    assert(r + sv =~= sig);
}

/// Reading a certificate gives back what was written: the signed bytes are
/// the `tbsCertificate` element as it stands, the names, validity and key
/// are those of its fields (whatever follows the subject public key info),
/// and the signature is the `r || s` that was written.
#[verifier::rlimit(100)]
#[verifier::spinoff_prover]
pub proof fn law_certificate_reads_back(
    version: Seq<u8>,
    serial: Seq<u8>,
    issuer: Seq<u8>,
    not_before: (u8, Seq<u8>),
    not_after: (u8, Seq<u8>),
    subject: Seq<u8>,
    key: Seq<u8>,
    trailing: Seq<u8>,
    sig: Seq<u8>,
)
    requires
        certificate_encoding(
            tbs_encoding(version, serial, issuer, not_before, not_after, subject, key, trailing),
            sig,
        ).len() < 0x1_0000_0000,
        time_seconds(not_before.0, not_before.1) is Some,
        time_seconds(not_after.0, not_after.1) is Some,
        sig.len() == 96,
    ensures
        certificate_info(
            certificate_encoding(
                tbs_encoding(version, serial, issuer, not_before, not_after, subject, key, trailing),
                sig,
            ),
        ) == Some(
            CertInfo {
                tbs: der_element(
                    TAG_SEQUENCE,
                    tbs_encoding(version, serial, issuer, not_before, not_after, subject, key, trailing),
                ),
                issuer: der_element(TAG_SEQUENCE, issuer),
                subject: der_element(TAG_SEQUENCE, subject),
                not_before: time_seconds(not_before.0, not_before.1)->Some_0,
                not_after: time_seconds(not_after.0, not_after.1)->Some_0,
                key: key,
                signature: sig,
            },
        ),
{
    reveal(certificate_info);
    reveal(after_algorithm);
    let tbs = tbs_encoding(version, serial, issuer, not_before, not_after, subject, key, trailing);
    let et = der_element(TAG_SEQUENCE, tbs);
    let ea = der_element(TAG_SEQUENCE, ecdsa_sha384_algorithm());
    let sve = signature_value_encoding(sig);
    let eb = der_element(TAG_BIT_STRING, seq![0u8] + sve);
    let inner = et + ea + eb;
    let c = certificate_encoding(tbs, sig);
    let n = c.len() as int;
    assert(c.subrange(0, n) =~= c);
    law_der_element_reads_back(TAG_SEQUENCE, inner, c, 0, n);
    let a = n - inner.len();
    lemma_split(c, a, et + ea, eb);
    lemma_split(c, a, et, ea);
    law_der_element_reads_back(TAG_SEQUENCE, tbs, c, a, n);
    let t1 = a + et.len();
    let t0 = t1 - tbs.len();
    law_tbs_reads_back(version, serial, issuer, not_before, not_after, subject, key, trailing, c, t0);
    law_der_element_reads_back(TAG_SEQUENCE, ecdsa_sha384_algorithm(), c, t1, n);
    let o1 = t1 + ea.len();
    law_der_element_reads_back(TAG_BIT_STRING, seq![0u8] + sve, c, o1, n);
    let z0 = n - (sve.len() + 1);
    assert(c.subrange(z0, n) == seq![0u8] + sve);
    assert(c[z0] == (seq![0u8] + sve)[0]);
    assert(c.subrange(z0 + 1, n) =~= (seq![0u8] + sve).subrange(1, (sve.len() + 1) as int));
    assert((seq![0u8] + sve).subrange(1, (sve.len() + 1) as int) =~= sve);
    lemma_signature_value_reads_back(sig, c, z0 + 1);
    assert(c.subrange(a, t1) == et);
}

/// The two ASCII decimal digits of `n` (below 100).
pub open spec fn two_digit_text(n: int) -> Seq<u8> {
    seq![(0x30 + n / 10) as u8, (0x30 + n % 10) as u8]
}

/// The `MMDDHHMMSSZ` part of a time.
pub open spec fn time_of_year_text(mo: int, d: int, h: int, mi: int, se: int) -> Seq<u8> {
    two_digit_text(mo) + two_digit_text(d) + two_digit_text(h) + two_digit_text(mi) + two_digit_text(se) + seq![
        0x5au8,
    ]
}

/// The contents of the `UTCTime` of a date and time: `YYMMDDHHMMSSZ`.
pub open spec fn utc_time_text(y: int, mo: int, d: int, h: int, mi: int, se: int) -> Seq<u8> {
    two_digit_text(y % 100) + time_of_year_text(mo, d, h, mi, se)
}

/// The contents of the `GeneralizedTime` of a date and time:
/// `YYYYMMDDHHMMSSZ`.
pub open spec fn generalized_time_text(y: int, mo: int, d: int, h: int, mi: int, se: int) -> Seq<u8> {
    two_digit_text(y / 100) + two_digit_text(y % 100) + time_of_year_text(mo, d, h, mi, se)
}

proof fn lemma_two_digits_read_back(c: Seq<u8>, i: int, n: int)
    requires
        0 <= n < 100,
        0 <= i,
        i + 2 <= c.len(),
        c.subrange(i, i + 2) == two_digit_text(n),
    ensures
        two_digits(c, i) == n,
        crate::asn1time::is_digit(c[i]),
        crate::asn1time::is_digit(c[i + 1]),
{
    assert(c[i] == two_digit_text(n)[0]);
    assert(c[i + 1] == two_digit_text(n)[1]);
    assert(n == (n / 10) * 10 + n % 10 && 0 <= n / 10 < 10 && 0 <= n % 10 < 10) by (nonlinear_arith)
        requires
            0 <= n < 100,
    ;
}

proof fn lemma_time_of_year_read_back(c: Seq<u8>, off: int, mo: int, d: int, h: int, mi: int, se: int)
    requires
        1 <= mo <= 12,
        1 <= d <= 31,
        0 <= h < 24,
        0 <= mi < 60,
        0 <= se < 60,
        0 <= off,
        c.len() == off + 11,
        c.subrange(off, off + 11) == time_of_year_text(mo, d, h, mi, se),
    ensures
        two_digits(c, off) == mo,
        two_digits(c, off + 2) == d,
        two_digits(c, off + 4) == h,
        two_digits(c, off + 6) == mi,
        two_digits(c, off + 8) == se,
        forall|i: int| off <= i < off + 10 ==> crate::asn1time::is_digit(#[trigger] c[i]),
        c[off + 10] == 0x5a,
{
    let t = time_of_year_text(mo, d, h, mi, se);
    assert(c.subrange(off, off + 2) =~= t.subrange(0, 2));
    assert(t.subrange(0, 2) =~= two_digit_text(mo));
    assert(c.subrange(off + 2, off + 4) =~= t.subrange(2, 4));
    assert(t.subrange(2, 4) =~= two_digit_text(d));
    assert(c.subrange(off + 4, off + 6) =~= t.subrange(4, 6));
    assert(t.subrange(4, 6) =~= two_digit_text(h));
    assert(c.subrange(off + 6, off + 8) =~= t.subrange(6, 8));
    assert(t.subrange(6, 8) =~= two_digit_text(mi));
    assert(c.subrange(off + 8, off + 10) =~= t.subrange(8, 10));
    assert(t.subrange(8, 10) =~= two_digit_text(se));
    lemma_two_digits_read_back(c, off, mo);
    lemma_two_digits_read_back(c, off + 2, d);
    lemma_two_digits_read_back(c, off + 4, h);
    lemma_two_digits_read_back(c, off + 6, mi);
    lemma_two_digits_read_back(c, off + 8, se);
    assert(c[off + 10] == t[10]);
}

/// A time written as a `UTCTime` reads back as its UNIX time, for every
/// valid date and time from 1970 to 2049 (the years that `UTCTime` holds:
/// two-digit years below 50 are read as 20YY, the others as 19YY).
pub proof fn law_utc_time_reads_back(y: int, mo: int, d: int, h: int, mi: int, se: int)
    requires
        fields_valid(y, mo, d, h, mi, se),
        y <= 2049,
    ensures
        time_seconds(TAG_UTC_TIME, utc_time_text(y, mo, d, h, mi, se)) == Some(unix_seconds(y, mo, d, h, mi, se)),
{
    let c = utc_time_text(y, mo, d, h, mi, se);
    assert(c.subrange(0, 2) =~= two_digit_text(y % 100));
    lemma_two_digits_read_back(c, 0, y % 100);
    assert(c.subrange(2, 13) =~= time_of_year_text(mo, d, h, mi, se));
    lemma_time_of_year_read_back(c, 2, mo, d, h, mi, se);
    assert(all_digits(c, 12));
    if y >= 2000 {
        assert(y % 100 == y - 2000);
    } else {
        assert(y % 100 == y - 1900);
    }
}

/// A time written as a `GeneralizedTime` reads back as its UNIX time, for
/// every valid date and time from 1970 to 9999.
pub proof fn law_generalized_time_reads_back(y: int, mo: int, d: int, h: int, mi: int, se: int)
    requires
        fields_valid(y, mo, d, h, mi, se),
        y <= 9999,
    ensures
        time_seconds(TAG_GENERALIZED_TIME, generalized_time_text(y, mo, d, h, mi, se)) == Some(
            unix_seconds(y, mo, d, h, mi, se),
        ),
{
    let c = generalized_time_text(y, mo, d, h, mi, se);
    assert(c.subrange(0, 2) =~= two_digit_text(y / 100));
    lemma_two_digits_read_back(c, 0, y / 100);
    assert(c.subrange(2, 4) =~= two_digit_text(y % 100));
    lemma_two_digits_read_back(c, 2, y % 100);
    assert(c.subrange(4, 15) =~= time_of_year_text(mo, d, h, mi, se));
    lemma_time_of_year_read_back(c, 4, mo, d, h, mi, se);
    assert(all_digits(c, 14));
    assert((y / 100) * 100 + y % 100 == y) by (nonlinear_arith);
}

/// The items of a CBOR array of four strings (a text, then three byte
/// strings) that fills `s`.
pub open spec fn four_strings(s: Seq<u8>) -> Option<(Seq<u8>, Seq<u8>, Seq<u8>, Seq<u8>)> {
    match container_at(s, 0, MAJOR_ARRAY) {
        Some((n, a1)) => match string_at(s, a1, MAJOR_TEXT) {
            Some((w, a2)) => match string_at(s, a2, MAJOR_BYTES) {
                Some((x, a3)) => match string_at(s, a3, MAJOR_BYTES) {
                    Some((y, a4)) => match string_at(s, a4, MAJOR_BYTES) {
                        Some((z, a5)) => if n == 4 && a5 == s.len() {
                            Some((w, x, y, z))
                        } else {
                            None
                        },
                        None => None,
                    },
                    None => None,
                },
                None => None,
            },
            None => None,
        },
        None => None,
    }
}

/// The `Sig_structure` that is signed reads back, with a CBOR reader, as
/// the array `["Signature1", protected, h'', payload]`: the context, the
/// protected header and the payload exactly as given, and an empty
/// external additional authenticated data.
pub proof fn law_sig_structure_reads_back(protected: Seq<u8>, payload: Seq<u8>)
    requires
        protected.len() < 0x1_0000_0000_0000_0000,
        payload.len() < 0x1_0000_0000_0000_0000,
    ensures
        four_strings(sig_structure_encoding(protected, payload)) == Some(
            (signature1_context(), protected, Seq::<u8>::empty(), payload),
        ),
{
    let s = sig_structure_encoding(protected, payload);
    let h = cbor_head(MAJOR_ARRAY, 4);
    let w = cbor_text(signature1_context());
    let x = cbor_bytes(protected);
    let y = cbor_bytes(Seq::<u8>::empty());
    let z = cbor_bytes(payload);
    assert(s == h + w + x + y + z);
    assert(s.subrange(0, s.len() as int) =~= s);
    lemma_split(s, 0, h + w + x + y, z);
    lemma_split(s, 0, h + w + x, y);
    lemma_split(s, 0, h + w, x);
    lemma_split(s, 0, h, w);
    law_cbor_head_reads_back(MAJOR_ARRAY, 4, s, 0);
    assert(signature1_context().len() == 10);
    lemma_string_reads_back(MAJOR_TEXT, signature1_context(), s, h.len() as int);
    lemma_bytes_item_reads_back(protected, s, (h + w).len() as int);
    lemma_bytes_item_reads_back(Seq::<u8>::empty(), s, (h + w + x).len() as int);
    lemma_bytes_item_reads_back(payload, s, (h + w + x + y).len() as int);
}

} // verus!
