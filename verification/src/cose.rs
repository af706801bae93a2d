//! The `COSE_Sign1` envelope of an attestation and the `Sig_structure`
//! (RFC 8152, section 4.4) over which its signature is computed.

use vstd::prelude::*;

verus! {

/// The parts of a `COSE_Sign1` message that signature verification reads.
#[derive(Debug)]
pub struct CoseSign1 {
    /// The serialized protected header (a CBOR byte string's content).
    pub protected: Vec<u8>,
    /// The payload: the CBOR-encoded attestation document.
    pub payload: Vec<u8>,
    /// The signature: `r || s` of an ECDSA/P-384 signature.
    pub signature: Vec<u8>,
}

/// The `width` low-order bytes of `n`, most significant first.
pub open spec fn be_bytes(n: nat, width: nat) -> Seq<u8>
    decreases width,
{
    if width == 0 {
        seq![]
    } else {
        be_bytes(n / 256, (width - 1) as nat).push((n % 256) as u8)
    }
}

/// The CBOR initial byte and argument of a data item of major type `major`
/// with argument `n`, in its shortest form (RFC 8949, section 3).
pub open spec fn cbor_head(major: u8, n: nat) -> Seq<u8> {
    let base: int = major * 32;
    if n < 24 {
        seq![(base + n) as u8]
    } else if n < 0x100 {
        seq![(base + 24) as u8] + be_bytes(n, 1)
    } else if n < 0x1_0000 {
        seq![(base + 25) as u8] + be_bytes(n, 2)
    } else if n < 0x1_0000_0000 {
        seq![(base + 26) as u8] + be_bytes(n, 4)
    } else {
        seq![(base + 27) as u8] + be_bytes(n, 8)
    }
}

/// CBOR major type of byte strings.
pub const MAJOR_BYTES: u8 = 2;

/// CBOR major type of text strings.
pub const MAJOR_TEXT: u8 = 3;

/// CBOR major type of arrays.
pub const MAJOR_ARRAY: u8 = 4;

/// The CBOR encoding of a byte string.
pub open spec fn cbor_bytes(b: Seq<u8>) -> Seq<u8> {
    cbor_head(MAJOR_BYTES, b.len()) + b
}

/// The CBOR encoding of a text string given by its UTF-8 bytes.
pub open spec fn cbor_text(t: Seq<u8>) -> Seq<u8> {
    cbor_head(MAJOR_TEXT, t.len()) + t
}

/// The context string `"Signature1"` as UTF-8 bytes.
pub open spec fn signature1_context() -> Seq<u8> {
    seq![0x53u8, 0x69, 0x67, 0x6e, 0x61, 0x74, 0x75, 0x72, 0x65, 0x31]
}

/// The CBOR encoding of the `Sig_structure` of a `COSE_Sign1` message:
/// `["Signature1", protected, external_aad = h'', payload]`.
pub open spec fn sig_structure_encoding(protected: Seq<u8>, payload: Seq<u8>) -> Seq<u8> {
    cbor_head(MAJOR_ARRAY, 4) + cbor_text(signature1_context()) + cbor_bytes(protected)
        + cbor_bytes(seq![]) + cbor_bytes(payload)
}

fn push_be(out: &mut Vec<u8>, n: u64, width: u64)
    ensures
        final(out)@ == old(out)@ + be_bytes(n as nat, width as nat),
    decreases width,
{
    if width > 0 {
        push_be(out, n / 256, width - 1);
        out.push((n % 256) as u8);
    }
}

fn push_head(out: &mut Vec<u8>, major: u8, n: u64)
    requires
        major < 8,
    ensures
        final(out)@ == old(out)@ + cbor_head(major, n as nat),
{
    let base: u8 = major * 32;
    if n < 24 {
        out.push(base + n as u8);
    } else if n < 0x100 {
        out.push(base + 24);
        push_be(out, n, 1);
    } else if n < 0x1_0000 {
        out.push(base + 25);
        push_be(out, n, 2);
    } else if n < 0x1_0000_0000 {
        out.push(base + 26);
        push_be(out, n, 4);
    } else {
        out.push(base + 27);
        push_be(out, n, 8);
    }
    assert(out@ =~= old(out)@ + cbor_head(major, n as nat));
}

fn push_all(out: &mut Vec<u8>, bytes: &[u8])
    ensures
        final(out)@ == old(out)@ + bytes@,
{
    let ghost start = out@;
    let mut i: usize = 0;
    while i < bytes.len()
        invariant
            0 <= i <= bytes@.len(),
            out@ == start + bytes@.take(i as int),
        decreases bytes@.len() - i,
    {
        out.push(bytes[i]);
        i = i + 1;
        assert(out@ =~= start + bytes@.take(i as int));
    }
    assert(bytes@.take(i as int) =~= bytes@);
}

fn push_bytes_item(out: &mut Vec<u8>, bytes: &[u8])
    ensures
        final(out)@ == old(out)@ + cbor_bytes(bytes@),
{
    push_head(out, MAJOR_BYTES, bytes.len() as u64);
    push_all(out, bytes);
    assert(out@ =~= old(out)@ + cbor_bytes(bytes@));
}

impl CoseSign1 {
    /// The CBOR-encoded `Sig_structure` over which `signature` was made:
    /// the context `"Signature1"`, the protected header, an empty external
    /// additional authenticated data, and the payload.
    pub fn sig_structure(&self) -> (r: Vec<u8>)
        ensures
            r@ == sig_structure_encoding(self.protected@, self.payload@),
    {
        let mut out: Vec<u8> = Vec::new();
        push_head(&mut out, MAJOR_ARRAY, 4);
        push_head(&mut out, MAJOR_TEXT, 10);
        let context: [u8; 10] = [0x53, 0x69, 0x67, 0x6e, 0x61, 0x74, 0x75, 0x72, 0x65, 0x31];
        push_all(&mut out, &context);
        push_bytes_item(&mut out, self.protected.as_slice());
        let empty: [u8; 0] = [];
        push_bytes_item(&mut out, &empty);
        push_bytes_item(&mut out, self.payload.as_slice());
        proof {
            assert(context@ =~= signature1_context());
            assert(empty@ =~= Seq::<u8>::empty());
        }
        assert(out@ =~= sig_structure_encoding(self.protected@, self.payload@));
        out
    }
}

} // verus!
