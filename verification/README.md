# nitro_attestation

Verified checks on AWS Nitro Enclave attestation reports, written in Verus.

`AttestationVerifier::verify` takes the encoded report and the number of
trusted certificates at the start of the chain, and

1. decodes the `COSE_Sign1` envelope and the attestation document
   (`attestation`, on top of the CBOR reader in `cbor`);
2. checks the document's content (`document`);
3. validates the X.509 chain, CA bundle then leaf, at the document's
   timestamp (`chain`, on top of the DER reader in `cert` and the time
   reader in `asn1time`): every certificate must read, and every one after
   the trusted prefix must name its parent as issuer, carry a signature that
   verifies under the parent's key, and be valid at the timestamp;
4. verifies the COSE signature over the `Sig_structure` (`cose`) with the
   leaf's key;
5. builds the journal (`journal`): the keccak-256 digest and `notAfter` of
   every certificate, root first, the PCRs in index order, and the optional
   fields.

The calls into `p384` (key and signature decoding, ECDSA/SHA-384
verification) and into `alloy-primitives` (keccak-256) stand in `ecdsa` and
`chain` with their trusted contracts. `laws` proves properties that span
these steps. `error` and `text` hold the error kinds and their messages.

`app/` is a small host program that reads a raw attestation document from
the path in `NITRO_ATTESTATION` and verifies it.

The document's entries may come in any order; an entry under a key that
the document does not have is skipped, and a repeated key is refused. The
envelope's unprotected header may be any map of well-formed items nested at
most 128 deep; it is not kept. The journal is returned as a value; its
Solidity ABI encoding is not part of the library.
