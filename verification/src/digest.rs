//! The content hash and its hex rendering, bound to outside crates.

use vstd::prelude::*;

use sha1::{Digest, Sha1};

verus! {

/// The 20-byte cryptographic digest of a byte string: the identity of an
/// object.  The result depends on the input bytes alone.
pub uninterp spec fn sha1_of(b: Seq<u8>) -> Seq<u8>;

/// Relies on sha1::Sha1 through the digest traits: the digest is a pure
/// function of the input bytes and is always 20 bytes long.
#[verifier::external_body]
pub(crate) fn sha1_digest(b: &[u8]) -> (r: Vec<u8>)
    ensures
        r@ == sha1_of(b@),
        r@.len() == 20,
{
    let mut hasher = Sha1::new();
    hasher.update(b);
    let out: [u8; 20] = hasher.finalize().into();
    out.to_vec()
}

/// The lowercase hex digit for a value below 16.
pub open spec fn hex_digit(n: u8) -> u8 {
    if n < 10 {
        (48 + n) as u8
    } else {
        (87 + n) as u8
    }
}

/// Lowercase hex encoding: two digits per byte, high nibble first.
pub open spec fn hex_bytes_of(b: Seq<u8>) -> Seq<u8>
    decreases b.len(),
{
    if b.len() == 0 {
        Seq::empty()
    } else {
        seq![hex_digit(b[0] / 16), hex_digit(b[0] % 16)] + hex_bytes_of(b.skip(1))
    }
}

/// Hex doubles the length.
pub proof fn lemma_hex_len(b: Seq<u8>)
    ensures
        hex_bytes_of(b).len() == 2 * b.len(),
    decreases b.len(),
{
    if b.len() > 0 {
        lemma_hex_len(b.skip(1));
    }
}

/// Relies on hex::encode: each byte becomes its high then its low nibble,
/// drawn from the lowercase table "0123456789abcdef".
#[verifier::external_body]
pub(crate) fn hex_lower(b: &[u8]) -> (r: Vec<u8>)
    ensures
        r@ == hex_bytes_of(b@),
{
    hex::encode(b).into_bytes()
}

} // verus!
