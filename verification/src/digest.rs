//! BLAKE3 digests rendered as lowercase hexadecimal text.
use vstd::prelude::*;

use crate::text::{hex_lower, is_lower_hex_char, lemma_hex_lower_len, push_hex_lower};

verus! {

/// The 32-byte BLAKE3 hash of a byte string.
pub uninterp spec fn blake3_digest(data: Seq<u8>) -> Seq<u8>;

/// `blake3::Hasher`: `new`, `update(head)`, `update(tail)`, `finalize`.
/// The crate documents incremental updates as hashing the concatenation, and
/// a `Hash` as `OUT_LEN` (32) bytes.
#[verifier::external_body]
fn blake3_of_parts(head: &[u8], tail: &[u8]) -> (d: Vec<u8>)
    ensures
        d@ == blake3_digest(head@ + tail@),
        d@.len() == 32,
{
    let mut hasher = blake3::Hasher::new();
    hasher.update(head);
    hasher.update(tail);
    hasher.finalize().as_bytes().to_vec()
}

/// The lowercase hexadecimal BLAKE3 digest of `data`.
pub open spec fn digest_text(data: Seq<u8>) -> Seq<char> {
    hex_lower(blake3_digest(data))
}

/// Hashes `head` followed by `tail` and renders the digest in lowercase hex.
pub fn digest_hex(head: &[u8], tail: &[u8]) -> (s: String)
    ensures
        s@ == digest_text(head@ + tail@),
        s@.len() == 64,
        forall|i: int| 0 <= i < s@.len() ==> is_lower_hex_char(#[trigger] s@[i]),
{
    let d = blake3_of_parts(head, tail);
    let mut s = String::new();
    push_hex_lower(&mut s, d.as_slice());
    assert(s@ =~= digest_text(head@ + tail@));
    proof {
        lemma_hex_lower_len(d@);
    }
    s
}

} // verus!
