//! Cache identity of one candidate result.
use vstd::prelude::*;
use vstd::string::StringSliceAdditionalSpecFns;

use crate::digest::{digest_hex, digest_text};
use crate::image_io::Rect;
use crate::text::{is_lower_hex_char, le32, lemma_le32_injective, push_le32, push_utf8};

verus! {

/// Cache identity for one candidate result: decoded-image hash + ROI +
/// every effective config field (the config's canonical JSON).
#[derive(Debug, Clone, PartialEq, Eq, Hash)]
pub struct CacheKey(String);

/// Bytes hashed after the image hash: the ROI as four little-endian `u32`
/// (x, y, w, h), then the canonical config JSON.
pub open spec fn cache_key_tail(roi: Rect, config_json: Seq<u8>) -> Seq<u8> {
    le32(roi.x) + le32(roi.y) + le32(roi.w) + le32(roi.h) + config_json
}

pub open spec fn cache_key_message(image_hash: Seq<u8>, roi: Rect, config_json: Seq<u8>) -> Seq<u8> {
    image_hash + cache_key_tail(roi, config_json)
}

pub open spec fn cache_key_text(image_hash: Seq<u8>, roi: Rect, config_json: Seq<u8>) -> Seq<char> {
    digest_text(cache_key_message(image_hash, roi, config_json))
}

impl View for CacheKey {
    type V = Seq<char>;

    closed spec fn view(&self) -> Seq<char> {
        self.0@
    }
}

impl CacheKey {
    /// The key of a result: lowercase hex BLAKE3 of the image hash's UTF-8
    /// bytes, the ROI and the canonical JSON of the effective config; always
    /// 64 lowercase hexadecimal characters.
    pub fn new(image_hash: &str, roi: Rect, config_json: &str) -> (k: CacheKey)
        ensures
            k@ == cache_key_text(image_hash.spec_bytes(), roi, config_json.spec_bytes()),
            k@.len() == 64,
            forall|i: int| 0 <= i < k@.len() ==> is_lower_hex_char(#[trigger] k@[i]),
    {
        let mut tail: Vec<u8> = Vec::new();
        push_le32(&mut tail, roi.x);
        push_le32(&mut tail, roi.y);
        push_le32(&mut tail, roi.w);
        push_le32(&mut tail, roi.h);
        push_utf8(&mut tail, config_json);
        assert(tail@ =~= cache_key_tail(roi, config_json.spec_bytes()));
        let s = digest_hex(image_hash.as_bytes(), tail.as_slice());
        CacheKey(s)
    }

    /// The key's text.
    pub fn as_str(&self) -> (s: &str)
        ensures
            s@ == self@,
    {
        self.0.as_str()
    }
}

/// Keys are deterministic: equal inputs give equal keys. And the hashed
/// bytes tell inputs apart: for image hashes of one length (a hash is always
/// 64 hex characters), any difference in image hash, ROI or config JSON
/// gives a different hashed message.
pub proof fn lemma_cache_key_framing(
    h1: Seq<u8>,
    roi1: Rect,
    j1: Seq<u8>,
    h2: Seq<u8>,
    roi2: Rect,
    j2: Seq<u8>,
)
    requires
        h1.len() == h2.len(),
    ensures
        (h1 == h2 && roi1 == roi2 && j1 == j2) ==> cache_key_text(h1, roi1, j1) == cache_key_text(
            h2,
            roi2,
            j2,
        ),
        cache_key_message(h1, roi1, j1) == cache_key_message(h2, roi2, j2) ==> (h1 == h2 && roi1
            == roi2 && j1 == j2),
{
    let m1 = cache_key_message(h1, roi1, j1);
    let m2 = cache_key_message(h2, roi2, j2);
    if m1 == m2 {
        let n = h1.len() as int;
        assert(h1 =~= m1.subrange(0, n));
        assert(h2 =~= m2.subrange(0, n));
        let t1 = cache_key_tail(roi1, j1);
        let t2 = cache_key_tail(roi2, j2);
        assert(t1 =~= m1.subrange(n, m1.len() as int));
        assert(t2 =~= m2.subrange(n, m2.len() as int));
        assert(le32(roi1.x) =~= t1.subrange(0, 4));
        assert(le32(roi2.x) =~= t2.subrange(0, 4));
        assert(le32(roi1.y) =~= t1.subrange(4, 8));
        assert(le32(roi2.y) =~= t2.subrange(4, 8));
        assert(le32(roi1.w) =~= t1.subrange(8, 12));
        assert(le32(roi2.w) =~= t2.subrange(8, 12));
        assert(le32(roi1.h) =~= t1.subrange(12, 16));
        assert(le32(roi2.h) =~= t2.subrange(12, 16));
        assert(j1 =~= t1.subrange(16, t1.len() as int));
        assert(j2 =~= t2.subrange(16, t2.len() as int));
        lemma_le32_injective(roi1.x, roi2.x);
        lemma_le32_injective(roi1.y, roi2.y);
        lemma_le32_injective(roi1.w, roi2.w);
        lemma_le32_injective(roi1.h, roi2.h);
    }
}

} // verus!
