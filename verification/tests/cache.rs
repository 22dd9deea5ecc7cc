use studio_core::{CacheKey, Rect};

const DEFAULT_JSON: &str = "{\"color_mode\":\"color\",\"hierarchical\":\"stacked\",\"mode\":\"spline\",\"filter_speckle\":4,\"color_precision\":6,\"gradient_step\":16,\"corner_threshold\":60,\"segment_length\":4.0,\"max_iterations\":10,\"splice_threshold\":45,\"path_precision\":2}";

#[test]
fn key_changes_with_any_input() {
    let roi = Rect { x: 0, y: 0, w: 10, h: 10 };
    let cfg = DEFAULT_JSON.to_string();
    let base = CacheKey::new("img1", roi, &cfg);

    assert_eq!(base, CacheKey::new("img1", roi, &cfg), "同输入同键");
    assert_ne!(base, CacheKey::new("img2", roi, &cfg));
    assert_ne!(base, CacheKey::new("img1", Rect { x: 1, ..roi }, &cfg));

    // 非轴参数也必须参与键: the canonical JSON with corner_threshold 61.
    let cfg2 = cfg.replace("\"corner_threshold\":60", "\"corner_threshold\":61");
    assert_ne!(cfg, cfg2);
    assert_ne!(base, CacheKey::new("img1", roi, &cfg2));
}

#[test]
fn key_is_blake3_of_hash_roi_and_config() {
    let roi = Rect { x: 1, y: 2, w: 300, h: 70000 };
    let key = CacheKey::new("abc", roi, "{}");
    let mut h = blake3::Hasher::new();
    h.update(b"abc");
    for v in [1u32, 2, 300, 70000] {
        h.update(&v.to_le_bytes());
    }
    h.update(b"{}");
    assert_eq!(key.as_str(), h.finalize().to_hex().as_str());
    assert_eq!(key.as_str().len(), 64);
    assert_ne!(key.as_str(), "abc");
    let other = CacheKey::new("abc", Rect { h: 70001, ..roi }, "{}");
    assert_ne!(key, other);
}

#[test]
fn key_is_64_lowercase_hex_characters() {
    let key = CacheKey::new("", Rect { x: 0, y: 0, w: 1, h: 1 }, "");
    assert_eq!(key.as_str().len(), 64);
    assert!(key.as_str().chars().all(|c| c.is_ascii_digit() || ('a'..='f').contains(&c)));
}
