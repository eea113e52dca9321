use diff_test::dedup::{digest_pair, DedupCache, Seen};
use diff_test::render::render_diff;
use diff_test::options::DiffError;

#[test]
fn digest_is_sha256_in_base64() {
    // SHA-256 of the bytes `a`, 0xFF, `b` is
    // 01ce0241d2a0e71a4fecd5a8d71157fe2787197732fc15d889cbcf36c38e3c68
    assert_eq!(digest_pair("a", "b"), "Ac4CQdKg5xpP7NWo1xFX/ieHGXcy/BXYicvPNsOOPGg");
    assert_eq!(digest_pair("", ""), "qBAK5qoZQNC2Y7sxzUZhQuu9vVGHExuS2TgYmHgy64k");
    assert_eq!(digest_pair("b", "a"), "EY6ulMgiqYiFrmstvH1DFalrtdB4hYHAASn823dbSAY");
    assert_eq!(digest_pair("é", "").len(), 43);
    assert_eq!(digest_pair("a", "b"), digest_pair("a", "b"));
}

#[test]
fn digest_tells_pairs_with_the_same_concatenation_apart() {
    assert_eq!(digest_pair("ab", ""), "KkCxDUvGavlMrEZDj8HF2eEf2gPayPhjBOqGBKPq4fo");
    assert_ne!(digest_pair("ab", ""), digest_pair("a", "b"));
    assert_ne!(digest_pair("", "ab"), digest_pair("a", "b"));
    assert_eq!(digest_pair("ab", "c"), "MjnwlVXGM/fT/1KMDd9LjxgnNanfbwbtXa9yDJCzttA");
    assert_eq!(digest_pair("a", "bc"), "nb13K5Hf4m8sf6SFD7LtnAJ7bbnqxr6KqC/IDhMYyEw");
}

#[test]
fn first_writer_wins() {
    let mut cache = DedupCache::new();
    assert!(!cache.contains("x"));
    assert!(matches!(cache.record("x", "first"), Seen::First));
    assert!(cache.contains("x"));
    match cache.record("x", "second") {
        Seen::Already(marker) => assert_eq!(marker, "first"),
        Seen::First => panic!("the digest was recorded before"),
    }
    match cache.record("x", "third") {
        Seen::Already(marker) => assert_eq!(marker, "first"),
        Seen::First => panic!("the digest was recorded before"),
    }
    assert!(matches!(cache.record("y", "other"), Seen::First));
}

#[test]
fn disabled_cache_remembers_nothing() {
    let mut cache = DedupCache::disabled();
    assert!(matches!(cache.record("x", "first"), Seen::First));
    assert!(!cache.contains("x"));
    assert!(matches!(cache.record("x", "second"), Seen::First));
}

#[test]
fn differences_are_rendered_as_markup() {
    assert_eq!(
        render_diff("a b c", "a x c", false),
        Ok("a <span style='color:var(--red,#a00)'><s>b</s></span><span style='color:var(--green,#0a0)'>x</span> c".to_string())
    );
    assert_eq!(
        render_diff("a\nb\nc", "a\nx\nc", true),
        Ok("a\n <span style='color:var(--red,#a00)'><s>b</s></span>\n <span style='color:var(--green,#0a0)'>x</span>\nc".to_string())
    );
    assert_eq!(render_diff("<b>", "<b>", false), Ok("&lt;b&gt;".to_string()));
    assert_eq!(render_diff("a \u{1b}[38;5;999m b", "c", false), Err(DiffError::Render));
}
