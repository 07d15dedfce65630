use xbark::assets::{
    bundled_pack_fingerprint, check_current, has_user_content, is_user_owned, UnpackOutcome,
};

/// A stand-in for the embedded pack: the zstd frame magic and a few bytes.
const BUNDLED_PACK: &[u8] = b"\x28\xb5\x2f\xfd\x00\x58sticker pack";

#[test]
fn fingerprint_is_stable() {
    let a = bundled_pack_fingerprint(BUNDLED_PACK);
    let b = bundled_pack_fingerprint(BUNDLED_PACK);
    assert_eq!(a, b);
}

#[test]
fn fingerprint_contains_length() {
    let fp = bundled_pack_fingerprint(BUNDLED_PACK);
    assert!(fp.contains(&BUNDLED_PACK.len().to_string()));
}

#[test]
fn fingerprint_of_empty_pack_is_offset_basis() {
    assert_eq!(bundled_pack_fingerprint(&[]), "cbf29ce484222325-0");
}

#[test]
fn fingerprint_matches_fnv1a() {
    // FNV-1a of "a" is 0xaf63dc4c8601ec8c.
    assert_eq!(bundled_pack_fingerprint(b"a"), "af63dc4c8601ec8c-1");
    assert_eq!(bundled_pack_fingerprint(b"foobar"), "85944171f73967e8-6");
}

#[test]
fn check_current_decisions() {
    assert_eq!(check_current(0, None, "x"), Some(UnpackOutcome::NoBundle));
    assert_eq!(check_current(3, Some("  fp-3\n"), "fp-3"), Some(UnpackOutcome::AlreadyCurrent));
    assert_eq!(check_current(3, Some("fp-4"), "fp-3"), None);
    assert_eq!(check_current(3, None, "fp-3"), None);
}

#[test]
fn user_content_ignores_marker() {
    let only_marker = vec![".xbark-pack-version".to_string()];
    assert!(!has_user_content(&only_marker));
    let with_file = vec![".xbark-pack-version".to_string(), "a.gif".to_string()];
    assert!(has_user_content(&with_file));
    assert!(!has_user_content(&vec![]));
    assert!(is_user_owned(true, Some(&with_file), false));
    assert!(!is_user_owned(true, Some(&with_file), true));
    assert!(!is_user_owned(false, None, false));
}

#[test]
fn written_marker_is_current() {
    let fp = bundled_pack_fingerprint(BUNDLED_PACK);
    assert_eq!(fp.trim(), fp);
    assert_eq!(
        check_current(BUNDLED_PACK.len(), Some(&fp), &fp),
        Some(UnpackOutcome::AlreadyCurrent)
    );
}
