use ccloader_installer::headers::{eq_ignore_ascii_case, HeaderMap};

#[test]
fn case_insensitive_equality() {
    assert!(eq_ignore_ascii_case(b"Content-Length", b"content-length"));
    assert!(eq_ignore_ascii_case(b"GZIP", b"gzip"));
    assert!(eq_ignore_ascii_case(b"", b""));
    assert!(!eq_ignore_ascii_case(b"a", b"b"));
    assert!(!eq_ignore_ascii_case(b"ab", b"a"));
    // non-letters must match exactly
    assert!(!eq_ignore_ascii_case(b"a-b", b"a_b"));
}

#[test]
fn empty_map_has_nothing() {
    let m = HeaderMap::new();
    assert!(m.get(b"anything").is_none());
}

#[test]
fn insert_then_get_ignoring_case() {
    let mut m = HeaderMap::new();
    m.insert(b"Content-Length".to_vec(), b"42".to_vec());
    assert_eq!(m.get(b"content-length").map(|v| v.as_slice()), Some(&b"42"[..]));
    assert_eq!(m.get(b"CONTENT-LENGTH").map(|v| v.as_slice()), Some(&b"42"[..]));
    assert!(m.get(b"content-type").is_none());
}

#[test]
fn last_write_wins_per_name() {
    let mut m = HeaderMap::new();
    m.insert(b"X-Tag".to_vec(), b"one".to_vec());
    m.insert(b"x-tag".to_vec(), b"two".to_vec());
    assert_eq!(m.get(b"X-TAG").map(|v| v.as_slice()), Some(&b"two"[..]));
    // a different name is untouched
    m.insert(b"X-Other".to_vec(), b"3".to_vec());
    assert_eq!(m.get(b"x-tag").map(|v| v.as_slice()), Some(&b"two"[..]));
    assert_eq!(m.get(b"x-other").map(|v| v.as_slice()), Some(&b"3"[..]));
}

#[test]
fn clear_empties_the_map() {
    let mut m = HeaderMap::new();
    m.insert(b"A".to_vec(), b"1".to_vec());
    m.insert(b"B".to_vec(), b"2".to_vec());
    m.clear();
    assert!(m.get(b"a").is_none());
    assert!(m.get(b"b").is_none());
}
