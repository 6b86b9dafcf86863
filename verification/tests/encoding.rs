use nameful_cli::digits::{padded_key, parse_index, usize_to_string};
use nameful_cli::path::{canonicalize, norm_segment};

#[test]
fn norm_segment_strips_leading_zeros() {
    assert_eq!(norm_segment("007"), "7");
    assert_eq!(norm_segment("000"), "0");
    assert_eq!(norm_segment(""), "0");
    assert_eq!(norm_segment("0"), "0");
    assert_eq!(norm_segment("a0"), "a0");
    assert_eq!(norm_segment("0a0"), "a0");
    assert_eq!(norm_segment("12"), "12");
}

#[test]
fn canonicalize_joins_normalized_segments() {
    let segs = vec![String::from("b"), String::from("1")];
    assert_eq!(canonicalize(&segs), "/b/1");
    let empty: Vec<String> = Vec::new();
    assert_eq!(canonicalize(&empty), "");
    let padded = vec![String::from("00"), String::from("x")];
    assert_eq!(canonicalize(&padded), "/0/x");
}

#[test]
fn canonicalize_is_idempotent_on_normalized_segments() {
    let segs = vec![String::from("b"), String::from("12"), String::from("key")];
    let normalized: Vec<String> = vec![
        norm_segment("b"),
        norm_segment("12"),
        norm_segment("key"),
    ];
    assert_eq!(canonicalize(&normalized), canonicalize(&segs));
    let renormalized: Vec<String> = normalized.iter().map(|s| norm_segment(s)).collect();
    assert_eq!(canonicalize(&renormalized), canonicalize(&normalized));
}

#[test]
fn decimal_writing() {
    assert_eq!(usize_to_string(0), "0");
    assert_eq!(usize_to_string(7), "7");
    assert_eq!(usize_to_string(12345), "12345");
}

#[test]
fn padded_keys() {
    assert_eq!(padded_key(0, 2), "00");
    assert_eq!(padded_key(7, 1), "7");
    assert_eq!(padded_key(11, 2), "11");
    assert_eq!(padded_key(123, 2), "123");
}

#[test]
fn index_parsing() {
    assert_eq!(parse_index("0"), Some(0));
    assert_eq!(parse_index("12"), Some(12));
    assert_eq!(parse_index("00"), None);
    assert_eq!(parse_index("01"), None);
    assert_eq!(parse_index("1a"), None);
    assert_eq!(parse_index(""), None);
    assert_eq!(parse_index("+1"), None);
}
