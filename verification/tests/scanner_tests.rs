use lbuffer::scanner::{find_bytes, find_bytes_from};

#[test]
fn finds_single_byte_delimiter() {
    assert_eq!(find_bytes(b"abc\ndef", b"\n"), Some(3));
}

#[test]
fn finds_first_of_several() {
    assert_eq!(find_bytes(b"a\nb\nc", b"\n"), Some(1));
}

#[test]
fn reports_no_match() {
    assert_eq!(find_bytes(b"abcdef", b"\n"), None);
}

#[test]
fn needle_longer_than_haystack_is_not_found() {
    assert_eq!(find_bytes(b"ab", b"abc"), None);
}

#[test]
fn empty_haystack_has_no_match() {
    assert_eq!(find_bytes(b"", b"\n"), None);
}

#[test]
fn finds_match_at_the_very_end() {
    assert_eq!(find_bytes(b"abc\n", b"\n"), Some(3));
    assert_eq!(find_bytes(b"ab||", b"||"), Some(2));
}

#[test]
fn finds_multi_byte_delimiter() {
    assert_eq!(find_bytes(b"a||b", b"||"), Some(1));
}

#[test]
fn whole_haystack_can_be_the_match() {
    assert_eq!(find_bytes(b"||", b"||"), Some(0));
}

#[test]
fn overlapping_candidates_yield_leftmost() {
    assert_eq!(find_bytes(b"aaab", b"aa"), Some(0));
}

#[test]
fn find_from_skips_earlier_matches() {
    assert_eq!(find_bytes_from(b"a\nb\nc", b"\n", 2), Some(3));
    assert_eq!(find_bytes_from(b"a\nb\nc", b"\n", 4), None);
}

#[test]
fn find_from_zero_equals_find() {
    assert_eq!(find_bytes_from(b"xy||z", b"||", 0), find_bytes(b"xy||z", b"||"));
}
