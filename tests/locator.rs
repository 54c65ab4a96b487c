use delta::paint::{change_range, StringPair};

fn common_prefix_length(s1: &str, s2: &str) -> usize {
    StringPair::new(s1, s2).common_prefix_length
}

fn common_suffix_length(s1: &str, s2: &str) -> usize {
    StringPair::new(s1, s2).common_suffix_length
}

#[test]
fn test_common_prefix_length() {
    assert_eq!(common_prefix_length("", ""), 0);
    assert_eq!(common_prefix_length("", "a"), 0);
    assert_eq!(common_prefix_length("a", ""), 0);
    assert_eq!(common_prefix_length("a", "b"), 0);
    assert_eq!(common_prefix_length("a", "a"), 1);
    assert_eq!(common_prefix_length("a", "ab"), 1);
    assert_eq!(common_prefix_length("ab", "a"), 1);
    assert_eq!(common_prefix_length("ab", "aba"), 2);
    assert_eq!(common_prefix_length("aba", "ab"), 2);
}

#[test]
fn test_common_prefix_length_with_leading_whitespace() {
    assert_eq!(common_prefix_length(" ", ""), 0);
    assert_eq!(common_prefix_length(" ", " "), 1);
    assert_eq!(common_prefix_length(" a", " a"), 2);
    assert_eq!(common_prefix_length(" a", "a"), 0);
}

#[test]
fn test_common_suffix_length() {
    assert_eq!(common_suffix_length("", ""), 0);
    assert_eq!(common_suffix_length("", "a"), 0);
    assert_eq!(common_suffix_length("a", ""), 0);
    assert_eq!(common_suffix_length("a", "b"), 0);
    assert_eq!(common_suffix_length("a", "a"), 1);
    assert_eq!(common_suffix_length("a", "ab"), 0);
    assert_eq!(common_suffix_length("ab", "a"), 0);
    assert_eq!(common_suffix_length("ab", "b"), 1);
    assert_eq!(common_suffix_length("ab", "aab"), 2);
    assert_eq!(common_suffix_length("aba", "ba"), 2);
}

#[test]
fn test_common_suffix_length_with_trailing_whitespace() {
    assert_eq!(common_suffix_length("", "  "), 0);
    assert_eq!(common_suffix_length("  ", "a"), 0);
    assert_eq!(common_suffix_length("a  ", ""), 0);
    assert_eq!(common_suffix_length("a", "b  "), 0);
    assert_eq!(common_suffix_length("a", "a  "), 1);
    assert_eq!(common_suffix_length("a  ", "ab  "), 0);
    assert_eq!(common_suffix_length("ab", "a  "), 0);
    assert_eq!(common_suffix_length("ab  ", "b "), 1);
    assert_eq!(common_suffix_length("ab ", "aab  "), 2);
    assert_eq!(common_suffix_length("aba ", "ba"), 2);
}

#[test]
fn prefix_length_is_first_difference() {
    assert_eq!(common_prefix_length("abcx", "abcy"), 3);
    assert_eq!(common_prefix_length("abc", "abcdef"), 3);
    assert_eq!(common_prefix_length("héllo", "hélp"), 3);
}

#[test]
fn trailing_spaces_do_not_change_suffix() {
    assert_eq!(common_suffix_length("xab", "yab"), 2);
    assert_eq!(common_suffix_length("xab   ", "yab"), 2);
    assert_eq!(common_suffix_length("xab", "yab     "), 2);
    assert_eq!(common_suffix_length("xab ", "yab  "), 2);
}

#[test]
fn lengths_exclude_trailing_spaces() {
    let pair = StringPair::new("ab  ", "c");
    assert_eq!(pair.lengths, [2, 1]);
    let pair = StringPair::new("    ", " x ");
    assert_eq!(pair.lengths, [0, 2]);
}

#[test]
fn suffix_data_counts_trailing_spaces() {
    let (suffix, spaces) = StringPair::suffix_data(&['a', 'b', ' '], &['b', ' ', ' ']);
    assert_eq!(suffix, 1);
    assert_eq!(spaces, [1, 2]);
    assert_eq!(StringPair::consume_whitespace(&['a', ' ', 'b', ' ', ' ']), 2);
    assert_eq!(StringPair::consume_whitespace(&[]), 0);
}

#[test]
fn change_range_prefix_runs_into_trailing_spaces() {
    assert_eq!(change_range("a    ", "a b  "), (2, 2, 3));
}

#[test]
fn change_range_prefix_and_suffix_overlap() {
    assert_eq!(change_range("a c", "a b c"), (2, 2, 3));
}

#[test]
fn change_range_stays_within_lines() {
    assert_eq!(change_range("", ""), (0, 0, 0));
    assert_eq!(change_range("abc", "abc"), (3, 3, 3));
    assert_eq!(change_range("foo(x)", "foo(y)"), (4, 5, 5));
    assert_eq!(change_range("aaa", "aa"), (2, 2, 2));
    let (begin, minus_end, plus_end) = change_range("x  ", "x");
    assert!(begin <= minus_end && minus_end <= 3);
    assert!(begin <= plus_end && plus_end <= 1);
}
