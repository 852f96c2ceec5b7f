use raytracer::text::{split_into_lines, split_tokens};

#[test]
fn lines_split_on_line_feeds() {
    let lines = split_into_lines(b"one\ntwo\nthree");
    assert_eq!(lines, vec![b"one".to_vec(), b"two".to_vec(), b"three".to_vec()]);
}

#[test]
fn a_final_line_feed_opens_no_line() {
    assert_eq!(split_into_lines(b"a\n").len(), 1);
    assert_eq!(split_into_lines(b"a\n\n").len(), 2);
    assert!(split_into_lines(b"").is_empty());
}

#[test]
fn carriage_returns_are_stripped_at_line_ends_only() {
    let lines = split_into_lines(b"a\r\nb\rc\r\n");
    assert_eq!(lines, vec![b"a".to_vec(), b"b\rc".to_vec()]);
}

#[test]
fn tokens_split_on_whitespace_runs() {
    let tokens = split_tokens(b"  v  1.0\t2.0  ");
    assert_eq!(tokens, vec![b"v".to_vec(), b"1.0".to_vec(), b"2.0".to_vec()]);
}

#[test]
fn a_blank_line_has_no_tokens() {
    assert!(split_tokens(b"").is_empty());
    assert!(split_tokens(b" \t ").is_empty());
}
