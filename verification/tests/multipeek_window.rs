use wikigraph::multipeek::MultiPeek;

#[test]
fn peek_at_within_window() {
    let mp = MultiPeek::new("hello", 3);
    assert_eq!(mp.peek_at(0), Some('h'));
    assert_eq!(mp.peek_at(2), Some('l'));
    assert_eq!(mp.peek_at(3), None);
}

#[test]
fn peek_until_takes_window_prefix() {
    let mp = MultiPeek::new("hello", 3);
    assert_eq!(mp.peek_until(2), "he");
    assert_eq!(mp.peek_until(3), "hel");
}

#[test]
fn peek_until_short_stream() {
    let mp = MultiPeek::new("ab", 4);
    assert_eq!(mp.peek_until(4), "ab");
}

#[test]
fn next_consumes_in_order() {
    let mut mp = MultiPeek::new("abc", 2);
    assert_eq!(mp.next(), Some('a'));
    assert_eq!(mp.peek_at(0), Some('b'));
    assert_eq!(mp.next(), Some('b'));
    assert_eq!(mp.next(), Some('c'));
    assert_eq!(mp.next(), None);
}

#[test]
fn is_empty_tracks_exhaustion() {
    let mut mp = MultiPeek::new("x", 2);
    assert!(!mp.is_empty());
    assert_eq!(mp.next(), Some('x'));
    assert!(mp.is_empty());
}

#[test]
fn empty_stream() {
    let mut mp = MultiPeek::new("", 3);
    assert!(mp.is_empty());
    assert_eq!(mp.peek_at(0), None);
    assert_eq!(mp.peek_until(3), "");
    assert_eq!(mp.next(), None);
}
