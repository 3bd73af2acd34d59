use minisql::network::{find_subsequence, is_request_ready};

#[test]
fn request_is_ready_once_the_terminator_is_in() {
    assert!(is_request_ready(b"\n\n\n\n"));
    assert!(is_request_ready(b"select 1;\n\n\n\n"));
    assert!(is_request_ready(b"select 1;\n\n\n\nselect 2;"));
    assert!(is_request_ready(b"\n\n\n\n\n"));
}

#[test]
fn request_is_not_ready_before_the_terminator() {
    assert!(!is_request_ready(b""));
    assert!(!is_request_ready(b"\n\n\n"));
    assert!(!is_request_ready(b"select 1;"));
    assert!(!is_request_ready(b"\n\n \n\n"));
    assert!(!is_request_ready(b"\n\n\r\n\n\n"));
}

#[test]
fn find_subsequence_gives_the_first_offset() {
    assert_eq!(find_subsequence(b"abcabc", b"bc"), Some(1));
    assert_eq!(find_subsequence(b"abcabc", b"abcabc"), Some(0));
    assert_eq!(find_subsequence(b"abcabc", b"c"), Some(2));
    assert_eq!(find_subsequence(b"abcabc", b"cb"), None);
    assert_eq!(find_subsequence(b"ab", b"abc"), None);
    assert_eq!(find_subsequence(b"", b"a"), None);
    assert_eq!(find_subsequence(b"aaab", b"aab"), Some(1));
}
