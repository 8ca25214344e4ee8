use patchview::bytes::{find_bytes, tail};
use patchview::number::{decimal_int_text, decimal_text, read_i32, read_usize};
use patchview::text::{
    after_prefix, has_prefix, has_suffix, is_whitespace, joined, line_list, replaced, trimmed,
    trimmed_start,
};

#[test]
fn tail_respects_char_boundaries() {
    assert_eq!(tail("abcdef", 3), "def");
    assert_eq!(tail("abc", 10), "abc");
    // 'é' is two bytes; cutting inside it moves forward to a boundary.
    assert_eq!(tail("aéb", 2), "b");
}

#[test]
fn tail_of_nothing_is_nothing() {
    assert_eq!(tail("", 5), "");
    assert_eq!(tail("abc", 0), "");
    assert_eq!(tail("日本語", 6), "本語");
    assert_eq!(tail("日本語", 5), "語");
}

#[test]
fn white_space_is_what_unicode_says() {
    for c in '\0'..=char::MAX {
        assert_eq!(is_whitespace(c), c.is_whitespace(), "{:x}", c as u32);
    }
}

#[test]
fn trimming_agrees_with_std() {
    for s in ["", " ", "a", "  a b\t\n", "\u{3000}x\u{85}", "\r\n", "x \u{2003}"] {
        assert_eq!(trimmed(s), s.trim());
        assert_eq!(trimmed_start(s), s.trim_start());
    }
}

#[test]
fn lines_agree_with_std() {
    for s in ["", "\n", "a", "a\n", "a\r\nb", "a\r", "\r\n\r\n", "a\n\nb\r\n", "a\r\r\nb"] {
        let expected: Vec<String> = s.lines().map(str::to_string).collect();
        assert_eq!(line_list(s), expected, "{s:?}");
    }
}

#[test]
fn joining_and_searching() {
    let parts = vec!["a".to_string(), "".to_string(), "c".to_string()];
    assert_eq!(joined(&parts, ", "), "a, , c");
    assert_eq!(joined(&Vec::new(), ", "), "");
    assert!(has_prefix("refs/heads", "refs/"));
    assert!(!has_prefix("ref", "refs/"));
    assert!(has_suffix("origin/HEAD", "/HEAD"));
    assert!(!has_suffix("HEAD", "/HEAD"));
    assert_eq!(after_prefix("file:///a", "file://").as_deref(), Some("/a"));
    assert_eq!(after_prefix("http://a", "file://"), None);
    assert_eq!(replaced("a\\b\\", '\\', "/"), "a/b/");
    assert_eq!(find_bytes(b"xxabcab", b"ab"), Some(2));
    assert_eq!(find_bytes(b"xx", b"abc"), None);
}

#[test]
fn numbers_agree_with_std() {
    for n in [0u64, 7, 10, 99, 100, 12345, u64::MAX] {
        assert_eq!(decimal_text(n), n.to_string());
    }
    for n in [0i32, -1, 1, i32::MIN, i32::MAX, -120] {
        assert_eq!(decimal_int_text(n), n.to_string());
        assert_eq!(read_i32(&n.to_string()), Some(n));
    }
    for s in [
        "0", "+5", "-5", "", "+", "-", "12a", "007", "18446744073709551615",
        "18446744073709551616", "2147483647", "2147483648", "-2147483648", "-2147483649", " 1",
        "+-1", "--1", "１",
    ] {
        assert_eq!(read_usize(s), s.parse::<usize>().ok(), "{s:?}");
        assert_eq!(read_i32(s), s.parse::<i32>().ok(), "{s:?}");
    }
}
