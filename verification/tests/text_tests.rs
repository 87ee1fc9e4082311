use yaad::text::{contains, decimal_string, join_path, remove_all_str, starts_with, trim};

#[test]
fn trim_strips_unicode_white_space_at_both_ends() {
    assert_eq!(trim("  hello world \n"), "hello world");
    assert_eq!(trim("\u{3000}\u{a0}x\u{2029}"), "x");
    assert_eq!(trim(" \t\n "), "");
    assert_eq!(trim(""), "");
    assert_eq!(trim("a b"), "a b");
}

#[test]
fn trim_agrees_with_std() {
    for s in ["", " ", "x", "  x  y  ", "\u{85}z\u{1680}", "\u{200b}a"] {
        assert_eq!(trim(s), s.trim());
    }
}

#[test]
fn contains_and_starts_with() {
    assert!(contains("UNIQUE constraint failed", "UNIQUE"));
    assert!(!contains("unique constraint failed", "UNIQUE"));
    assert!(contains("abc", ""));
    assert!(!contains("ab", "abc"));
    assert!(starts_with("ERROR: nothing", "ERROR:"));
    assert!(!starts_with("ERR", "ERROR:"));
    assert!(!starts_with(" ERROR:", "ERROR:"));
}

#[test]
fn remove_all_matches_std_replace() {
    for (s, p) in [
        ("[BLANK_AUDIO] hi [BLANK_AUDIO]", "[BLANK_AUDIO]"),
        ("aaaa", "aa"),
        ("aaa", "aa"),
        ("abc", ""),
        ("", "x"),
        ("xyz", "xyzw"),
    ] {
        assert_eq!(remove_all_str(s, p), s.replace(p, ""));
    }
}

#[test]
fn decimal_string_matches_to_string() {
    for n in [0i64, 7, 10, 42, -1, -10, 1234567890, i64::MAX, i64::MIN] {
        assert_eq!(decimal_string(n), n.to_string());
    }
}

#[test]
fn join_path_follows_path_join() {
    assert_eq!(join_path("/a/b", "c.db"), "/a/b/c.db");
    assert_eq!(join_path("/a/b/", "c.db"), "/a/b/c.db");
    assert_eq!(join_path("", "c.db"), "c.db");
    assert_eq!(join_path("/a", "/abs"), "/abs");
    for (b, n) in [("/a/b", "c"), ("rel", "x"), ("/", "y")] {
        assert_eq!(
            std::path::Path::new(b).join(n).to_str().unwrap(),
            join_path(b, n)
        );
    }
}
