use spnhub::text::{
    join, join3, has_prefix, is_white_space, rsplit_once, same_text, signed_text, split_once,
    strip_prefix, trim, trim_end_matches, trim_start_matches, unsigned_text,
};

#[test]
fn texts_are_compared_by_their_characters() {
    assert!(same_text("hub", "hub"));
    assert!(!same_text("hub", "Hub"));
    assert!(!same_text("hub", "hub "));
    assert!(same_text("", ""));
}

#[test]
fn prefixes_are_found_and_taken_off() {
    assert!(has_prefix("k8s:default", "k8s:"));
    assert!(!has_prefix("k8s", "k8s:"));
    assert!(has_prefix("anything", ""));
    assert_eq!(strip_prefix("nomad:http://n", "nomad:"), Some("http://n"));
    assert_eq!(strip_prefix("docker:", "docker:"), Some(""));
    assert_eq!(strip_prefix("dock", "docker:"), None);
}

#[test]
fn splitting_agrees_with_std() {
    for s in ["", ":", "a:b", "a:b:c", "abc", "::", "ü:ß", "a:"] {
        assert_eq!(split_once(s, ':'), s.split_once(':'), "{s:?}");
        assert_eq!(rsplit_once(s, ':'), s.rsplit_once(':'), "{s:?}");
    }
}

#[test]
fn trimming_agrees_with_std() {
    for s in ["", "/", "//a//", "a/", "/a", "a", "///", "ü/"] {
        assert_eq!(trim_end_matches(s, '/'), s.trim_end_matches('/'), "{s:?}");
        assert_eq!(trim_start_matches(s, '/'), s.trim_start_matches('/'), "{s:?}");
    }
    for s in ["", " ", " a ", "\t\r\na b\u{3000}", "\u{200b}a", "\u{85}x\u{a0}"] {
        assert_eq!(trim(s), s.trim(), "{s:?}");
    }
}

#[test]
fn white_space_is_that_of_unicode() {
    for n in 0..=0x10FFFFu32 {
        if let Some(c) = char::from_u32(n) {
            assert_eq!(is_white_space(c), c.is_whitespace(), "U+{n:04X}");
        }
    }
}

#[test]
fn numbers_are_written_in_decimal() {
    for n in [0u64, 7, 10, 42, 100, 1009, u64::MAX] {
        assert_eq!(unsigned_text(n), n.to_string());
    }
    for n in [0i64, -1, 5, -10, 3600, i64::MAX, i64::MIN] {
        assert_eq!(signed_text(n), n.to_string());
    }
}

#[test]
fn texts_are_joined() {
    assert_eq!(join("a", "b"), "ab");
    assert_eq!(join3("KEY", "=", "value"), "KEY=value");
}
