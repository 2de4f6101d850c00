use alttab::text::{contains_str, eq_ignore_ascii_case, join_path, split_char, split_lines, strip_prefix, trim};

#[test]
fn trimming() {
    assert_eq!(trim("  a b \t\n"), "a b");
    assert_eq!(trim("   "), "");
    assert_eq!(trim(""), "");
    assert_eq!(trim("\u{a0}x\u{3000}"), "x");
}

#[test]
fn lines_like_str_lines() {
    for s in ["", "a", "a\n", "a\r\nb", "a\n\nb\n", "\r\n", "x\r", "a\rb\n"] {
        let expected: Vec<&str> = s.lines().collect();
        assert_eq!(split_lines(s), expected, "{:?}", s);
    }
}

#[test]
fn splitting_like_str_split() {
    for s in ["", ":", "a:b", "a::b:", "/usr/local/share:/usr/share"] {
        let expected: Vec<&str> = s.split(':').collect();
        assert_eq!(split_char(s, ':'), expected, "{:?}", s);
    }
}

#[test]
fn prefixes_and_case() {
    assert_eq!(strip_prefix("Icon=x", "Icon="), Some("x"));
    assert_eq!(strip_prefix("Ico", "Icon="), None);
    assert_eq!(strip_prefix("icon=x", "Icon="), None);
    assert!(eq_ignore_ascii_case("FireFox", "firefox"));
    assert!(!eq_ignore_ascii_case("Straße", "STRASSE"));
    assert!(eq_ignore_ascii_case("é", "é"));
    assert!(!eq_ignore_ascii_case("ab", "abc"));
}

#[test]
fn path_joining_like_pathbuf() {
    for (a, b) in [("/usr", "share"), ("/usr/", "share"), ("", "x"), ("/a", "/abs"), ("rel", "x/y")] {
        let expected = std::path::PathBuf::from(a).join(b);
        assert_eq!(join_path(a, b), expected.to_str().unwrap(), "{} {}", a, b);
    }
}

#[test]
fn substring_search() {
    assert!(contains_str("/usr/share/icons/hicolor/scalable/apps", "scalable"));
    assert!(!contains_str("/usr/share/pixmaps", "scalable"));
    assert!(contains_str("abc", ""));
    assert!(!contains_str("", "a"));
}
