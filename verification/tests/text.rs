use termy::text::{chars_of, eq_ignoring_case, eq_text, find_from, replace, text_of, to_decimal, trim, white_space};

#[test]
fn white_space_is_that_of_unicode() {
    let mut c: u32 = 0;
    while c <= 0x10ffff {
        if let Some(ch) = char::from_u32(c) {
            assert_eq!(white_space(ch), ch.is_whitespace(), "{c:x}");
        }
        c += 1;
    }
}

#[test]
fn trim_like_std() {
    for s in ["", " ", "a", " a ", "\t\u{3000}a b\u{a0}\n", "a\u{200b}", "\u{feff} x"] {
        assert_eq!(text_of(trim(&chars_of(s))), s.trim());
    }
}

#[test]
fn replace_like_std() {
    for (s, p, w) in [("aaa", "aa", "b"), ("abab", "ab", ""), ("x", "xy", "z"), ("", "a", "b"), ("aXa", "a", "aa")] {
        assert_eq!(replace(&chars_of(s), &chars_of(p), w), s.replace(p, w));
    }
}

#[test]
fn decimal_like_std() {
    for n in [0u64, 7, 9, 10, 22, 100, 65535, u64::MAX] {
        assert_eq!(to_decimal(n), n.to_string());
    }
}

#[test]
fn case_is_ignored_in_ascii_only() {
    assert!(eq_ignoring_case("PassWord", "password"));
    assert!(!eq_ignoring_case("password ", "password"));
    assert!(!eq_ignoring_case("ÄB", "äb"));
    for (a, b) in [("@", "`"), ("[", "{"), ("Z", "z"), ("A", "a")] {
        assert_eq!(eq_ignoring_case(a, b), a.eq_ignore_ascii_case(b));
    }
    assert!(eq_text("ssh", "ssh"));
    assert!(!eq_text("ssh", "SSH"));
}

#[test]
fn find_gives_the_first_place() {
    let s = chars_of("한ab한ab");
    assert_eq!(find_from(&s, 0, &chars_of("ab")), Some(1));
    assert_eq!(find_from(&s, 2, &chars_of("ab")), Some(4));
    assert_eq!(find_from(&s, 5, &chars_of("ab")), None);
    assert_eq!(find_from(&s, 0, &chars_of("ac")), None);
}
