use guploadsync::text::{
    from_chars, join, replace, same_text, split, to_chars, to_decimal, trim, trim_end, CharClass,
};

const SAMPLES: [&str; 12] = [
    "",
    " ",
    "a",
    " a ",
    "/a/",
    "//a//b//",
    "\u{3000}a\u{85}",
    "\u{200b}a",
    "a\\b\\c",
    "\t\n a b \r",
    "äöü/ß",
    "....",
];

#[test]
fn white_space_is_that_of_unicode() {
    for n in 0..=0x10ffffu32 {
        if let Some(c) = char::from_u32(n) {
            assert_eq!(CharClass::WhiteSpace.contains(c), c.is_whitespace(), "{n:x}");
        }
    }
}

#[test]
fn trimming_takes_off_both_ends() {
    for s in SAMPLES {
        let chars = to_chars(s);
        assert_eq!(from_chars(trim(&chars, CharClass::WhiteSpace)), s.trim());
        assert_eq!(from_chars(trim(&chars, CharClass::One('/'))), s.trim_matches('/'));
        assert_eq!(from_chars(trim_end(&chars, CharClass::One('/'))), s.trim_end_matches('/'));
    }
}

#[test]
fn replacing_goes_character_by_character() {
    for s in SAMPLES {
        let chars = to_chars(s);
        assert_eq!(from_chars(&replace(&chars, '\\', '/')), s.replace('\\', "/"));
    }
}

#[test]
fn splitting_and_joining() {
    for s in SAMPLES {
        let chars = to_chars(s);
        let parts = split(&chars, '/');
        let texts: Vec<String> = parts.iter().map(|part| from_chars(part)).collect();
        let expected: Vec<&str> = s.split('/').collect();
        assert_eq!(texts, expected);
        assert_eq!(from_chars(&join(&parts, '/')), s);
    }
}

#[test]
fn texts_are_compared_by_characters() {
    assert!(same_text("äb", "äb"));
    assert!(!same_text("äb", "ab"));
    assert!(!same_text("a", "ab"));
}

#[test]
fn numbers_in_decimal() {
    for n in [0u128, 9, 10, 99, 100, 1_700_000_000_123, u128::MAX] {
        assert_eq!(from_chars(&to_decimal(n)), n.to_string());
    }
}
