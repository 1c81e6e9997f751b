use lcu::text::{
    contains, find, is_whitespace, parse_decimal, render_decimal, same_text, strip_leading,
    to_chars, trim,
};

#[test]
fn to_chars_keeps_every_character() {
    assert_eq!(to_chars(""), Vec::<char>::new());
    assert_eq!(to_chars("añ\u{1F600}b"), vec!['a', 'ñ', '\u{1F600}', 'b']);
}

#[test]
fn same_text_compares_characters() {
    assert!(same_text("", ""));
    assert!(same_text("windows", "windows"));
    assert!(!same_text("windows", "window"));
    assert!(!same_text("macos", "macOS"));
}

#[test]
fn is_whitespace_agrees_with_the_standard_library_on_every_character() {
    let mut code: u32 = 0;
    while code <= 0x10FFFF {
        if let Some(c) = char::from_u32(code) {
            assert_eq!(is_whitespace(c), c.is_whitespace(), "U+{:04X}", code);
        }
        code += 1;
    }
}

#[test]
fn trim_removes_white_space_at_both_ends_only() {
    assert_eq!(trim(""), "");
    assert_eq!(trim("   "), "");
    assert_eq!(trim("\n"), "");
    assert_eq!(trim("  ana maria \r\n"), "ana maria");
    assert_eq!(trim("\u{3000}2\u{a0}\t"), "2");
    assert_eq!(trim("x"), "x");
    assert_eq!(trim(" é "), "é");
}

#[test]
fn trim_agrees_with_the_standard_library() {
    for s in ["", " ", "a", " a", "a ", " a b ", "\t\u{2003}né\u{2028}", "\u{200b}a\u{200b}"] {
        assert_eq!(trim(s), s.trim());
    }
}

#[test]
fn strip_leading_removes_the_whole_run() {
    assert_eq!(strip_leading("--app-port=1", '-'), "app-port=1");
    assert_eq!(strip_leading("/lol/v1", '/'), "lol/v1");
    assert_eq!(strip_leading("///a/b/", '/'), "a/b/");
    assert_eq!(strip_leading("a/b", '/'), "a/b");
    assert_eq!(strip_leading("---", '-'), "");
    assert_eq!(strip_leading("", '-'), "");
}

#[test]
fn find_gives_the_first_position_in_characters() {
    assert_eq!(find("a=b=c", '='), 1);
    assert_eq!(find("=", '='), 0);
    assert_eq!(find("abc", '='), 3);
    assert_eq!(find("", '='), 0);
    assert_eq!(find("éé=x", '='), 2);
}

#[test]
fn contains_finds_contiguous_parts() {
    assert!(contains("anna", "an"));
    assert!(contains("anna", "na"));
    assert!(contains("anna", "anna"));
    assert!(contains("anna", ""));
    assert!(contains("", ""));
    assert!(!contains("anna", "aa"));
    assert!(!contains("ann", "anna"));
    assert!(!contains("", "a"));
    assert!(contains("aab", "ab"));
    assert!(!contains("Ana", "an"));
}

#[test]
fn contains_agrees_with_the_standard_library() {
    let texts = ["", "a", "ab", "aab", "abab", "ana", "anna", "é", "aé", "éa", "\u{1F600}x"];
    for hay in texts {
        for needle in texts {
            assert_eq!(contains(hay, needle), hay.contains(needle), "{:?} in {:?}", needle, hay);
        }
    }
}

#[test]
fn render_decimal_writes_numerals() {
    assert_eq!(render_decimal(0), "0");
    assert_eq!(render_decimal(7), "7");
    assert_eq!(render_decimal(10), "10");
    assert_eq!(render_decimal(1234567890), "1234567890");
    assert_eq!(render_decimal(usize::MAX), format!("{}", usize::MAX));
}

#[test]
fn parse_decimal_reads_numerals() {
    assert_eq!(parse_decimal("0"), Some(0));
    assert_eq!(parse_decimal("2"), Some(2));
    assert_eq!(parse_decimal("007"), Some(7));
    assert_eq!(parse_decimal("+15"), Some(15));
    assert_eq!(parse_decimal("1234567890"), Some(1234567890));
    assert_eq!(parse_decimal(&format!("{}", usize::MAX)), Some(usize::MAX));
}

#[test]
fn parse_decimal_refuses_what_is_no_numeral() {
    assert_eq!(parse_decimal(""), None);
    assert_eq!(parse_decimal("+"), None);
    assert_eq!(parse_decimal("-1"), None);
    assert_eq!(parse_decimal("++1"), None);
    assert_eq!(parse_decimal("1+"), None);
    assert_eq!(parse_decimal(" 1"), None);
    assert_eq!(parse_decimal("1 "), None);
    assert_eq!(parse_decimal("1_000"), None);
    assert_eq!(parse_decimal("abc"), None);
    assert_eq!(parse_decimal("12a"), None);
    assert_eq!(parse_decimal("٣"), None);
}

#[test]
fn parse_decimal_refuses_what_does_not_fit() {
    assert_eq!(parse_decimal(&format!("{}0", usize::MAX)), None);
    assert_eq!(parse_decimal("340282366920938463463374607431768211456"), None);
    let above = format!("{}", usize::MAX as u128 + 1);
    assert_eq!(parse_decimal(&above), None);
}

#[test]
fn parse_decimal_agrees_with_the_standard_library() {
    for s in ["", "0", "1", "+1", "-1", "+", "00", "18446744073709551615", "18446744073709551616", "4294967295", "4294967296", "9x", "x9"] {
        assert_eq!(parse_decimal(s), s.parse::<usize>().ok(), "{:?}", s);
    }
}

#[test]
fn parse_decimal_reads_back_what_render_decimal_wrote() {
    for n in [0usize, 1, 9, 10, 99, 100, 65535, usize::MAX] {
        assert_eq!(parse_decimal(&render_decimal(n)), Some(n));
    }
}
