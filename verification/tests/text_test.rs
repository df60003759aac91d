use shelfarrs::encode::{hex, urlencoding};
use shelfarrs::text::{
    after_prefix, ascii_white, blank, contains, control, decimal, ends_with, first_chars, hex_digit,
    join, lower, parse_integer, replace, same, same_but_case, split, split_by, starts_with, trim,
    trim_end_of, trim_end_text, trim_of, trim_start_of, white, word_char, words, CharSet,
};

#[test]
fn urlencodes_spaces_and_symbols() {
    assert_eq!(urlencoding("jane austen"), "jane%20austen");
    assert_eq!(urlencoding("a&b"), "a%26b");
}

#[test]
fn urlencodes() {
    assert_eq!(urlencoding("jane austen"), "jane%20austen");
}

#[test]
fn urlencoding_of_every_kind_of_byte() {
    assert_eq!(urlencoding("AZaz09-_.~"), "AZaz09-_.~");
    assert_eq!(urlencoding("é/?"), "%C3%A9%2F%3F");
    assert_eq!(urlencoding("\u{0}\u{7f}"), "%00%7F");
    assert_eq!(urlencoding(""), "");
}

#[test]
fn urlencoding_can_be_undone() {
    let plain = "Ünïcode & friends: 100% +/=?#";
    let encoded = urlencoding(plain);
    let cs: Vec<char> = encoded.chars().collect();
    let mut bytes = vec![];
    let mut i = 0;
    while i < cs.len() {
        if cs[i] == '%' {
            let digits: String = cs[i + 1..i + 3].iter().collect();
            bytes.push(u8::from_str_radix(&digits, 16).unwrap());
            i += 3;
        } else {
            bytes.push(cs[i] as u8);
            i += 1;
        }
    }
    assert_eq!(String::from_utf8(bytes).unwrap(), plain);
}

#[test]
fn hex_is_lowercase_and_two_digits_each() {
    assert_eq!(hex(&[0, 15, 16, 255, 171]), "000f10ffab");
    assert_eq!(hex(&[]), "");
}

#[test]
fn character_classes_agree_with_the_standard_library() {
    for n in 0..=0x10ffffu32 {
        if let Some(c) = char::from_u32(n) {
            assert_eq!(white(c), c.is_whitespace(), "{n:x}");
            assert_eq!(control(c), c.is_control(), "{n:x}");
            assert_eq!(ascii_white(c), c.is_ascii_whitespace(), "{n:x}");
            assert_eq!(word_char(c), c.is_ascii_alphanumeric(), "{n:x}");
            assert_eq!(hex_digit(c), c.is_ascii_hexdigit(), "{n:x}");
        }
    }
}

#[test]
fn text_routines_agree_with_the_standard_library() {
    let samples = [
        "", " ", "a", "  a b  ", "aXbXXc", "XX", "/a//b/", "\u{a0}x\u{3000}", "ÄÖ straße", "..a..",
        "\t one\ntwo \r\n three", "ΑΣ", "İ",
    ];
    for s in samples {
        assert_eq!(trim(s), s.trim());
        assert_eq!(lower(s), s.to_lowercase());
        assert_eq!(replace(s, "X", "yy"), s.replace("X", "yy"));
        assert_eq!(replace(s, "XX", "X"), s.replace("XX", "X"));
        assert_eq!(split(s, '/'), s.split('/').collect::<Vec<_>>());
        assert_eq!(split_by(s, "XX"), s.split("XX").collect::<Vec<_>>());
        assert_eq!(words(s), s.split_whitespace().collect::<Vec<_>>());
        assert_eq!(trim_start_of(s, CharSet::Slash), s.trim_start_matches('/'));
        assert_eq!(trim_end_of(s, CharSet::Slash), s.trim_end_matches('/'));
        assert_eq!(trim_of(s, CharSet::Dot), s.trim_matches('.'));
        assert_eq!(trim_start_of(s, CharSet::AnySlash), s.trim_start_matches(['/', '\\']));
        assert_eq!(first_chars(s, 3), s.chars().take(3).collect::<String>());
        for p in ["", "a", "X", "XX", " ", "b/"] {
            assert_eq!(contains(s, p), s.contains(p));
            assert_eq!(starts_with(s, p), s.starts_with(p));
            assert_eq!(ends_with(s, p), s.ends_with(p));
            assert_eq!(after_prefix(s, p), s.strip_prefix(p).map(String::from));
            assert_eq!(same(s, p), s == p);
            assert_eq!(same_but_case(s, p), s.eq_ignore_ascii_case(p));
        }
    }
    assert!(same_but_case("Jane Austen", "JANE austen"));
    assert!(!same_but_case("é", "É"));
}

#[test]
fn lowercase_of_text_beyond_ascii() {
    assert_eq!(lower("ÉCOLE"), "école");
    assert_eq!(lower("ABC"), "abc");
}

#[test]
fn suffixes_are_trimmed_repeatedly() {
    assert_eq!(trim_end_text("https://x/api/api", "/api"), "https://x");
    assert_eq!(trim_end_text("https://x", "/api"), "https://x");
    assert_eq!(trim_end_text("/api", "/api"), "");
}

#[test]
fn joining() {
    assert_eq!(join(&vec![], ", "), "");
    assert_eq!(join(&vec!["a".to_string()], ", "), "a");
    assert_eq!(join(&vec!["a".to_string(), "b".to_string(), "c".to_string()], ", "), "a, b, c");
}

#[test]
fn blank_fields_are_nothing() {
    assert_eq!(blank(&None), None);
    assert_eq!(blank(&Some("  \t".to_string())), None);
    assert_eq!(blank(&Some("  x y ".to_string())), Some("x y".to_string()));
}

#[test]
fn decimals() {
    for n in [0, 7, 10, 99, 100, -1, -10, i64::MAX, i64::MIN, 1234567890] {
        assert_eq!(decimal(n), n.to_string());
        assert_eq!(parse_integer(&n.to_string()), Some(n));
    }
}

#[test]
fn integers_are_read_as_the_standard_library_reads_them() {
    let samples = [
        "", "+", "-", "0", "+0", "-0", "007", "+12", "-12", " 1", "1 ", "1.0", "1e3", "abc",
        "9223372036854775807", "9223372036854775808", "-9223372036854775808",
        "-9223372036854775809", "99999999999999999999999999999999999999999999", "--1", "+-1", "٣",
        "00000000000000000000000000000000000000000000000000000000012",
    ];
    for s in samples {
        assert_eq!(parse_integer(s), s.parse::<i64>().ok(), "{s:?}");
    }
}
