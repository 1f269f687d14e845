use typeless::chars::{chars_of, str_eq, string_of};
use typeless::numbers::{decimal_string, parse_usize};
use typeless::text::{collapse_ws_chars, contains_chars, replace_matching, tighten_punct_chars, trim_chars};
use typeless::unicode::is_whitespace;

fn v(s: &str) -> Vec<char> {
    s.chars().collect()
}

fn s(v: &[char]) -> String {
    v.iter().collect()
}

#[test]
fn whitespace_agrees_with_std() {
    for u in 0u32..0x11000 {
        if let Some(c) = char::from_u32(u) {
            assert_eq!(is_whitespace(c), c.is_whitespace(), "{:x}", u);
        }
    }
}

#[test]
fn trim_agrees_with_std() {
    for t in ["", "   ", " a ", "\t\nab c\r\n", "\u{3000}x\u{2028}", "x", "a b"] {
        assert_eq!(s(&trim_chars(&v(t))), t.trim());
    }
}

#[test]
fn collapse_agrees_with_split_whitespace() {
    for t in ["", "  ", "a", " a  b\t\tc ", "x\u{85}y", "word"] {
        let want = t.split_whitespace().collect::<Vec<_>>().join(" ");
        assert_eq!(s(&collapse_ws_chars(&v(t))), want);
    }
}

#[test]
fn tighten_drops_space_before_punctuation_only() {
    assert_eq!(s(&tighten_punct_chars(&v("a , b . c ? d ! e : f ; g"))), "a, b. c? d! e: f; g");
    assert_eq!(s(&tighten_punct_chars(&v("a - b"))), "a - b");
    assert_eq!(s(&tighten_punct_chars(&v(" ,"))), ",");
    assert_eq!(s(&tighten_punct_chars(&v("a\t,"))), "a\t,");
    assert_eq!(s(&tighten_punct_chars(&v("a  ,"))), "a ,");
}

#[test]
fn replace_matching_is_leftmost_and_non_overlapping() {
    let t = v("abababa");
    assert_eq!(s(&replace_matching(&t, &t, &v("aba"), &v("X"))), "XbX");
    assert_eq!(s(&replace_matching(&t, &t, &v("zz"), &v("X"))), "abababa");
    let t2 = v("Hello");
    let m2 = v("hello");
    assert_eq!(s(&replace_matching(&t2, &m2, &v("ll"), &v(""))), "Heo");
}

#[test]
fn contains_finds_substrings() {
    assert!(contains_chars(&v("microphone array"), &v("array")));
    assert!(!contains_chars(&v("steam"), &v("steamy")));
    assert!(contains_chars(&v("abc"), &v("")));
}

#[test]
fn chars_and_strings() {
    assert_eq!(chars_of("héllo"), vec!['h', 'é', 'l', 'l', 'o']);
    assert_eq!(string_of(&vec!['😀', 'a']), "😀a");
    assert!(str_eq("abc", "abc"));
    assert!(!str_eq("abc", "abd"));
    assert!(!str_eq("abc", "ab"));
}

#[test]
fn decimal_agrees_with_to_string() {
    for n in [0u64, 7, 9, 10, 42, 1600, 99999, 1_000_000_007, u64::MAX] {
        assert_eq!(decimal_string(n), n.to_string());
    }
}

#[test]
fn parse_agrees_with_std() {
    for t in ["0", "42", "+7", "007", "", "+", "-1", "12a", " 1", "18446744073709551615",
              "18446744073709551616", "99999999999999999999999", "+0"] {
        assert_eq!(parse_usize(t), t.parse::<usize>().ok(), "{}", t);
    }
}

#[test]
fn decimal_parses_back() {
    for n in [0usize, 1, 10, 123456, usize::MAX] {
        assert_eq!(parse_usize(&decimal_string(n as u64)), Some(n));
    }
}
