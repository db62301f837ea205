use clanwars::text::{
    before, char_is_whitespace, is_all_digits, chars_of, decimal_chars, find, has, lines, matches_at, parse_u32,
    same, signed_decimal_chars, split, str_eq, string_of, strip_leading, trim,
};

fn chars(s: &str) -> Vec<char> {
    s.chars().collect()
}

fn text(v: &[char]) -> String {
    v.iter().collect()
}

#[test]
fn whitespace_is_what_std_calls_whitespace() {
    let mut code: u32 = 0;
    while code <= 0x10FFFF {
        if let Some(c) = char::from_u32(code) {
            assert_eq!(char_is_whitespace(c), c.is_whitespace(), "U+{:04X}", code);
        }
        code += 1;
    }
}

#[test]
fn chars_and_strings_convert_both_ways() {
    assert_eq!(chars_of("h\u{e9}llo"), chars("h\u{e9}llo"));
    assert_eq!(string_of(&chars("h\u{e9}llo")), "h\u{e9}llo");
    assert_eq!(string_of(&[]), "");
}

#[test]
fn trim_is_std_trim() {
    for s in ["", " ", "  a b \t\r\n", "a", "\u{a0}x\u{3000}", " \u{200b} "] {
        assert_eq!(text(trim(&chars(s))), s.trim(), "{:?}", s);
    }
}

#[test]
fn find_is_std_find() {
    let cases = [("abcabc", "bc"), ("abc", ""), ("", ""), ("", "a"), ("aaa", "aaaa"), ("xaab", "ab")];
    for (s, p) in cases {
        let expected = s.find(p);
        assert_eq!(find(&chars(s), &chars(p)), expected, "{:?} {:?}", s, p);
        assert_eq!(has(&chars(s), &chars(p)), s.contains(p));
    }
    assert!(matches_at(&chars("abc"), &chars("bc"), 1));
    assert!(!matches_at(&chars("abc"), &chars("bc"), 2));
    assert!(!matches_at(&chars("abc"), &chars("bc"), 7));
}

#[test]
fn before_takes_the_part_before_the_first_occurrence() {
    assert_eq!(text(before(&chars("Bones](u](v"), &chars("]("))), "Bones");
    assert_eq!(text(before(&chars("Bones"), &chars("]("))), "Bones");
}

#[test]
fn split_is_std_split() {
    for s in ["", "a", "a,b", ",", "a,,b,", ",a"] {
        let got: Vec<String> = split(&chars(s), ',').iter().map(|p| text(p)).collect();
        let expected: Vec<String> = s.split(',').map(|p| p.to_string()).collect();
        assert_eq!(got, expected, "{:?}", s);
    }
}

#[test]
fn lines_are_std_lines_up_to_carriage_returns() {
    for s in ["", "a", "a\n", "a\nb", "\n", "a\n\nb\n", "a\r\nb"] {
        let got: Vec<String> = lines(&chars(s)).iter().map(|p| text(trim(p))).collect();
        let expected: Vec<String> = s.lines().map(|p| p.trim().to_string()).collect();
        assert_eq!(got, expected, "{:?}", s);
    }
}

#[test]
fn parse_u32_is_std_parse() {
    for s in ["0", "15", "+15", "007", "4294967295", "4294967296", "99999999999999999999999", "", "+", "-1", "1a", " 1", "١"] {
        assert_eq!(parse_u32(&chars(s)), s.parse::<u32>().ok(), "{:?}", s);
    }
}

#[test]
fn decimal_is_std_to_string() {
    for n in [0u64, 7, 10, 99, 100, 4294967295, u64::MAX] {
        assert_eq!(text(&decimal_chars(n)), n.to_string());
    }
    for n in [0i64, -1, 17, -4294967296, i64::MIN, i64::MAX] {
        assert_eq!(text(&signed_decimal_chars(n)), n.to_string());
    }
}

#[test]
fn strip_leading_is_std_trim_start_matches() {
    for s in ["$category:ore", "$category:$category:ore", "ore", "", "$category:"] {
        assert_eq!(
            text(strip_leading(&chars(s), &chars("$category:"))),
            s.trim_start_matches("$category:")
        );
    }
    assert_eq!(text(strip_leading(&chars("aaa"), &chars(""))), "aaa");
}

#[test]
fn same_and_str_eq_compare_characters() {
    assert!(same(&chars("abc"), &chars("abc")));
    assert!(!same(&chars("abc"), &chars("abd")));
    assert!(!same(&chars("abc"), &chars("ab")));
    assert!(str_eq("N/A", "N/A"));
    assert!(!str_eq("N/A", "n/a"));
}

#[test]
fn digits_are_told_from_other_characters() {
    assert!(is_all_digits(&chars("0123456789")));
    assert!(is_all_digits(&chars("")));
    assert!(!is_all_digits(&chars("+1")));
    assert!(!is_all_digits(&chars("1 ")));
    assert!(!is_all_digits(&chars("\u{661}")));
}
