use sticky::number::{parse_i32_exec, parse_usize_exec, push_decimal, push_signed_decimal};
use sticky::text::{chars_of, lines_of, replace_all_exec, split_on, string_of, trim_exec};

fn v(s: &str) -> Vec<char> {
    s.chars().collect()
}

fn s(v: &[char]) -> String {
    v.iter().collect()
}

#[test]
fn lines_match_str_lines() {
    for text in ["", "a", "a\n", "a\nb", "a\r\nb\r\n", "\n\n", "x\r", "foo\r\nbar\n\nbaz\r"] {
        let ours: Vec<String> = lines_of(&v(text)).iter().map(|l| s(l)).collect();
        let std: Vec<String> = text.lines().map(|l| l.to_string()).collect();
        assert_eq!(ours, std, "{:?}", text);
    }
}

#[test]
fn split_matches_str_split() {
    for text in ["", "a", "a|b", "|", "a||b|"] {
        let ours: Vec<String> = split_on(&v(text), '|').iter().map(|l| s(l)).collect();
        let std: Vec<String> = text.split('|').map(|l| l.to_string()).collect();
        assert_eq!(ours, std, "{:?}", text);
    }
}

#[test]
fn trim_matches_str_trim() {
    for text in ["", "  ", " a ", "\u{3000}b\u{2009}", "\ta\nb\r", "x"] {
        assert_eq!(s(&trim_exec(&v(text))), text.trim(), "{:?}", text);
    }
}

#[test]
fn replace_matches_str_replace() {
    for (text, p, r) in [("aaa", "aa", "b"), ("abcabc", "bc", "X"), ("", "a", "b"), ("\n\n\n\n", "\n\n\n", "\n\n")] {
        assert_eq!(s(&replace_all_exec(&v(text), &v(p), &v(r))), text.replace(p, r));
    }
}

#[test]
fn numbers_print_and_parse_like_std() {
    for n in [0i32, 7, -7, 42, i32::MAX, i32::MIN] {
        let mut out = Vec::new();
        push_signed_decimal(&mut out, n);
        assert_eq!(s(&out), n.to_string());
        assert_eq!(parse_i32_exec(&out), Some(n));
    }
    let mut out = Vec::new();
    push_decimal(&mut out, u64::MAX);
    assert_eq!(s(&out), u64::MAX.to_string());
    for text in ["", "+", "-", "+5", "-0", "12a", "2147483648", "-2147483649", "00012", " 1"] {
        assert_eq!(parse_i32_exec(&v(text)), text.parse::<i32>().ok(), "{:?}", text);
    }
    for text in ["", "+", "-1", "+5", "18446744073709551615", "18446744073709551616", "0009"] {
        assert_eq!(parse_usize_exec(&v(text)), text.parse::<usize>().ok(), "{:?}", text);
    }
}

#[test]
fn strings_round_trip_through_chars() {
    for text in ["", "héllo", "☐  x"] {
        assert_eq!(string_of(&chars_of(text)), text);
    }
}
