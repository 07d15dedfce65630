use xbark::num::{dec_chars, hex_chars_fixed, parse_uint, ParseUintError};
use xbark::paths::path_join;
use xbark::text::{chars_of, contains_chars, trim_chars};
use xbark::width::{display_width, is_wide_char, pad_right, truncate_width};

fn s(v: &[char]) -> String {
    v.iter().collect()
}

#[test]
fn chars_round_trip() {
    let v = chars_of("héllo 你好");
    assert_eq!(v, "héllo 你好".chars().collect::<Vec<char>>());
    assert!(chars_of("").is_empty());
}

#[test]
fn substring_search_matches_std() {
    let cases = [("hello", "ell"), ("hello", ""), ("", ""), ("", "a"), ("abc", "abcd"), ("aaab", "aab"), ("你好世界", "世界")];
    for (hay, needle) in cases {
        assert_eq!(contains_chars(&chars_of(hay), &chars_of(needle)), hay.contains(needle), "{hay:?} {needle:?}");
    }
}

#[test]
fn trim_matches_std() {
    let cases = ["  a b  ", "\n\t x\r\n", "", "   ", "\u{3000}全角\u{3000}", "\u{85}x\u{a0}", "abc"];
    for c in cases {
        assert_eq!(s(&trim_chars(&chars_of(c))), c.trim(), "{c:?}");
    }
}

#[test]
fn lowercase_comparisons_ignore_case() {
    assert!(xbark::release::confirmed("YES"));
    assert_eq!(xbark::listing::resolve_lang("auto", "ZH_CN.UTF-8").0, xbark::listing::Lang::Zh);
}

#[test]
fn decimal_and_hex_rendering() {
    assert_eq!(s(&dec_chars(0)), "0");
    assert_eq!(s(&dec_chars(1234567890)), "1234567890");
    assert_eq!(s(&dec_chars(u64::MAX)), u64::MAX.to_string());
    assert_eq!(s(&hex_chars_fixed(0xcbf29ce484222325, 16)), "cbf29ce484222325");
    assert_eq!(s(&hex_chars_fixed(0xab, 16)), "00000000000000ab");
    assert_eq!(s(&hex_chars_fixed(0xabc, 2)), "bc");
}

#[test]
fn parse_matches_std_u16() {
    let cases = ["", "+", "-", "0", "+7", "-1", "65535", "65536", "007", "12a", "a1", " 1", "99999999999999999999a", "+-1"];
    for c in cases {
        let ours = parse_uint(&chars_of(c), u16::MAX as u64);
        match c.parse::<u16>() {
            Ok(v) => assert_eq!(ours, Ok(v as u64), "{c:?}"),
            Err(e) => {
                let want = match e.kind() {
                    std::num::IntErrorKind::Empty => ParseUintError::Empty,
                    std::num::IntErrorKind::InvalidDigit => ParseUintError::InvalidDigit,
                    _ => ParseUintError::PosOverflow,
                };
                assert_eq!(ours, Err(want), "{c:?}");
                assert_eq!(want.message(), e.to_string());
            }
        }
    }
}

#[test]
fn wide_characters_take_two_columns() {
    assert!(is_wide_char('你'));
    assert!(is_wide_char('가'));
    assert!(!is_wide_char('a'));
    assert!(!is_wide_char('…'));
    assert_eq!(display_width("abc"), 3);
    assert_eq!(display_width("点赞"), 4);
    assert_eq!(display_width("a点b"), 4);
}

#[test]
fn pad_right_pads_and_cuts() {
    assert_eq!(pad_right("ab", 5), "ab   ");
    assert_eq!(pad_right("abc", 3), "abc");
    assert_eq!(pad_right("abcdef", 4), "abc…");
    assert_eq!(pad_right("你好世界", 4), "你 …");
    assert_eq!(pad_right("abc", 0), "…");
    assert_eq!(display_width(&pad_right("你好世界abc", 6)), 6);
}

#[test]
fn truncate_width_cuts_with_ellipsis() {
    assert_eq!(truncate_width("short", 10), "short");
    assert_eq!(truncate_width("abcdef", 4), "abc…");
    assert_eq!(truncate_width("你好世界", 4), "你…");
    assert_eq!(truncate_width("abc", 0), "…");
    assert!(display_width(&truncate_width("一二三四五六", 5)) <= 5);
}

#[test]
fn path_join_matches_std() {
    let cases = [("/a/b", "c"), ("/a/b/", "c"), ("", "c"), ("/a", "/abs"), ("rel", "x.png"), ("/", "x")];
    for (b, r) in cases {
        let want = std::path::Path::new(b).join(r);
        assert_eq!(path_join(b, r), want.to_str().unwrap(), "{b:?} {r:?}");
    }
}

#[test]
fn display_width_adds_up_example() {
    assert_eq!(display_width(""), 0);
    let (a, b) = ("点赞", "ok");
    assert_eq!(display_width(&(a.to_owned() + b)), display_width(a) + display_width(b));
    let n = "点赞ok".chars().count();
    assert!(n <= display_width("点赞ok") && display_width("点赞ok") <= 2 * n);
}
