use mcp_tunnel::text::{
    begins_with, chars_of, is_white_space, parse_number, push_decimal, split_all, split_once,
    to_lower, trim, trim_end_char,
};

#[test]
fn white_space_is_that_of_char() {
    for n in 0..=0x10FFFFu32 {
        if let Some(c) = char::from_u32(n) {
            assert_eq!(is_white_space(c), c.is_whitespace(), "{n:#x}");
        }
    }
}

#[test]
fn lower_case_changes_ascii_letters_only() {
    assert_eq!(to_lower("Content-LENGTH"), "content-length");
    assert_eq!(to_lower("ÀB0_z"), "ÀB0_z".to_ascii_lowercase());
}

#[test]
fn splitting_agrees_with_str() {
    for s in ["", ":", "a", "a:b", "a:b:c", ":x", "x:", "é:ü"] {
        let want = s.split_once(':').map(|(a, b)| (a.to_string(), b.to_string()));
        assert_eq!(split_once(s, ':'), want, "{s:?}");
        let all: Vec<String> = s.split(':').map(|p| p.to_string()).collect();
        assert_eq!(split_all(s, ':'), all, "{s:?}");
    }
}

#[test]
fn trimming_agrees_with_str() {
    for s in ["", "  ", "a", " a b \n", "\u{3000}x\u{a0}", "x\u{200b}"] {
        assert_eq!(trim(s), s.trim(), "{s:?}");
    }
    for s in ["", "/", "//", "a/", "a//", "/a", "a/b"] {
        assert_eq!(trim_end_char(s, '/'), s.trim_end_matches('/'), "{s:?}");
    }
}

#[test]
fn numbers_are_read_like_parse() {
    for s in ["", "+", "-", "0", "7", "+7", "-7", "007", " 7", "65535", "65536", "9x", "٣", "++1"] {
        let want = s.parse::<u16>().ok().map(u64::from);
        assert_eq!(parse_number(s, u64::from(u16::MAX)), want, "{s:?}");
    }
    for s in ["18446744073709551615", "18446744073709551616", "99999999999999999999999"] {
        assert_eq!(parse_number(s, u64::MAX), s.parse::<u64>().ok(), "{s:?}");
    }
}

#[test]
fn decimals_are_written_like_display() {
    for n in [0u128, 7, 10, 99, 100, 65536, u128::from(u64::MAX)] {
        let mut out = String::from("n=");
        push_decimal(&mut out, n);
        assert_eq!(out, format!("n={n}"));
    }
}

#[test]
fn prefixes() {
    assert!(begins_with(&chars_of("wss://x"), "wss://"));
    assert!(begins_with(&chars_of("x"), ""));
    assert!(!begins_with(&chars_of("ws:/"), "ws://"));
}
