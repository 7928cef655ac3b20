use ward::text::{decimal_text, parse_unsigned_text, str_equal, text_starts_with, trim_text};

#[test]
fn decimal_numerals() {
    assert_eq!(decimal_text(0), "0");
    assert_eq!(decimal_text(7), "7");
    assert_eq!(decimal_text(4000), "4000");
    assert_eq!(decimal_text(u64::MAX), u64::MAX.to_string());
}

#[test]
fn unsigned_parsing_matches_std() {
    for s in ["0", "65535", "65536", "+1", "+", "", "-1", " 1", "1 ", "0x10", "00042", "1_000"] {
        assert_eq!(parse_unsigned_text(s, 65535), s.parse::<u16>().ok().map(u64::from), "{s:?}");
    }
    assert_eq!(parse_unsigned_text("18446744073709551615", u64::MAX), Some(u64::MAX));
    assert_eq!(parse_unsigned_text("18446744073709551616", u64::MAX), None);
}

#[test]
fn trimming_matches_std() {
    for s in ["", "  ", " a b ", "\u{3000}x\u{85}", "\ty\n", "z"] {
        assert_eq!(trim_text(s), s.trim(), "{s:?}");
    }
}

#[test]
fn prefixes_and_equality() {
    assert!(text_starts_with("loop0", "loop"));
    assert!(!text_starts_with("lo", "loop"));
    assert!(str_equal("dark", "dark"));
    assert!(!str_equal("dark", "darker"));
}
