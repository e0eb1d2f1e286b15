use clipper::text::{decimal, parse_u32, preview_text, trim, white_space};

#[test]
fn a_preview_is_the_trimmed_first_line() {
    assert_eq!(preview_text("  hello \t\nworld"), "hello");
    assert_eq!(preview_text("hello\r\nworld"), "hello");
    assert_eq!(preview_text("one line"), "one line");
}

#[test]
fn a_blank_first_line_is_shown_as_such() {
    assert_eq!(preview_text(""), "(blank)");
    assert_eq!(preview_text("  \t \nhello"), "(blank)");
    assert_eq!(preview_text("\nhello"), "(blank)");
}

#[test]
fn a_long_preview_is_cut() {
    let fits: String = "é".repeat(64);
    assert_eq!(preview_text(&fits), fits);
    let long: String = "é".repeat(65);
    assert_eq!(preview_text(&long), format!("{}…", "é".repeat(63)));
}

#[test]
fn trimming_agrees_with_the_standard_library() {
    for s in ["", " ", "a", " a ", "\u{a0}a b\u{3000}", "\u{85}x\u{2028}", "\u{200b}x", "\tx\u{1680}"] {
        assert_eq!(trim(s), s.trim(), "{s:?}");
    }
}

#[test]
fn white_space_agrees_with_the_standard_library() {
    for n in 0..=0x10ffff_u32 {
        if let Some(c) = char::from_u32(n) {
            assert_eq!(white_space(c), c.is_whitespace(), "{n:x}");
        }
    }
}

#[test]
fn decimal_numbers() {
    for n in [0u64, 1, 9, 10, 99, 100, 12345, u32::MAX as u64, u64::MAX] {
        assert_eq!(decimal(n), n.to_string());
    }
}

#[test]
fn parsing_agrees_with_the_standard_library() {
    for s in [
        "", "+", "-", "0", "7", "+7", "-0", "-1", "007", "4294967295", "4294967296",
        "00000000000000004294967295", "99999999999", "1a", " 1", "1_000", "++1", "٣",
    ] {
        assert_eq!(parse_u32(s), s.parse::<u32>().ok(), "{s:?}");
    }
}

#[test]
fn a_number_survives_a_round_trip() {
    for n in [0u32, 5, 10, 4096, u32::MAX] {
        assert_eq!(parse_u32(&decimal(n as u64)), Some(n));
    }
}
