use dhammapada::text::{chars_of, decimal_string, is_whitespace, string_of, trim_str};

#[test]
fn decimal_strings() {
    assert_eq!(decimal_string(0), "0");
    assert_eq!(decimal_string(7), "7");
    assert_eq!(decimal_string(10), "10");
    assert_eq!(decimal_string(423), "423");
    assert_eq!(decimal_string(u64::MAX), u64::MAX.to_string());
}

#[test]
fn whitespace_matches_std() {
    for u in 0u32..0x3100 {
        if let Some(c) = char::from_u32(u) {
            assert_eq!(is_whitespace(c), c.is_whitespace(), "{:x}", u);
        }
    }
    assert!(!is_whitespace('\u{FEFF}'));
}

#[test]
fn trim_matches_std() {
    for s in ["", "  ", " a ", "\u{3000}x\u{a0}", "\ta b\n", "no", "\u{2028}\u{205f}é\u{85}"] {
        assert_eq!(trim_str(s), s.trim());
    }
}

#[test]
fn chars_round_trip() {
    let s = "Dhammapada – धम्मपद";
    assert_eq!(string_of(&chars_of(s)), s);
    assert_eq!(chars_of(s).len(), s.chars().count());
}
