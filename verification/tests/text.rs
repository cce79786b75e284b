use vj_copilot::text::{join_str, decimal_string, str_eq, str_is_blank, str_less};

#[test]
fn writes_numbers_in_decimal() {
    assert_eq!(decimal_string(0), "0");
    assert_eq!(decimal_string(48_000), "48000");
    assert_eq!(decimal_string(u64::MAX), u64::MAX.to_string());
}

#[test]
fn compares_strings_by_code_point() {
    assert!(str_less("a", "b"));
    assert!(str_less("", "a"));
    assert!(str_less("Z", "a"));
    assert!(!str_less("b", "a"));
    assert!(str_less("é", "字"));
    assert!(str_eq("字幕", "字幕"));
    assert!(!str_eq("字幕", "字"));
}

#[test]
fn joins_and_checks_for_blank_text() {
    assert_eq!(join_str("ab", "字"), "ab字");
    assert!(str_is_blank(" \u{2003}\n"));
    assert!(!str_is_blank(" x "));
}

#[test]
fn white_space_agrees_with_the_standard_library_on_every_character() {
    for code in 0..=0x10FFFF_u32 {
        if let Some(c) = char::from_u32(code) {
            assert_eq!(str_is_blank(&c.to_string()), c.is_whitespace(), "U+{code:04X}");
        }
    }
}
