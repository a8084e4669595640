use rsched::text::{
    bool_text, decimal_text, digits_text, join_texts, pad_text, same_text, signed_decimal_text,
    strip_prefix_text, trim_text, white_space,
};

#[test]
fn numbers() {
    assert_eq!(decimal_text(0), "0");
    assert_eq!(decimal_text(7), "7");
    assert_eq!(decimal_text(10), "10");
    assert_eq!(decimal_text(u64::MAX), u64::MAX.to_string());
    assert_eq!(signed_decimal_text(-1), "-1");
    assert_eq!(signed_decimal_text(i32::MIN), i32::MIN.to_string());
    assert_eq!(signed_decimal_text(42), "42");
    assert_eq!(digits_text(0xdead_beef, 16), "deadbeef");
    assert_eq!(digits_text(0, 16), "0");
    assert_eq!(bool_text(true), "true");
    assert_eq!(bool_text(false), "false");
}

#[test]
fn padding() {
    assert_eq!(pad_text("ab", 4), "ab  ");
    assert_eq!(pad_text("abcd", 4), "abcd");
    assert_eq!(pad_text("abcde", 4), "abcde");
    assert_eq!(pad_text("μs", 4), format!("{:<4}", "μs"));
}

#[test]
fn joining() {
    assert_eq!(join_texts(&vec![], ", "), "");
    assert_eq!(join_texts(&vec!["a".to_string()], ", "), "a");
    let three = vec!["a".to_string(), "".to_string(), "c".to_string()];
    assert_eq!(join_texts(&three, ", "), "a, , c");
}

#[test]
fn prefixes() {
    assert_eq!(strip_prefix_text("perf=x", "perf="), Some("x".to_string()));
    assert_eq!(strip_prefix_text("perf=", "perf="), Some("".to_string()));
    assert_eq!(strip_prefix_text("perf", "perf="), None);
    assert_eq!(strip_prefix_text("Perf=x", "perf="), None);
    assert!(same_text("a", "a"));
    assert!(!same_text("a", "A"));
}

#[test]
fn white_space_is_what_the_standard_library_says() {
    for u in 0..=0x10FFFFu32 {
        if let Some(c) = char::from_u32(u) {
            assert_eq!(white_space(c), c.is_whitespace());
        }
    }
}

#[test]
fn trimming() {
    for s in ["", " ", "a", " a", "a ", "\t a b \n", "\u{3000}x\u{a0}", "\u{200b}x"] {
        assert_eq!(trim_text(s), s.trim());
        assert_eq!(trim_text(&trim_text(s)), s.trim());
    }
}
