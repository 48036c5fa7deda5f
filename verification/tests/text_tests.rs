use docs_orchestrator::text::{
    char_count, i32_to_decimal, ljust_exec, pad_colored, replace_all, repeat_char, str_contains,
    strip_ansi, trim, truncate_chars, u64_to_decimal,
};

#[test]
fn strip_ansi_removes_color_codes() {
    assert_eq!(strip_ansi("\x1b[31mred\x1b[0m text"), "red text");
}

#[test]
fn strip_ansi_keeps_plain_text() {
    assert_eq!(strip_ansi("plain │ text"), "plain │ text");
}

#[test]
fn strip_ansi_unterminated_sequence_hides_rest() {
    assert_eq!(strip_ansi("ab\x1b[12;34"), "ab");
}

#[test]
fn strip_ansi_is_idempotent_on_example() {
    let once = strip_ansi("\x1b[1m\x1b[36mTitle\x1b[0m:");
    assert_eq!(strip_ansi(&once), once);
    assert_eq!(once, "Title:");
}

#[test]
fn pad_colored_left_counts_visible_width() {
    assert_eq!(pad_colored("\x1b[1mab\x1b[0m", 5, '.', "left"), "\x1b[1mab\x1b[0m...");
}

#[test]
fn pad_colored_right_pads_before() {
    assert_eq!(pad_colored("ab", 5, '-', "right"), "---ab");
}

#[test]
fn pad_colored_center_puts_extra_on_the_right() {
    assert_eq!(pad_colored("ab", 7, '*', "center"), "**ab***");
}

#[test]
fn pad_colored_wider_text_is_unchanged() {
    assert_eq!(pad_colored("abcdef", 3, ' ', "left"), "abcdef");
}

#[test]
fn pad_colored_visible_width_law_example() {
    let padded = pad_colored("\x1b[32mok\x1b[0m", 32, ' ', "left");
    assert_eq!(strip_ansi(&padded).chars().count(), 32);
}

#[test]
fn truncate_chars_cuts_long_text() {
    assert_eq!(truncate_chars("abcdefghij", 5, 3), "abc...");
    assert_eq!(truncate_chars("abcde", 5, 3), "abcde");
}

#[test]
fn replace_all_replaces_every_occurrence() {
    assert_eq!(replace_all("[agent] a [agent]", "[agent]", "[agent,working]"), "[agent,working] a [agent,working]");
    assert_eq!(replace_all("aaa", "aa", "b"), "ba");
}

#[test]
fn trim_removes_unicode_whitespace() {
    assert_eq!(trim("  \t hello world\r\n"), "hello world");
    assert_eq!(trim("\u{3000}x\u{a0}"), "x");
    assert_eq!(trim("   "), "");
}

#[test]
fn decimals_format_numbers() {
    assert_eq!(u64_to_decimal(0), "0");
    assert_eq!(u64_to_decimal(1234567890), "1234567890");
    assert_eq!(i32_to_decimal(-1), "-1");
    assert_eq!(i32_to_decimal(i32::MIN), "-2147483648");
    assert_eq!(i32_to_decimal(i32::MAX), "2147483647");
}

#[test]
fn ljust_pads_to_width() {
    assert_eq!(ljust_exec("ab", 5), "ab   ");
    assert_eq!(ljust_exec("abcdef", 3), "abcdef");
}

#[test]
fn small_text_helpers() {
    assert!(str_contains("Tab [human] x", "[human]"));
    assert!(!str_contains("Tab", "[human]"));
    assert_eq!(char_count("é→a"), 3);
    assert_eq!(repeat_char('─', 3), "───");
}
