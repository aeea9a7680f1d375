use koto_help::text::{contains_sub, is_blank, text_to_key};
use koto_help::section::process_code_text;

#[test]
fn key_of_spaced_name() {
    assert_eq!(text_to_key("My Topic"), "my_topic");
}

#[test]
fn key_of_lower_name() {
    assert_eq!(text_to_key("my topic"), "my_topic");
}

#[test]
fn key_of_underscored_name() {
    assert_eq!(text_to_key("MY_TOPIC"), "my_topic");
}

#[test]
fn key_normalization_idempotent() {
    let once = text_to_key("  Mixed Case Name  ");
    let twice = text_to_key(&once);
    assert_eq!(once, twice);
    assert_eq!(once, "mixed_case_name");
}

#[test]
fn key_trims_surrounding_whitespace() {
    assert_eq!(text_to_key("\t strings \n"), "strings");
}

#[test]
fn key_of_empty_is_empty() {
    assert_eq!(text_to_key("   "), "");
}

#[test]
fn contains_sub_finds_inner_run() {
    assert!(contains_sub("iterator", "rat"));
    assert!(contains_sub("iterator", "iterator"));
    assert!(contains_sub("iterator", ""));
    assert!(!contains_sub("iterator", "ratz"));
    assert!(!contains_sub("io", "iterator"));
}

#[test]
fn blank_detects_whitespace_only() {
    assert!(is_blank("  \n\t"));
    assert!(is_blank(""));
    assert!(!is_blank("  x "));
}

#[test]
fn code_text_check_marker_replaced() {
    assert_eq!(process_code_text("check! 42"), "# \u{279d} 42");
}

#[test]
fn code_text_print_marker_stripped() {
    assert_eq!(process_code_text("print! hello"), "hello");
}

#[test]
fn code_text_lines_get_continuation_indent() {
    assert_eq!(process_code_text("a = 1\ncheck! 1"), "a = 1\n # \u{279d} 1");
}
