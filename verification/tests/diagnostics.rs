use lox_front::error_fmt::{i32_to_string, usize_to_string, Error};
use lox_front::errors::{Error as CodedError, UsageError};

#[test]
fn decimal_rendering_of_unsigned_values() {
    assert_eq!(usize_to_string(0), "0");
    assert_eq!(usize_to_string(7), "7");
    assert_eq!(usize_to_string(10), "10");
    assert_eq!(usize_to_string(90102), "90102");
}

#[test]
fn decimal_rendering_of_signed_values() {
    assert_eq!(i32_to_string(0), "0");
    assert_eq!(i32_to_string(42), "42");
    assert_eq!(i32_to_string(-1), "-1");
    assert_eq!(i32_to_string(-2147483648), "-2147483648");
}

#[test]
fn error_renders_message_line_and_caret() {
    let error = Error::new(
        "Lexical Error: Unexpected character.".to_string(),
        "  ~ oops  ".to_string(),
        3,
        1,
    );
    assert_eq!(
        error.render(),
        "Lexical Error: Unexpected character.\n|\n|3. ~ oops\n|   \u{2191} \n"
    );
}

#[test]
fn error_render_pads_to_the_column() {
    let error = Error::new("m".to_string(), "text".to_string(), 1, 4);
    // Six spaces: the column plus two.
    assert_eq!(error.render(), "m\n|\n|1. text\n|      \u{2191} \n");
}

#[test]
fn coded_error_report_line() {
    let error = CodedError::new("broken".to_string(), "UsageError".to_string(), -3);
    assert_eq!(error.report_line(), "[-3][UsageError] broken");
    assert_eq!(error.code(), -3);
}

#[test]
fn usage_error_for_too_many_args() {
    let context = vec!["prog".to_string(), "a".to_string(), "b".to_string()];
    let usage = UsageError::throw(context, 1);
    assert_eq!(usage.error.message, "Too many args. prog a b");
    assert_eq!(usage.error.error_type, "UsageError");
    assert_eq!(usage.error.code, 1);
}

#[test]
fn usage_error_for_invalid_file_path() {
    let context = vec!["prog".to_string(), "run".to_string(), "no/such/file".to_string()];
    let usage = UsageError::throw(context, 2);
    assert_eq!(usage.error.message, "Invalid file path: no/such/file");
    assert_eq!(usage.error.report_line(), "[1][UsageError] Invalid file path: no/such/file");
}

#[test]
fn usage_error_for_unknown_code() {
    let usage = UsageError::throw(Vec::new(), 9);
    assert_eq!(usage.error.message, "Invalid error code.");
}
