use lox_rs::error_reporter::{Category, ErrorReporter};
use lox_rs::text::{chars_of, decimal, join, join3, same_text, slice_text};
use lox_rs::token::{Token, Type};

#[test]
fn new_reporter_is_clean() {
    let reporter = ErrorReporter::new();
    assert!(!reporter.had_error);
    assert!(!reporter.had_runtime_error);
    assert!(reporter.reports.is_empty());
}

#[test]
fn error_sets_the_compile_flag() {
    let mut reporter = ErrorReporter::new();
    reporter.error(3, "Unexpected character.");
    assert!(reporter.had_error);
    assert!(!reporter.had_runtime_error);
    assert_eq!(reporter.reports.len(), 1);
    assert_eq!(reporter.reports[0].category, Category::Compile);
    assert_eq!(reporter.reports[0].render(), "[line 3] Error: Unexpected character.");
}

#[test]
fn error_on_token_names_the_token() {
    let mut reporter = ErrorReporter::new();
    let token = Token::new(Type::Identifier, "name".to_string(), 12);
    reporter.error_on_token(&token, "Expected ';' after value.");
    assert!(reporter.had_error);
    assert_eq!(
        reporter.reports[0].render(),
        "[line 12] Error at 'name': Expected ';' after value."
    );
}

#[test]
fn error_at_the_end_of_input() {
    let mut reporter = ErrorReporter::new();
    let token = Token::new(Type::EOF, String::new(), 7);
    reporter.error_on_token(&token, "Expected expression.");
    assert_eq!(reporter.reports[0].render(), "[line 7] Error at end: Expected expression.");
}

#[test]
fn runtime_error_on_token_sets_the_runtime_flag() {
    let mut reporter = ErrorReporter::new();
    let token = Token::new(Type::Plus, "+".to_string(), 1);
    reporter.runtime_error_on_token(&token, "Operand must be a number.");
    assert!(!reporter.had_error);
    assert!(reporter.had_runtime_error);
    assert_eq!(reporter.reports[0].category, Category::Runtime);
    assert_eq!(reporter.reports[0].render(), "[line 1] Error at '+': Operand must be a number.");
    let end = Token::new(Type::EOF, String::new(), 2);
    reporter.runtime_error_on_token(&end, "message");
    assert_eq!(reporter.reports[1].render(), "[line 2] Error at end: message");
}

#[test]
fn native_runtime_error_has_no_line() {
    let mut reporter = ErrorReporter::new();
    reporter.runtime_error("Time is going backwards!");
    assert!(reporter.had_runtime_error);
    assert_eq!(reporter.reports[0].category, Category::Native);
    assert_eq!(reporter.reports[0].render(), "Runtime Error: Time is going backwards!");
}

#[test]
fn flags_are_sticky_and_reports_keep_their_order() {
    let mut reporter = ErrorReporter::new();
    reporter.error(1, "first");
    reporter.runtime_error("second");
    reporter.error(2, "third");
    assert!(reporter.had_error && reporter.had_runtime_error);
    let messages: Vec<&str> = reporter.reports.iter().map(|r| r.message.as_str()).collect();
    assert_eq!(messages, vec!["first", "second", "third"]);
}

#[test]
fn reset_clears_only_the_compile_flag() {
    let mut reporter = ErrorReporter::new();
    reporter.error(1, "first");
    reporter.runtime_error("second");
    reporter.reset();
    assert!(!reporter.had_error);
    assert!(reporter.had_runtime_error);
    assert!(reporter.reports.is_empty());
}

#[test]
fn decimal_digits_of_numbers() {
    assert_eq!(decimal(0), "0");
    assert_eq!(decimal(7), "7");
    assert_eq!(decimal(10), "10");
    assert_eq!(decimal(255), "255");
    assert_eq!(decimal(1234567890), "1234567890");
    assert_eq!(decimal(usize::MAX), usize::MAX.to_string());
}

#[test]
fn text_helpers() {
    assert_eq!(join("ab", "cd"), "abcd");
    assert_eq!(join3("a", "", "b"), "ab");
    assert_eq!(chars_of("héllo"), vec!['h', 'é', 'l', 'l', 'o']);
    let chars = chars_of("hello world");
    assert_eq!(slice_text(&chars, 6, 11), "world");
    assert_eq!(slice_text(&chars, 3, 3), "");
    assert!(same_text(&"init".to_string(), "init"));
    assert!(!same_text(&"init".to_string(), "inits"));
}
