use lox_rs::error_reporter::ErrorReporter;
use lox_rs::scanner::Scanner;
use lox_rs::token::{Literal, Token, Type};

fn scan(source: &str) -> (Vec<Token>, ErrorReporter) {
    let mut reporter = ErrorReporter::new();
    let tokens = Scanner::new(source).scan_tokens(&mut reporter);
    (tokens, reporter)
}

fn kinds(source: &str) -> Vec<Type> {
    let (tokens, reporter) = scan(source);
    assert!(!reporter.had_error);
    tokens.iter().map(|t| t.token_type().clone()).collect()
}

#[test]
fn empty_source_gives_the_end_token() {
    let (tokens, reporter) = scan("");
    assert!(!reporter.had_error);
    assert_eq!(tokens.len(), 1);
    assert_eq!(*tokens[0].token_type(), Type::EOF);
    assert_eq!(tokens[0].lexeme(), "");
    assert_eq!(tokens[0].line(), 1);
}

#[test]
fn punctuation_tokens() {
    assert_eq!(kinds("(){},.-+;*/"), vec![
        Type::LeftParen,
        Type::RightParen,
        Type::LeftBrace,
        Type::RightBrace,
        Type::Comma,
        Type::Dot,
        Type::Minus,
        Type::Plus,
        Type::Semicolon,
        Type::Star,
        Type::Slash,
        Type::EOF,
    ]);
}

#[test]
fn one_and_two_character_operators() {
    assert_eq!(kinds("! != = == < <= > >="), vec![
        Type::Bang,
        Type::BangEqual,
        Type::Equal,
        Type::EqualEqual,
        Type::Less,
        Type::LessEqual,
        Type::Greater,
        Type::GreaterEqual,
        Type::EOF,
    ]);
    assert_eq!(kinds("!==="), vec![Type::BangEqual, Type::EqualEqual, Type::EOF]);
    assert_eq!(kinds("<=>"), vec![Type::LessEqual, Type::Greater, Type::EOF]);
}

#[test]
fn keywords_and_identifiers() {
    assert_eq!(
        kinds("and class else false for fun if nil or print return super this true var while"),
        vec![
            Type::And,
            Type::Class,
            Type::Else,
            Type::False,
            Type::For,
            Type::Fun,
            Type::If,
            Type::Nil,
            Type::Or,
            Type::Print,
            Type::Return,
            Type::Super,
            Type::This,
            Type::True,
            Type::Var,
            Type::While,
            Type::EOF,
        ]
    );
    assert_eq!(kinds("andy classes orchid x1 whiles"), vec![
        Type::Identifier,
        Type::Identifier,
        Type::Identifier,
        Type::Identifier,
        Type::Identifier,
        Type::EOF,
    ]);
}

#[test]
fn identifiers_may_hold_letters_of_any_script() {
    let (tokens, reporter) = scan("größe = été;");
    assert!(!reporter.had_error);
    assert_eq!(tokens[0].lexeme(), "größe");
    assert_eq!(*tokens[0].token_type(), Type::Identifier);
    assert_eq!(tokens[2].lexeme(), "été");
}

#[test]
fn underscore_is_no_letter() {
    let (tokens, reporter) = scan("a_b");
    assert!(reporter.had_error);
    assert_eq!(reporter.reports[0].render(), "[line 1] Error: Unexpected character.");
    let lexemes: Vec<&str> = tokens.iter().map(|t| t.lexeme()).collect();
    assert_eq!(lexemes, vec!["a", "b", ""]);
}

#[test]
fn lexemes_are_the_source_text() {
    let (tokens, _) = scan("var answer = 42.5;");
    let lexemes: Vec<&str> = tokens.iter().map(|t| t.lexeme()).collect();
    assert_eq!(lexemes, vec!["var", "answer", "=", "42.5", ";", ""]);
}

#[test]
fn numbers_carry_their_digits() {
    assert_eq!(kinds("12 3.75 0.5"), vec![
        Type::Number("12".to_string()),
        Type::Number("3.75".to_string()),
        Type::Number("0.5".to_string()),
        Type::EOF,
    ]);
}

#[test]
fn a_number_has_no_trailing_dot_and_no_sign() {
    assert_eq!(kinds("1."), vec![Type::Number("1".to_string()), Type::Dot, Type::EOF]);
    assert_eq!(kinds("-1"), vec![Type::Minus, Type::Number("1".to_string()), Type::EOF]);
    assert_eq!(kinds("1.2.3"), vec![
        Type::Number("1.2".to_string()),
        Type::Dot,
        Type::Number("3".to_string()),
        Type::EOF,
    ]);
    assert_eq!(kinds(".5"), vec![Type::Dot, Type::Number("5".to_string()), Type::EOF]);
    assert_eq!(kinds("1.x"), vec![
        Type::Number("1".to_string()),
        Type::Dot,
        Type::Identifier,
        Type::EOF,
    ]);
}

#[test]
fn strings_carry_their_content() {
    let (tokens, reporter) = scan("\"hello world\"");
    assert!(!reporter.had_error);
    assert_eq!(*tokens[0].token_type(), Type::String("hello world".to_string()));
    assert_eq!(tokens[0].lexeme(), "\"hello world\"");
    assert_eq!(kinds("\"\""), vec![Type::String(String::new()), Type::EOF]);
}

#[test]
fn strings_may_span_lines() {
    let (tokens, reporter) = scan("\"a\nb\nc\" x");
    assert!(!reporter.had_error);
    assert_eq!(*tokens[0].token_type(), Type::String("a\nb\nc".to_string()));
    assert_eq!(tokens[0].line(), 3);
    assert_eq!(tokens[1].line(), 3);
    assert_eq!(tokens[2].line(), 3);
}

#[test]
fn unterminated_string_is_an_error_at_its_first_line() {
    let (tokens, reporter) = scan("1\n\"abc\ndef");
    assert!(reporter.had_error);
    assert_eq!(reporter.reports.len(), 1);
    assert_eq!(reporter.reports[0].render(), "[line 2] Error: Unterminated string.");
    assert_eq!(tokens.len(), 2);
    assert_eq!(*tokens[0].token_type(), Type::Number("1".to_string()));
    assert_eq!(*tokens[1].token_type(), Type::EOF);
    assert_eq!(tokens[1].line(), 3);
}

#[test]
fn comments_run_to_the_end_of_the_line() {
    assert_eq!(kinds("1 // two three\n4"), vec![
        Type::Number("1".to_string()),
        Type::Number("4".to_string()),
        Type::EOF,
    ]);
    assert_eq!(kinds("// only a comment"), vec![Type::EOF]);
    assert_eq!(kinds("/ /"), vec![Type::Slash, Type::Slash, Type::EOF]);
    let (tokens, _) = scan("// c\nx");
    assert_eq!(tokens[0].line(), 2);
}

#[test]
fn blanks_are_passed_over_and_newlines_count() {
    let (tokens, reporter) = scan(" a\t\r\n\n  b \n");
    assert!(!reporter.had_error);
    let lines: Vec<usize> = tokens.iter().map(|t| t.line()).collect();
    assert_eq!(lines, vec![1, 3, 4]);
}

#[test]
fn unexpected_characters_are_reported_and_passed_over() {
    let (tokens, reporter) = scan("a @ b\n#");
    assert!(reporter.had_error);
    let rendered: Vec<String> = reporter.reports.iter().map(|r| r.render()).collect();
    assert_eq!(rendered, vec![
        "[line 1] Error: Unexpected character.",
        "[line 2] Error: Unexpected character.",
    ]);
    assert_eq!(tokens.len(), 3);
}

#[test]
fn literal_tokens_give_their_constants() {
    assert_eq!(Type::String("s".to_string()).to_value(), Literal::String("s".to_string()));
    assert_eq!(Type::Number("1.5".to_string()).to_value(), Literal::Number("1.5".to_string()));
    assert_eq!(Type::True.to_value(), Literal::True);
    assert_eq!(Type::False.to_value(), Literal::False);
    assert_eq!(Type::Nil.to_value(), Literal::Nil);
}

#[test]
fn token_getters() {
    let token = Token::new(Type::Identifier, "name".to_string(), 9);
    assert_eq!(token.lexeme(), "name");
    assert_eq!(*token.token_type(), Type::Identifier);
    assert_eq!(token.line(), 9);
    assert_eq!(token.duplicate(), token);
    assert_eq!(token.name(), "name");
}

#[test]
fn kinds_have_distinct_tags() {
    let all = vec![
        Type::LeftParen,
        Type::RightParen,
        Type::LeftBrace,
        Type::RightBrace,
        Type::Comma,
        Type::Dot,
        Type::Minus,
        Type::Plus,
        Type::Semicolon,
        Type::Slash,
        Type::Star,
        Type::Bang,
        Type::BangEqual,
        Type::Equal,
        Type::EqualEqual,
        Type::Greater,
        Type::GreaterEqual,
        Type::Less,
        Type::LessEqual,
        Type::Identifier,
        Type::String(String::new()),
        Type::Number(String::new()),
        Type::And,
        Type::Class,
        Type::Else,
        Type::False,
        Type::Fun,
        Type::For,
        Type::If,
        Type::Nil,
        Type::Or,
        Type::Print,
        Type::Return,
        Type::Super,
        Type::This,
        Type::True,
        Type::Var,
        Type::While,
        Type::EOF,
    ];
    for (i, kind) in all.iter().enumerate() {
        assert_eq!(kind.tag() as usize, i);
        assert_eq!(kind.duplicate(), *kind);
    }
    assert_eq!(Type::String("a".to_string()).tag(), Type::String("b".to_string()).tag());
}
