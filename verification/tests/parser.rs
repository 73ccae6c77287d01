use lox_rs::error_reporter::ErrorReporter;
use lox_rs::expression::Expression;
use lox_rs::parser::Parser;
use lox_rs::scanner::Scanner;
use lox_rs::statement::Statement;
use lox_rs::token::{Literal, Type};

fn parse(source: &str) -> (Vec<Statement>, ErrorReporter) {
    let mut reporter = ErrorReporter::new();
    let tokens = Scanner::new(source).scan_tokens(&mut reporter);
    let mut parser = Parser::new(tokens);
    let statements = parser.parse(&mut reporter);
    (statements, reporter)
}

fn parse_clean(source: &str) -> Vec<Statement> {
    let (statements, reporter) = parse(source);
    let rendered: Vec<String> = reporter.reports.iter().map(|r| r.render()).collect();
    assert!(rendered.is_empty(), "unexpected reports: {:?}", rendered);
    statements
}

fn errors(source: &str) -> Vec<String> {
    let (_, reporter) = parse(source);
    assert!(reporter.had_error);
    assert!(!reporter.had_runtime_error);
    reporter.reports.iter().map(|r| r.render()).collect()
}

fn show(expression: &Expression) -> String {
    match expression {
        Expression::Binary { left, operator, right } => {
            format!("({} {} {})", operator.lexeme(), show(left), show(right))
        }
        Expression::Logical { left, operator, right } => {
            format!("[{} {} {}]", operator.lexeme(), show(left), show(right))
        }
        Expression::Call { callee, arguments, .. } => {
            let shown: Vec<String> = arguments.iter().map(|a| show(a)).collect();
            format!("(call {} {})", show(callee), shown.join(" "))
        }
        Expression::Grouping { expression } => format!("(group {})", show(expression)),
        Expression::Literal { value } => match value {
            Literal::String(s) => format!("\"{}\"", s),
            Literal::Number(n) => n.clone(),
            Literal::True => "true".to_string(),
            Literal::False => "false".to_string(),
            Literal::Nil => "nil".to_string(),
        },
        Expression::Unary { operator, right } => format!("({} {})", operator.lexeme(), show(right)),
        Expression::Variable { name, depth } => {
            assert!(depth.is_none());
            name.lexeme().to_string()
        }
        Expression::Assignment { name, value, depth } => {
            assert!(depth.is_none());
            format!("(= {} {})", name.lexeme(), show(value))
        }
        Expression::Get { object, name } => format!("(. {} {})", show(object), name.lexeme()),
        Expression::SetProperty { object, name, value } => {
            format!("(.= {} {} {})", show(object), name.lexeme(), show(value))
        }
        Expression::This { depth, .. } => {
            assert!(depth.is_none());
            "this".to_string()
        }
    }
}

fn expression(source: &str) -> String {
    let statements = parse_clean(source);
    assert_eq!(statements.len(), 1);
    match &statements[0] {
        Statement::Expression { expression } => show(expression),
        other => panic!("no expression statement: {:?}", other),
    }
}

#[test]
fn precedence_of_arithmetic() {
    assert_eq!(expression("1 + 2 * 3;"), "(+ 1 (* 2 3))");
    assert_eq!(expression("1 * 2 + 3;"), "(+ (* 1 2) 3)");
    assert_eq!(expression("(1 + 2) * 3;"), "(* (group (+ 1 2)) 3)");
    assert_eq!(expression("-1 - -2;"), "(- (- 1) (- 2))");
    assert_eq!(expression("!!true;"), "(! (! true))");
}

#[test]
fn binary_operators_group_to_the_left() {
    assert_eq!(expression("1 - 2 - 3;"), "(- (- 1 2) 3)");
    assert_eq!(expression("8 / 4 / 2;"), "(/ (/ 8 4) 2)");
    assert_eq!(expression("1 < 2 == 3 > 4;"), "(== (< 1 2) (> 3 4))");
    assert_eq!(expression("1 <= 2 != 3 >= 4;"), "(!= (<= 1 2) (>= 3 4))");
}

#[test]
fn logical_operators_bind_weaker_than_equality() {
    assert_eq!(expression("a or b and c == d;"), "[or a [and b (== c d)]]");
    assert_eq!(expression("a and b or c and d;"), "[or [and a b] [and c d]]");
}

#[test]
fn assignment_groups_to_the_right() {
    assert_eq!(expression("a = b = c;"), "(= a (= b c))");
    assert_eq!(expression("a.b = c;"), "(.= a b c)");
    assert_eq!(expression("a.b.c = d or e;"), "(.= (. a b) c [or d e])");
}

#[test]
fn calls_and_property_reads_chain() {
    assert_eq!(expression("f();"), "(call f )");
    assert_eq!(expression("f(1, 2)(3);"), "(call (call f 1 2) 3)");
    assert_eq!(expression("a.b(c).d;"), "(. (call (. a b) c) d)");
    assert_eq!(expression("this.x;"), "(. this x)");
    assert_eq!(expression("-f(1);"), "(- (call f 1))");
}

#[test]
fn literals() {
    assert_eq!(expression("\"text\";"), "\"text\"");
    assert_eq!(expression("12.5;"), "12.5");
    assert_eq!(expression("nil;"), "nil");
    assert_eq!(expression("false;"), "false");
}

#[test]
fn invalid_assignment_target_keeps_the_expression() {
    let (statements, reporter) = parse("1 + 2 = 3;");
    assert_eq!(
        reporter.reports.iter().map(|r| r.render()).collect::<Vec<_>>(),
        vec!["[line 1] Error at '=': Invalid assignment target."]
    );
    assert_eq!(statements.len(), 1);
    match &statements[0] {
        Statement::Expression { expression } => assert_eq!(show(expression), "(+ 1 2)"),
        other => panic!("no expression statement: {:?}", other),
    }
}

#[test]
fn statements_of_every_kind() {
    let statements = parse_clean(
        "print 1; var a; var b = 2; { a; } if (a) b; if (a) b; else a; while (a) b; \
         fun f(x, y) { return; return x; } class C { m() {} init(a) {} }",
    );
    assert_eq!(statements.len(), 9);
    assert!(matches!(&statements[0], Statement::Print { .. }));
    assert!(matches!(&statements[1], Statement::Var { initializer: None, .. }));
    assert!(matches!(&statements[2], Statement::Var { initializer: Some(_), .. }));
    assert!(matches!(&statements[3], Statement::Block { statements } if statements.len() == 1));
    assert!(matches!(&statements[4], Statement::If { else_branch: None, .. }));
    assert!(matches!(&statements[5], Statement::If { else_branch: Some(_), .. }));
    assert!(matches!(&statements[6], Statement::While { .. }));
    match &statements[7] {
        Statement::Function { name, params, body } => {
            assert_eq!(name.lexeme(), "f");
            let names: Vec<&str> = params.iter().map(|p| p.lexeme()).collect();
            assert_eq!(names, vec!["x", "y"]);
            assert_eq!(body.len(), 2);
            assert!(matches!(&*body[0], Statement::Return { value: None, .. }));
            match &*body[1] {
                Statement::Return { keyword, value: Some(_) } => {
                    assert_eq!(*keyword.token_type(), Type::Return)
                }
                other => panic!("no return: {:?}", other),
            }
        }
        other => panic!("no function: {:?}", other),
    }
    match &statements[8] {
        Statement::Class { name, methods } => {
            assert_eq!(name.lexeme(), "C");
            assert_eq!(methods.len(), 2);
            assert!(methods.iter().all(|m| matches!(&**m, Statement::Function { .. })));
        }
        other => panic!("no class: {:?}", other),
    }
}

#[test]
fn for_loop_is_parsed_into_its_desugaring() {
    let looped = parse_clean("for (var i = 0; i < 3; i = i + 1) print i;");
    let manual = parse_clean("{ var i = 0; while (i < 3) { print i; i = i + 1; } }");
    assert_eq!(format!("{:?}", looped), format!("{:?}", manual));
}

#[test]
fn for_loop_without_initializer_is_a_while() {
    let looped = parse_clean("for (; i < 3; i = i + 1) print i;");
    let manual = parse_clean("while (i < 3) { print i; i = i + 1; }");
    assert_eq!(format!("{:?}", looped), format!("{:?}", manual));
}

#[test]
fn for_loop_without_increment_keeps_its_body() {
    let looped = parse_clean("for (i = 0; i < 3;) print i;");
    let manual = parse_clean("{ i = 0; while (i < 3) print i; }");
    assert_eq!(format!("{:?}", looped), format!("{:?}", manual));
}

#[test]
fn for_loop_without_condition_loops_on_true() {
    let looped = parse_clean("for (;;) print 1;");
    assert_eq!(looped.len(), 1);
    match &looped[0] {
        Statement::While { condition, body } => {
            assert!(matches!(&**condition, Expression::Literal { value: Literal::True }));
            assert!(matches!(&**body, Statement::Print { .. }));
        }
        other => panic!("no while: {:?}", other),
    }
}

#[test]
fn missing_tokens_are_reported() {
    assert_eq!(errors("print 1"), vec!["[line 1] Error at end: Expected ';' after value."]);
    assert_eq!(errors("1 +;"), vec!["[line 1] Error at ';': Expected expression."]);
    assert_eq!(errors("(1;"), vec!["[line 1] Error at ';': Expected ')' after expression."]);
    assert_eq!(errors("a"), vec!["[line 1] Error at end: Expected ';' after expression."]);
    assert_eq!(errors("var 1;"), vec!["[line 1] Error at '1': Expected variable name!"]);
    assert_eq!(errors("var a = 1"), vec![
        "[line 1] Error at end: Expected ';' after variable declaration"
    ]);
    assert_eq!(errors("var a"), vec![
        "[line 1] Error at end: Expected ';' after variable declaration"
    ]);
    assert_eq!(errors("{ a;"), vec!["[line 1] Error at end: Expected '}' after block."]);
    assert_eq!(errors("if a) b;"), vec!["[line 1] Error at 'a': Expected '(' after 'if'."]);
    assert_eq!(errors("if (a b;"), vec!["[line 1] Error at 'b': Expected ')' after if condition."]);
    assert_eq!(errors("while a) b;"), vec!["[line 1] Error at 'a': Expected '(' after 'while'."]);
    assert_eq!(errors("while (a b;"), vec!["[line 1] Error at 'b': Expected ')' after condition."]);
    assert_eq!(errors("for a;"), vec!["[line 1] Error at 'a': Expected '(' after 'for'."]);
    assert_eq!(errors("for (;a b) c;"), vec![
        "[line 1] Error at 'b': Expected ';' after loop condition."
    ]);
    assert_eq!(errors("for (;;a b) c;"), vec!["[line 1] Error at 'b': Expected ')' after clauses."]);
    assert_eq!(errors("fun f() { return 1 }"), vec![
        "[line 1] Error at '}': Expected ';' after return value."
    ]);
    assert_eq!(errors("a.1;"), vec!["[line 1] Error at '1': Expected property name after '.'."]);
    assert_eq!(errors("f(1;"), vec!["[line 1] Error at ';': Expected ')' after arguments."]);
}

#[test]
fn missing_tokens_in_declarations_are_reported() {
    assert_eq!(errors("fun (a) {}"), vec!["[line 1] Error at '(': Expected function name."]);
    assert_eq!(errors("fun f {}"), vec!["[line 1] Error at '{': Expected '(' after function name."]);
    assert_eq!(errors("fun f(1) {}"), vec!["[line 1] Error at '1': Expected parameter name."]);
    assert_eq!(errors("fun f(a {}"), vec!["[line 1] Error at '{': Expected ')' after parameters."]);
    assert_eq!(errors("fun f(a) a;"), vec!["[line 1] Error at 'a': Expected '{' before function body."]);
    assert_eq!(errors("class {}"), vec!["[line 1] Error at '{': Expected class name."]);
    assert_eq!(errors("class C m() {} }"), vec![
        "[line 1] Error at 'm': Expected '{' before class body."
    ]);
    assert_eq!(errors("class C { 1 }"), vec!["[line 1] Error at '1': Expected method name."]);
    assert_eq!(errors("class C { m {} }"), vec![
        "[line 1] Error at '{': Expected '(' after method name."
    ]);
    assert_eq!(errors("class C { m() a }"), vec![
        "[line 1] Error at 'a': Expected '{' before method body."
    ]);
    assert_eq!(errors("class C { m() {}"), vec!["[line 1] Error at end: Expected '}' after class body."]);
}

#[test]
fn super_is_a_keyword_the_grammar_does_not_take() {
    assert_eq!(errors("super.m();"), vec!["[line 1] Error at 'super': Expected expression."]);
}

#[test]
fn parsing_goes_on_after_an_error() {
    let (statements, reporter) = parse("print 1 2; print 3;\nvar = 4;\nprint 5;");
    let rendered: Vec<String> = reporter.reports.iter().map(|r| r.render()).collect();
    assert_eq!(rendered, vec![
        "[line 1] Error at '2': Expected ';' after value.",
        "[line 2] Error at '=': Expected variable name!",
    ]);
    assert_eq!(statements.len(), 2);
    assert!(statements.iter().all(|s| matches!(s, Statement::Print { .. })));
}

#[test]
fn recovery_stops_before_a_keyword_that_starts_a_statement() {
    let (statements, reporter) = parse("1 + + 2 3 print 4;");
    assert_eq!(reporter.reports.len(), 1);
    assert_eq!(statements.len(), 1);
    assert!(matches!(&statements[0], Statement::Print { .. }));
}

#[test]
fn too_many_arguments_are_reported_and_kept() {
    let arguments: Vec<String> = (0..256).map(|i| i.to_string()).collect();
    let source = format!("f({});", arguments.join(", "));
    let (statements, reporter) = parse(&source);
    let rendered: Vec<String> = reporter.reports.iter().map(|r| r.render()).collect();
    assert_eq!(rendered, vec!["[line 1] Error at '255': Can't have more than 255 arguments."]);
    assert!(reporter.had_error);
    match &statements[0] {
        Statement::Expression { expression } => match &**expression {
            Expression::Call { arguments, .. } => assert_eq!(arguments.len(), 256),
            other => panic!("no call: {:?}", other),
        },
        other => panic!("no expression statement: {:?}", other),
    }
    let fewer: Vec<String> = (0..255).map(|i| i.to_string()).collect();
    parse_clean(&format!("f({});", fewer.join(", ")));
}

#[test]
fn too_many_parameters_are_reported_and_kept() {
    let names: Vec<String> = (0..256).map(|i| format!("p{}", i)).collect();
    let source = format!("fun f({}) {{}}", names.join(", "));
    let (statements, reporter) = parse(&source);
    let rendered: Vec<String> = reporter.reports.iter().map(|r| r.render()).collect();
    assert_eq!(rendered, vec!["[line 1] Error at 'p255': Can't have more than 255 parameters."]);
    assert!(reporter.had_error);
    assert!(matches!(&statements[0], Statement::Function { params, .. } if params.len() == 256));
}

#[test]
fn empty_program_has_no_statement() {
    assert!(parse_clean("").is_empty());
    assert!(parse_clean("// nothing\n").is_empty());
}
