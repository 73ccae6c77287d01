use lox_rs::error_reporter::ErrorReporter;
use lox_rs::expression::{ClassType, Expression};
use lox_rs::lox::resolve_program;
use lox_rs::parser::Parser;
use lox_rs::scanner::Scanner;
use lox_rs::statement::{FunctionType, Statement};
use lox_rs::table::Table;

fn resolve(source: &str) -> (Vec<Statement>, ErrorReporter) {
    let mut reporter = ErrorReporter::new();
    let tokens = Scanner::new(source).scan_tokens(&mut reporter);
    let mut parser = Parser::new(tokens);
    let statements = parser.parse(&mut reporter);
    assert!(!reporter.had_error, "the source does not parse");
    let resolved = resolve_program(&statements, &mut reporter);
    (resolved, reporter)
}

fn errors(source: &str) -> Vec<String> {
    let (_, reporter) = resolve(source);
    assert!(!reporter.had_runtime_error);
    reporter.reports.iter().map(|r| r.render()).collect()
}

fn depths_in_expression(expression: &Expression, found: &mut Vec<(String, Option<usize>)>) {
    match expression {
        Expression::Binary { left, right, .. } | Expression::Logical { left, right, .. } => {
            depths_in_expression(left, found);
            depths_in_expression(right, found);
        }
        Expression::Call { callee, arguments, .. } => {
            depths_in_expression(callee, found);
            for argument in arguments.iter() {
                depths_in_expression(argument, found);
            }
        }
        Expression::Grouping { expression } => depths_in_expression(expression, found),
        Expression::Literal { .. } => {}
        Expression::Unary { right, .. } => depths_in_expression(right, found),
        Expression::Variable { name, depth } => found.push((name.lexeme().to_string(), *depth)),
        Expression::Assignment { name, value, depth } => {
            depths_in_expression(value, found);
            found.push((format!("{}=", name.lexeme()), *depth));
        }
        Expression::Get { object, .. } => depths_in_expression(object, found),
        Expression::SetProperty { object, value, .. } => {
            depths_in_expression(object, found);
            depths_in_expression(value, found);
        }
        Expression::This { depth, .. } => found.push(("this".to_string(), *depth)),
    }
}

fn depths_in_statement(statement: &Statement, found: &mut Vec<(String, Option<usize>)>) {
    match statement {
        Statement::Expression { expression } | Statement::Print { expression } => {
            depths_in_expression(expression, found)
        }
        Statement::Function { body, .. } => {
            for inner in body.iter() {
                depths_in_statement(inner, found);
            }
        }
        Statement::Return { value, .. } => {
            if let Some(expression) = value {
                depths_in_expression(expression, found);
            }
        }
        Statement::Var { initializer, .. } => {
            if let Some(expression) = initializer {
                depths_in_expression(expression, found);
            }
        }
        Statement::Block { statements } => {
            for inner in statements.iter() {
                depths_in_statement(inner, found);
            }
        }
        Statement::If { condition, then_branch, else_branch } => {
            depths_in_expression(condition, found);
            depths_in_statement(then_branch, found);
            if let Some(branch) = else_branch {
                depths_in_statement(branch, found);
            }
        }
        Statement::While { condition, body } => {
            depths_in_expression(condition, found);
            depths_in_statement(body, found);
        }
        Statement::Class { methods, .. } => {
            for method in methods.iter() {
                depths_in_statement(method, found);
            }
        }
    }
}

fn depths(source: &str) -> Vec<(String, Option<usize>)> {
    let (statements, reporter) = resolve(source);
    assert!(reporter.reports.is_empty());
    let mut found = Vec::new();
    for statement in &statements {
        depths_in_statement(statement, &mut found);
    }
    found
}

fn entry(name: &str, depth: Option<usize>) -> (String, Option<usize>) {
    (name.to_string(), depth)
}

#[test]
fn globals_have_no_depth() {
    assert_eq!(depths("var a = 1; print a; a = 2;"), vec![entry("a", None), entry("a=", None)]);
}

#[test]
fn locals_have_the_distance_of_their_scope() {
    assert_eq!(
        depths("var g; { var a; { var b; print a; print b; print g; a = b; } }"),
        vec![
            entry("a", Some(1)),
            entry("b", Some(0)),
            entry("g", None),
            entry("b", Some(0)),
            entry("a=", Some(1)),
        ]
    );
}

#[test]
fn parameters_live_in_the_scope_of_the_function() {
    assert_eq!(
        depths("fun f(a) { print a; { print a; } fun g(b) { print a; print b; } }"),
        vec![entry("a", Some(0)), entry("a", Some(1)), entry("a", Some(1)), entry("b", Some(0))]
    );
}

#[test]
fn this_lies_one_scope_outside_the_method() {
    assert_eq!(
        depths("class C { m(a) { print this; print a; { this.x = a; } } }"),
        vec![
            entry("this", Some(1)),
            entry("a", Some(0)),
            entry("this", Some(2)),
            entry("a", Some(1)),
        ]
    );
}

#[test]
fn methods_do_not_share_a_scope() {
    assert_eq!(
        depths("class C { first(a) { print a; } second(a) { print a; print this; } } { var z; print z; }"),
        vec![
            entry("a", Some(0)),
            entry("a", Some(0)),
            entry("this", Some(1)),
            entry("z", Some(0)),
        ]
    );
}

#[test]
fn return_outside_a_function_is_an_error() {
    assert_eq!(errors("return 1;"), vec![
        "[line 1] Error at 'return': Can't return from top-level code."
    ]);
    assert_eq!(errors("{ return; }"), vec![
        "[line 1] Error at 'return': Can't return from top-level code."
    ]);
    assert!(errors("fun f() { return 1; }").is_empty());
}

#[test]
fn return_with_a_value_in_an_initializer_is_an_error() {
    assert_eq!(errors("class C { init() { return 1; } }"), vec![
        "[line 1] Error at 'return': Can't return a value from an initializer."
    ]);
    assert!(errors("class C { init() { return; } }").is_empty());
    assert!(errors("class C { other() { return 1; } }").is_empty());
    assert!(errors("class C { init() { fun inner() { return 1; } } }").is_empty());
}

#[test]
fn this_outside_a_class_is_an_error() {
    assert_eq!(errors("print this;"), vec![
        "[line 1] Error at 'this': Can't use 'this' outside of a class."
    ]);
    assert_eq!(errors("fun f() { return this; }"), vec![
        "[line 1] Error at 'this': Can't use 'this' outside of a class."
    ]);
    assert!(errors("class C { m() { fun inner() { return this; } } }").is_empty());
}

#[test]
fn redeclaring_a_local_is_an_error() {
    assert_eq!(errors("{ var a; var a; }"), vec![
        "[line 1] Error at 'a': A variable with this name already exists in this scope."
    ]);
    assert_eq!(errors("fun f(a, a) {}"), vec![
        "[line 1] Error at 'a': A variable with this name already exists in this scope."
    ]);
    assert_eq!(errors("fun f(a) { var a; }"), vec![
        "[line 1] Error at 'a': A variable with this name already exists in this scope."
    ]);
    assert_eq!(errors("{ fun f() {} class f {} }"), vec![
        "[line 1] Error at 'f': A variable with this name already exists in this scope."
    ]);
    assert!(errors("var a; var a;").is_empty());
    assert!(errors("{ var a; { var a; } }").is_empty());
}

#[test]
fn reading_a_local_in_its_own_initializer_is_an_error() {
    assert_eq!(errors("{ var a = a; }"), vec![
        "[line 1] Error at 'a': Can't read local variable in it's own initializer."
    ]);
    assert!(errors("var a = 1; { var b = a; }").is_empty());
    assert!(errors("var a = a;").is_empty());
}

#[test]
fn all_errors_are_found_in_one_pass() {
    assert_eq!(errors("return;\nprint this;\n{ var a; var a; }"), vec![
        "[line 1] Error at 'return': Can't return from top-level code.",
        "[line 2] Error at 'this': Can't use 'this' outside of a class.",
        "[line 3] Error at 'a': A variable with this name already exists in this scope.",
    ]);
}

#[test]
fn resolving_a_statement_records_its_declaration() {
    let mut reporter = ErrorReporter::new();
    let tokens = Scanner::new("var a = 1;").scan_tokens(&mut reporter);
    let statements = Parser::new(tokens).parse(&mut reporter);
    let mut scopes: Vec<Table<bool>> = vec![Table::new()];
    let resolved = statements[0].resolve(
        &mut scopes,
        &FunctionType::TopLevel,
        &ClassType::TopLevel,
        &mut reporter,
    );
    assert!(matches!(resolved, Statement::Var { .. }));
    assert_eq!(scopes.len(), 1);
    assert_eq!(scopes[0].get(&"a".to_string()), Some(&true));
    assert!(scopes[0].contains_key(&"a".to_string()));
    assert!(!scopes[0].contains_key(&"b".to_string()));
    assert!(reporter.reports.is_empty());
}

#[test]
fn table_replaces_the_value_of_a_name() {
    let mut table: Table<u32> = Table::new();
    assert_eq!(table.get(&"k".to_string()), None);
    table.insert("k".to_string(), 1);
    table.insert("other".to_string(), 5);
    table.insert("k".to_string(), 2);
    assert_eq!(table.get(&"k".to_string()), Some(&2));
    assert_eq!(table.get(&"other".to_string()), Some(&5));
}

#[test]
fn a_local_class_is_declared_and_not_defined() {
    assert_eq!(errors("{ class C {} print C; }"), vec![
        "[line 1] Error at 'C': Can't read local variable in it's own initializer."
    ]);
    assert!(errors("{ class C { m() { return C; } } }").is_empty());
    assert!(errors("class C {} print C;").is_empty());
}

#[test]
fn a_local_function_can_call_itself() {
    assert_eq!(
        depths("{ fun f(n) { return f(n); } f(1); }"),
        vec![entry("f", Some(1)), entry("n", Some(0)), entry("f", Some(0))]
    );
}
