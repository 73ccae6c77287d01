use lox_rs::lox::Lox;
use lox_rs::machine::{Action, Arithmetic, Event};

fn perform(operator: Arithmetic, left: u64, right: u64) -> u64 {
    let l = f64::from_bits(left);
    let r = f64::from_bits(right);
    let result = match operator {
        Arithmetic::Add => l + r,
        Arithmetic::Subtract => l - r,
        Arithmetic::Multiply => l * r,
        Arithmetic::Divide => l / r,
    };
    result.to_bits()
}

fn drive(lox: &mut Lox, output: &mut Vec<String>, clock: Option<f64>) -> usize {
    let mut steps = 0;
    let mut event = Event::Resume;
    loop {
        steps += 1;
        assert!(steps < 10_000_000, "the run does not end");
        event = match lox.step(event) {
            Action::Continue => Event::Resume,
            Action::Print(text) => {
                output.push(text);
                Event::Resume
            }
            Action::PrintNumber(bits) => {
                output.push(format!("{}", f64::from_bits(bits)));
                Event::Resume
            }
            Action::Compute { operator, left, right } => {
                Event::Number(perform(operator, left, right))
            }
            Action::ParseNumber(digits) => Event::Number(digits.parse::<f64>().unwrap().to_bits()),
            Action::Clock => match clock {
                Some(seconds) => Event::Number(seconds.to_bits()),
                None => Event::Failed,
            },
            Action::Finished => break,
        };
    }
    steps
}

fn run(source: &str) -> (Vec<String>, Lox) {
    let mut lox = Lox::new();
    let mut output = Vec::new();
    if lox.run(source) {
        drive(&mut lox, &mut output, Some(12.5));
    }
    (output, lox)
}

fn lines(source: &str) -> Vec<String> {
    let (output, lox) = run(source);
    let rendered: Vec<String> = lox.reporter.reports.iter().map(|r| r.render()).collect();
    assert!(rendered.is_empty(), "unexpected reports: {:?}", rendered);
    output
}

fn reports(source: &str) -> Vec<String> {
    let (_, lox) = run(source);
    lox.reporter.reports.iter().map(|r| r.render()).collect()
}

#[test]
fn prints_a_sum() {
    assert_eq!(lines("print 1 + 2;"), vec!["3"]);
}

#[test]
fn joins_strings() {
    assert_eq!(lines("var a = \"hi\"; print a + \" there\";"), vec!["hi there"]);
}

#[test]
fn computes_fibonacci_recursively() {
    let source = "fun fib(n){ if (n<2) return n; return fib(n-1)+fib(n-2);} print fib(10);";
    assert_eq!(lines(source), vec!["55"]);
}

#[test]
fn initializer_sets_a_field() {
    let source =
        "class C { init(x){ this.x = x; } get(){ return this.x; } } var c = C(5); print c.get();";
    assert_eq!(lines(source), vec!["5"]);
}

#[test]
fn block_shadows_a_variable() {
    assert_eq!(lines("var x = 1; { var x = 2; print x; } print x;"), vec!["2", "1"]);
}

#[test]
fn closure_keeps_its_counter() {
    let source = "fun make(){ var i = 0; fun inc(){ i = i + 1; return i; } return inc; } \
                  var c = make(); print c(); print c(); print c();";
    assert_eq!(lines(source), vec!["1", "2", "3"]);
}

#[test]
fn undefined_variable_is_a_runtime_error() {
    let (output, lox) = run("print a;");
    assert!(output.is_empty());
    assert!(lox.reporter.had_runtime_error);
    assert!(!lox.reporter.had_error);
    assert_eq!(lox.exit_code(), 70);
    let rendered: Vec<String> = lox.reporter.reports.iter().map(|r| r.render()).collect();
    assert_eq!(rendered, vec!["[line 1] Error at 'a': Undefined variable 'a'."]);
}

#[test]
fn return_at_top_level_stops_before_the_run() {
    let mut lox = Lox::new();
    let started = lox.run("print 1; return 1;");
    assert!(!started);
    assert!(lox.reporter.had_error);
    assert_eq!(lox.exit_code(), 65);
    let rendered: Vec<String> = lox.reporter.reports.iter().map(|r| r.render()).collect();
    assert_eq!(rendered, vec!["[line 1] Error at 'return': Can't return from top-level code."]);
    assert!(matches!(lox.step(Event::Resume), Action::Finished));
}

#[test]
fn string_plus_number_is_an_error() {
    assert_eq!(
        reports("\"a\" + 1;"),
        vec!["[line 1] Error at '+': Operands must be either two numbers or two strings."]
    );
}

#[test]
fn clean_run_exits_with_zero() {
    let (_, lox) = run("print nil;");
    assert_eq!(lox.exit_code(), 0);
}

#[test]
fn compile_error_takes_precedence_in_the_exit_code() {
    assert_eq!(lox_rs::util::exit_code(true, true), 65);
    assert_eq!(lox_rs::util::exit_code(false, true), 70);
    assert_eq!(lox_rs::util::exit_code(true, false), 65);
    assert_eq!(lox_rs::util::exit_code(false, false), 0);
}

#[test]
fn runtime_error_stops_the_run() {
    let (output, lox) = run("print 1; print -\"a\"; print 2;");
    assert_eq!(output, vec!["1"]);
    assert!(lox.reporter.had_runtime_error);
    assert_eq!(lox.reporter.reports.len(), 1);
    assert_eq!(
        lox.reporter.reports[0].render(),
        "[line 1] Error at '-': Operand must be a number."
    );
}

#[test]
fn prints_values_of_every_kind() {
    assert_eq!(lines("print true; print false; print nil; print \"s\";"), vec![
        "true", "false", "nil", "s"
    ]);
    assert_eq!(lines("print 2.5; print 10; print 0.1 + 0.2;"), vec![
        "2.5",
        "10",
        "0.30000000000000004"
    ]);
    assert_eq!(lines("class Point {} print Point(); print Point;"), vec![
        "Point instance",
        "Point"
    ]);
    assert_eq!(lines("fun f() {} print f; print clock;"), vec!["<fn f>", "<native fn>"]);
}

#[test]
fn arithmetic_follows_the_doubles() {
    assert_eq!(lines("print 7 - 2 * 3;"), vec!["1"]);
    assert_eq!(lines("print (7 - 2) * 3;"), vec!["15"]);
    assert_eq!(lines("print 1 / 4;"), vec!["0.25"]);
    assert_eq!(lines("print 1 / 0;"), vec!["inf"]);
    assert_eq!(lines("print -1 / 0;"), vec!["-inf"]);
    assert_eq!(lines("print 0 / 0;"), vec!["NaN"]);
    assert_eq!(lines("print -(3);"), vec!["-3"]);
    assert_eq!(lines("print 1 - 2 - 3;"), vec!["-4"]);
}

#[test]
fn compares_numbers() {
    assert_eq!(lines("print 1 < 2; print 2 < 1; print 2 <= 2; print 3 > 2; print 2 >= 3;"), vec![
        "true", "false", "true", "true", "false"
    ]);
    assert_eq!(
        reports("1 < \"a\";"),
        vec!["[line 1] Error at '<': Operand must be a number."]
    );
    assert_eq!(
        reports("nil * 2;"),
        vec!["[line 1] Error at '*': Operand must be a number."]
    );
}

#[test]
fn equality_needs_the_same_kind() {
    assert_eq!(
        lines("print 1 == 1; print 1 == \"1\"; print \"a\" == \"a\"; print nil == nil; print nil == false; print true != false;"),
        vec!["true", "false", "true", "true", "false", "true"]
    );
    assert_eq!(lines("var nan = 0 / 0; print nan == nan; print nan != nan;"), vec![
        "false", "true"
    ]);
    assert_eq!(lines("print 0 == -0;"), vec!["true"]);
}

#[test]
fn a_value_equals_itself() {
    let source = "fun f() {} class C {} var c = C(); var s = \"x\"; var n = 3; \
                  print f == f; print C == C; print c == c; print s == s; print n == n; \
                  print true == true; print nil == nil;";
    assert_eq!(lines(source), vec!["true"; 7]);
}

#[test]
fn instances_are_equal_by_identity() {
    assert_eq!(lines("class C {} var a = C(); var b = C(); print a == b; print a == a;"), vec![
        "false", "true"
    ]);
}

#[test]
fn double_negation_keeps_the_truth() {
    let source = "print !!nil; print !!false; print !!true; print !!0; print !!\"\"; print !!clock;";
    assert_eq!(lines(source), vec!["false", "false", "true", "true", "true", "true"]);
}

#[test]
fn logical_operators_short_circuit() {
    assert_eq!(lines("print nil or \"b\"; print 1 or 2; print nil and 1; print 1 and 2;"), vec![
        "b", "1", "nil", "2"
    ]);
    assert_eq!(
        lines("var a = 0; fun touch() { a = a + 1; return true; } false and touch(); true or touch(); print a;"),
        vec!["0"]
    );
}

#[test]
fn if_and_while_use_truthiness() {
    assert_eq!(lines("if (0) print \"yes\"; else print \"no\";"), vec!["yes"]);
    assert_eq!(lines("if (nil) print \"yes\"; else print \"no\";"), vec!["no"]);
    assert_eq!(lines("if (false) print \"yes\";"), Vec::<String>::new());
    assert_eq!(lines("var i = 0; while (i < 3) { print i; i = i + 1; }"), vec!["0", "1", "2"]);
}

#[test]
fn for_loop_runs_like_its_desugaring() {
    let looped = lines("for (var i = 0; i < 3; i = i + 1) print i;");
    let manual = lines("{ var i = 0; while (i < 3) { print i; i = i + 1; } }");
    assert_eq!(looped, vec!["0", "1", "2"]);
    assert_eq!(looped, manual);
}

#[test]
fn for_loop_body_can_return() {
    let source = "fun first() { for (var i = 5; ; i = i + 1) { return i; } } print first();";
    assert_eq!(lines(source), vec!["5"]);
    let manual = "fun first() { { var i = 5; while (true) { { return i; } i = i + 1; } } } print first();";
    assert_eq!(lines(manual), vec!["5"]);
}

#[test]
fn for_loop_without_clauses() {
    let source = "var i = 0; fun f() { for (;;) { i = i + 1; if (i >= 3) return i; } } print f();";
    assert_eq!(lines(source), vec!["3"]);
}

#[test]
fn assignment_gives_its_value() {
    assert_eq!(lines("var a; var b; a = b = 3; print a; print b; print a = 4;"), vec![
        "3", "3", "4"
    ]);
}

#[test]
fn assigning_an_undefined_variable_is_an_error() {
    assert_eq!(reports("a = 1;"), vec!["[line 1] Error at 'a': Undefined variable 'a'."]);
}

#[test]
fn variable_without_initializer_is_nil() {
    assert_eq!(lines("var a; print a;"), vec!["nil"]);
}

#[test]
fn globals_are_bound_late() {
    assert_eq!(lines("fun show() { print later; } var later = 7; show();"), vec!["7"]);
}

#[test]
fn closure_sees_the_scope_of_its_declaration() {
    let source = "var a = \"global\"; { fun show() { print a; } show(); var a = \"block\"; show(); }";
    assert_eq!(lines(source), vec!["global", "global"]);
}

#[test]
fn function_body_runs_in_a_child_of_the_closure() {
    let source = "var x = \"outer\"; fun show() { print x; } fun caller() { var x = \"caller\"; show(); } caller();";
    assert_eq!(lines(source), vec!["outer"]);
}

#[test]
fn function_without_return_gives_nil() {
    assert_eq!(lines("fun f() {} print f();"), vec!["nil"]);
}

#[test]
fn calling_with_wrong_arity_is_an_error() {
    assert_eq!(
        reports("fun f(a, b) {} f(1);"),
        vec!["[line 1] Error at ')': Expected 2 arguments but got 1."]
    );
    assert_eq!(
        reports("class C {} C(1, 2, 3);"),
        vec!["[line 1] Error at ')': Expected 0 arguments but got 3."]
    );
    assert_eq!(
        reports("class C { init(a) {} } C();"),
        vec!["[line 1] Error at ')': Expected 1 arguments but got 0."]
    );
}

#[test]
fn calling_a_value_that_is_no_callable_is_an_error() {
    assert_eq!(
        reports("\"text\"();"),
        vec!["[line 1] Error at ')': Can only call functions and classes."]
    );
}

#[test]
fn arguments_are_evaluated_left_to_right() {
    let source = "fun show(x) { print x; return x; } fun add(a, b, c) { return a + b + c; } print add(show(1), show(2), show(3));";
    assert_eq!(lines(source), vec!["1", "2", "3", "6"]);
}

#[test]
fn fields_and_methods() {
    let source = "class Bag {} var b = Bag(); b.item = 3; print b.item; b.item = b.item + 1; print b.item;";
    assert_eq!(lines(source), vec!["3", "4"]);
    assert_eq!(
        reports("class Bag {} Bag().missing;"),
        vec!["[line 1] Error at 'missing': Undefined property missing."]
    );
    assert_eq!(
        reports("var n = 1; n.field;"),
        vec!["[line 1] Error at 'field': Only instances have properties."]
    );
    assert_eq!(
        reports("var n = 1; n.field = 2;"),
        vec!["[line 1] Error at 'field': Only instances have properties."]
    );
}

#[test]
fn a_field_hides_a_method() {
    let source = "class C { m() { return \"method\"; } } var c = C(); print c.m(); c.m = \"field\"; print c.m;";
    assert_eq!(lines(source), vec!["method", "field"]);
}

#[test]
fn bound_methods_are_distinct_callables() {
    let source = "class C { m() { return this; } } var c = C(); var a = c.m; var b = c.m; \
                  print a == b; print a == a; print a() == b(); print a() == c;";
    assert_eq!(lines(source), vec!["false", "true", "true", "true"]);
}

#[test]
fn bound_method_remembers_its_instance() {
    let source = "class C { init(n) { this.n = n; } get() { return this.n; } } \
                  var one = C(1).get; var two = C(2).get; print one(); print two();";
    assert_eq!(lines(source), vec!["1", "2"]);
}

#[test]
fn initializer_returns_the_instance() {
    let source = "class C { init() { this.x = 1; return; } } var c = C(); print c.x; print c.init().x;";
    assert_eq!(lines(source), vec!["1", "1"]);
}

#[test]
fn methods_can_refer_to_their_class() {
    let source = "class C { make() { return C(); } } print C().make();";
    assert_eq!(lines(source), vec!["C instance"]);
}

#[test]
fn error_inside_an_initializer_ends_the_run() {
    let (output, lox) = run("class C { init() { print missing; } } var c = C(); print \"after\";");
    assert!(output.is_empty());
    assert!(lox.reporter.had_runtime_error);
}

#[test]
fn clock_gives_the_time_of_the_host() {
    assert_eq!(lines("print clock();"), vec!["12.5"]);
    assert_eq!(
        reports("clock(1);"),
        vec!["[line 1] Error at ')': Expected 0 arguments but got 1."]
    );
}

#[test]
fn clock_failure_is_a_native_runtime_error() {
    let mut lox = Lox::new();
    let mut output = Vec::new();
    assert!(lox.run("print clock(); print 1;"));
    drive(&mut lox, &mut output, None);
    assert!(output.is_empty());
    assert!(lox.reporter.had_runtime_error);
    assert_eq!(
        lox.reporter.reports[0].render(),
        "Runtime Error: Unable to determine offset from UNIX epoch: Time is going backwards!"
    );
}

#[test]
fn print_asks_for_exactly_one_line() {
    let mut lox = Lox::new();
    assert!(lox.run("print \"a\"; print 2;"));
    let mut prints = 0;
    let mut event = Event::Resume;
    loop {
        event = match lox.step(event) {
            Action::Print(text) => {
                assert_eq!(text, "a");
                prints += 1;
                Event::Resume
            }
            Action::PrintNumber(bits) => {
                assert_eq!(f64::from_bits(bits), 2.0);
                prints += 1;
                Event::Resume
            }
            Action::ParseNumber(digits) => Event::Number(digits.parse::<f64>().unwrap().to_bits()),
            Action::Finished => break,
            _ => Event::Resume,
        };
    }
    assert_eq!(prints, 2);
}

#[test]
fn a_request_is_repeated_until_it_is_answered() {
    let mut lox = Lox::new();
    assert!(lox.run("print 1.5;"));
    let mut asked = 0;
    let mut event = Event::Resume;
    let mut output = Vec::new();
    loop {
        event = match lox.step(event) {
            Action::ParseNumber(digits) => {
                assert_eq!(digits, "1.5");
                asked += 1;
                if asked < 3 { Event::Resume } else { Event::Number(1.5f64.to_bits()) }
            }
            Action::PrintNumber(bits) => {
                output.push(f64::from_bits(bits));
                Event::Resume
            }
            Action::Finished => break,
            _ => Event::Resume,
        };
    }
    assert_eq!(asked, 3);
    assert_eq!(output, vec![1.5]);
}

#[test]
fn a_session_keeps_its_globals() {
    let mut lox = Lox::new();
    let mut output = Vec::new();
    assert!(lox.run("var a = 1;"));
    drive(&mut lox, &mut output, None);
    lox.end_line();
    assert!(lox.run("fun next() { a = a + 1; return a; }"));
    drive(&mut lox, &mut output, None);
    lox.end_line();
    assert!(lox.run("print next(); print next();"));
    drive(&mut lox, &mut output, None);
    assert_eq!(output, vec!["2", "3"]);
}

#[test]
fn a_session_goes_on_after_errors() {
    let mut lox = Lox::new();
    let mut output = Vec::new();
    assert!(!lox.run("print ;"));
    assert!(lox.reporter.had_error);
    lox.end_line();
    assert!(!lox.reporter.had_error);
    assert!(lox.run("print missing;"));
    drive(&mut lox, &mut output, None);
    assert!(lox.reporter.had_runtime_error);
    lox.end_line();
    assert!(lox.reporter.had_runtime_error);
    assert!(lox.reporter.reports.is_empty());
    assert!(lox.run("print \"still here\";"));
    drive(&mut lox, &mut output, None);
    assert_eq!(output, vec!["still here"]);
}

#[test]
fn deep_recursion_needs_no_native_stack() {
    let source = "fun count(n) { if (n == 0) return 0; return 1 + count(n - 1); } print count(20000);";
    assert_eq!(lines(source), vec!["20000"]);
}

#[test]
fn return_leaves_nested_blocks_and_loops() {
    let source = "fun find() { var i = 0; while (true) { { { if (i == 3) return i; } } i = i + 1; } } print find(); print \"done\";";
    assert_eq!(lines(source), vec!["3", "done"]);
}

#[test]
fn property_set_evaluates_the_object_first() {
    let source = "class C {} fun object() { print \"object\"; return C(); } fun value() { print \"value\"; return 1; } object().field = value();";
    assert_eq!(lines(source), vec!["object", "value"]);
}

#[test]
fn local_recursion_and_nested_closures() {
    let source = "{ fun down(n) { if (n > 0) { print n; down(n - 1); } } down(3); }";
    assert_eq!(lines(source), vec!["3", "2", "1"]);
    let source = "class C { init() { this.n = 1; } later() { fun inner() { return this.n; } return inner; } } print C().later()();";
    assert_eq!(lines(source), vec!["1"]);
}

#[test]
fn parameters_shadow_outer_variables() {
    let source = "var a = 1; fun f(a) { a = a + 1; return a; } print f(10); print a;";
    assert_eq!(lines(source), vec!["11", "1"]);
}
