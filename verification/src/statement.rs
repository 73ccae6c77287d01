//! Statements: the syntax tree, its view, and the resolver's pass over it.

use std::rc::Rc;
use vstd::prelude::*;
use vstd::pervasive::unreached;
use vstd::string::StringExecFns;
use crate::error_reporter::{
    lemma_with_concat,
    lemma_with_none,
    lemma_with_one,
    token_report,
    ErrorReporter,
    ReportView,
};
use crate::expression::{
    expression_scoped,
    expression_view,
    expression_well_formed,
    lemma_resolve_expression_scoped,
    resolve_expression,
    scopes_view,
    ClassType,
    Expression,
    ExpressionView,
    Scopes,
};
use crate::table::Table;
use crate::text::{same_text, share};
use crate::token::{tokens_view, Token, TokenView};

verus! {

/// The kind of function whose body is being resolved.
#[derive(Debug, Clone, Copy, PartialEq, Eq, Structural)]
pub enum FunctionType {
    TopLevel,
    Function,
    Method,
    Initializer,
}

/// A statement. The methods of a class are function declarations.
#[derive(Debug)]
#[allow(inconsistent_fields)]
pub enum Statement {
    Expression { expression: Rc<Expression> },
    Function { name: Token, params: Rc<Vec<Token>>, body: Rc<Vec<Rc<Statement>>> },
    Print { expression: Rc<Expression> },
    Return { keyword: Token, value: Option<Rc<Expression>> },
    Var { name: Token, initializer: Option<Rc<Expression>> },
    Block { statements: Rc<Vec<Rc<Statement>>> },
    If { condition: Rc<Expression>, then_branch: Rc<Statement>, else_branch: Option<Rc<Statement>> },
    While { condition: Rc<Expression>, body: Rc<Statement> },
    Class { name: Token, methods: Rc<Vec<Rc<Statement>>> },
}

/// The mathematical view of a statement.
#[allow(inconsistent_fields)]
pub enum StatementView {
    Expression { expression: ExpressionView },
    Function { name: TokenView, params: Seq<TokenView>, body: Seq<StatementView> },
    Print { expression: ExpressionView },
    Return { keyword: TokenView, value: Option<ExpressionView> },
    Var { name: TokenView, initializer: Option<ExpressionView> },
    Block { statements: Seq<StatementView> },
    If {
        condition: ExpressionView,
        then_branch: Box<StatementView>,
        else_branch: Option<Box<StatementView>>,
    },
    While { condition: ExpressionView, body: Box<StatementView> },
    Class { name: TokenView, methods: Seq<StatementView> },
}

/// The view of a statement.
pub open spec fn statement_view(s: Statement) -> StatementView
    decreases s,
{
    match s {
        Statement::Expression { expression } => StatementView::Expression {
            expression: expression_view(*expression),
        },
        Statement::Function { name, params, body } => StatementView::Function {
            name: name@,
            params: tokens_view(params@),
            body: Seq::new(
                body@.len(),
                |i: int|
                    if 0 <= i < body@.len() {
                        statement_view(*body@[i])
                    } else {
                        StatementView::Block { statements: Seq::empty() }
                    },
            ),
        },
        Statement::Print { expression } => StatementView::Print {
            expression: expression_view(*expression),
        },
        Statement::Return { keyword, value } => StatementView::Return {
            keyword: keyword@,
            value: match value {
                Some(e) => Some(expression_view(*e)),
                None => None,
            },
        },
        Statement::Var { name, initializer } => StatementView::Var {
            name: name@,
            initializer: match initializer {
                Some(e) => Some(expression_view(*e)),
                None => None,
            },
        },
        Statement::Block { statements } => StatementView::Block {
            statements: Seq::new(
                statements@.len(),
                |i: int|
                    if 0 <= i < statements@.len() {
                        statement_view(*statements@[i])
                    } else {
                        StatementView::Block { statements: Seq::empty() }
                    },
            ),
        },
        Statement::If { condition, then_branch, else_branch } => StatementView::If {
            condition: expression_view(*condition),
            then_branch: Box::new(statement_view(*then_branch)),
            else_branch: match else_branch {
                Some(b) => Some(Box::new(statement_view(*b))),
                None => None,
            },
        },
        Statement::While { condition, body } => StatementView::While {
            condition: expression_view(*condition),
            body: Box::new(statement_view(*body)),
        },
        Statement::Class { name, methods } => StatementView::Class {
            name: name@,
            methods: Seq::new(
                methods@.len(),
                |i: int|
                    if 0 <= i < methods@.len() {
                        statement_view(*methods@[i])
                    } else {
                        StatementView::Block { statements: Seq::empty() }
                    },
            ),
        },
    }
}

impl View for Statement {
    type V = StatementView;

    open spec fn view(&self) -> StatementView {
        statement_view(*self)
    }
}

/// The views of a list of shared statements.
pub open spec fn statement_views(list: Seq<Rc<Statement>>) -> Seq<StatementView> {
    Seq::new(list.len(), |i: int| statement_view(*list[i]))
}

/// The views of a list of statements.
pub open spec fn program_view(list: Seq<Statement>) -> Seq<StatementView> {
    Seq::new(list.len(), |i: int| statement_view(list[i]))
}

/// Whether a statement is built as the grammar builds it: the operators of
/// its expressions are operators of their position, and the methods of a
/// class are function declarations.
pub open spec fn statement_well_formed(s: StatementView) -> bool
    decreases s,
{
    match s {
        StatementView::Expression { expression } => expression_well_formed(expression),
        StatementView::Function { name, params, body } => forall|i: int|
            0 <= i < body.len() ==> statement_well_formed(#[trigger] body[i]),
        StatementView::Print { expression } => expression_well_formed(expression),
        StatementView::Return { keyword, value } => value matches Some(e)
            ==> expression_well_formed(e),
        StatementView::Var { name, initializer } => initializer matches Some(e)
            ==> expression_well_formed(e),
        StatementView::Block { statements } => forall|i: int|
            0 <= i < statements.len() ==> statement_well_formed(#[trigger] statements[i]),
        StatementView::If { condition, then_branch, else_branch } => {
            &&& expression_well_formed(condition)
            &&& statement_well_formed(*then_branch)
            &&& else_branch matches Some(b) ==> statement_well_formed(*b)
        },
        StatementView::While { condition, body } => expression_well_formed(condition)
            && statement_well_formed(*body),
        StatementView::Class { name, methods } => forall|i: int|
            0 <= i < methods.len() ==> (#[trigger] methods[i]) is Function
                && statement_well_formed(methods[i]),
    }
}

/// Whether every statement of a list is well formed.
pub open spec fn statements_well_formed(list: Seq<StatementView>) -> bool {
    forall|i: int| 0 <= i < list.len() ==> statement_well_formed(#[trigger] list[i])
}

/// Whether every depth in a statement is below the number of scopes around
/// the reference that carries it, when `n` scopes surround the statement: a
/// block and a function body add one scope, a method body two.
pub open spec fn statement_scoped(s: StatementView, n: nat) -> bool
    decreases s,
{
    match s {
        StatementView::Expression { expression } => expression_scoped(expression, n),
        StatementView::Function { name, params, body } => forall|i: int|
            0 <= i < body.len() ==> statement_scoped(#[trigger] body[i], n + 1),
        StatementView::Print { expression } => expression_scoped(expression, n),
        StatementView::Return { keyword, value } => value matches Some(e) ==> expression_scoped(
            e,
            n,
        ),
        StatementView::Var { name, initializer } => initializer matches Some(e)
            ==> expression_scoped(e, n),
        StatementView::Block { statements } => forall|i: int|
            0 <= i < statements.len() ==> statement_scoped(#[trigger] statements[i], n + 1),
        StatementView::If { condition, then_branch, else_branch } => {
            &&& expression_scoped(condition, n)
            &&& statement_scoped(*then_branch, n)
            &&& else_branch matches Some(b) ==> statement_scoped(*b, n)
        },
        StatementView::While { condition, body } => expression_scoped(condition, n)
            && statement_scoped(*body, n),
        StatementView::Class { name, methods } => forall|i: int|
            0 <= i < methods.len() && (#[trigger] methods[i]) is Function ==> statement_scoped(
                methods[i],
                n + 1,
            ),
    }
}

/// Whether every statement of a list is scoped under `n` scopes.
pub open spec fn statements_scoped(list: Seq<StatementView>, n: nat) -> bool {
    forall|i: int| 0 <= i < list.len() ==> statement_scoped(#[trigger] list[i], n)
}

/// What resolving statements gives: the statements with their depths, the
/// scopes as the statements leave them, and the errors found, in order.
pub struct Pass<T> {
    pub node: T,
    pub scopes: Scopes,
    pub reports: Seq<ReportView>,
}

/// The scopes after the innermost one has been given an entry.
pub open spec fn with_entry(scopes: Scopes, name: Seq<char>, defined: bool) -> Scopes {
    if scopes.len() == 0 {
        scopes
    } else {
        scopes.update(scopes.len() - 1, scopes.last().insert(name, defined))
    }
}

/// The error of declaring a name that the innermost scope already holds.
pub open spec fn redeclared(scopes: Scopes, name: TokenView) -> Seq<ReportView> {
    if scopes.len() > 0 && scopes.last().dom().contains(name.lexeme) {
        seq![token_report(name, "A variable with this name already exists in this scope."@)]
    } else {
        Seq::empty()
    }
}

/// Declaring the parameters of a function, first to last, in the innermost
/// scope: each is defined at once, and one that is there already is an error.
pub open spec fn declare_parameters(params: Seq<TokenView>, scopes: Scopes) -> Pass<()>
    decreases params.len(),
{
    if params.len() == 0 {
        Pass { node: (), scopes, reports: Seq::empty() }
    } else {
        let front = declare_parameters(params.drop_last(), scopes);
        Pass {
            node: (),
            scopes: with_entry(front.scopes, params.last().lexeme, true),
            reports: front.reports + redeclared(front.scopes, params.last()),
        }
    }
}

/// The kind of function that a method is: an initializer when it is named
/// `init`.
pub open spec fn method_type(name: TokenView) -> FunctionType {
    if name.lexeme == "init"@ {
        FunctionType::Initializer
    } else {
        FunctionType::Method
    }
}

/// Resolving a statement under a stack of scopes.
///
/// A block is resolved in a new scope. A variable is declared in the
/// innermost scope before its initializer is resolved and defined after; at
/// the top level, with no scope, nothing is recorded. A function's name is
/// declared and defined, then its parameters and body are resolved in a new
/// scope. A class's name is declared, then each method is resolved, in a
/// scope of its own, inside a scope that holds `this`. A `return` outside of
/// a function is an error, and so is a `return` with a value in an
/// initializer.
pub open spec fn resolve_statement(
    s: StatementView,
    scopes: Scopes,
    function_type: FunctionType,
    class_type: ClassType,
) -> Pass<StatementView>
    decreases s, 0nat,
{
    match s {
        StatementView::Block { statements } => {
            let inner = resolve_statements(
                statements,
                scopes.push(Map::empty()),
                function_type,
                class_type,
            );
            Pass {
                node: StatementView::Block { statements: inner.node },
                scopes,
                reports: inner.reports,
            }
        },
        StatementView::Var { name, initializer } => {
            let declared = with_entry(scopes, name.lexeme, false);
            let first = redeclared(scopes, name);
            match initializer {
                Some(e) => {
                    let init = resolve_expression(e, declared, class_type);
                    Pass {
                        node: StatementView::Var { name, initializer: Some(init.node) },
                        scopes: with_entry(declared, name.lexeme, true),
                        reports: first + init.reports,
                    }
                },
                None => Pass {
                    node: s,
                    scopes: with_entry(declared, name.lexeme, true),
                    reports: first,
                },
            }
        },
        StatementView::Function { name, params, body } => {
            let declared = with_entry(scopes, name.lexeme, true);
            let inner = resolve_function(params, body, declared, FunctionType::Function, class_type);
            Pass {
                node: StatementView::Function { name, params, body: inner.node },
                scopes: declared,
                reports: redeclared(scopes, name) + inner.reports,
            }
        },
        StatementView::Expression { expression } => {
            let e = resolve_expression(expression, scopes, class_type);
            Pass {
                node: StatementView::Expression { expression: e.node },
                scopes,
                reports: e.reports,
            }
        },
        StatementView::If { condition, then_branch, else_branch } => {
            let c = resolve_expression(condition, scopes, class_type);
            let t = resolve_statement(*then_branch, scopes, function_type, class_type);
            match else_branch {
                Some(b) => {
                    let e = resolve_statement(*b, t.scopes, function_type, class_type);
                    Pass {
                        node: StatementView::If {
                            condition: c.node,
                            then_branch: Box::new(t.node),
                            else_branch: Some(Box::new(e.node)),
                        },
                        scopes: e.scopes,
                        reports: c.reports + t.reports + e.reports,
                    }
                },
                None => Pass {
                    node: StatementView::If {
                        condition: c.node,
                        then_branch: Box::new(t.node),
                        else_branch: None,
                    },
                    scopes: t.scopes,
                    reports: c.reports + t.reports,
                },
            }
        },
        StatementView::Print { expression } => {
            let e = resolve_expression(expression, scopes, class_type);
            Pass { node: StatementView::Print { expression: e.node }, scopes, reports: e.reports }
        },
        StatementView::Return { keyword, value } => {
            let first: Seq<ReportView> = if function_type == FunctionType::TopLevel {
                seq![token_report(keyword, "Can't return from top-level code."@)]
            } else {
                Seq::empty()
            };
            let second: Seq<ReportView> = if function_type == FunctionType::Initializer
                && value is Some {
                seq![token_report(keyword, "Can't return a value from an initializer."@)]
            } else {
                Seq::empty()
            };
            match value {
                Some(e) => {
                    let v = resolve_expression(e, scopes, class_type);
                    Pass {
                        node: StatementView::Return { keyword, value: Some(v.node) },
                        scopes,
                        reports: first + second + v.reports,
                    }
                },
                None => Pass { node: s, scopes, reports: first + second },
            }
        },
        StatementView::While { condition, body } => {
            let c = resolve_expression(condition, scopes, class_type);
            let b = resolve_statement(*body, scopes, function_type, class_type);
            Pass {
                node: StatementView::While { condition: c.node, body: Box::new(b.node) },
                scopes: b.scopes,
                reports: c.reports + b.reports,
            }
        },
        StatementView::Class { name, methods } => {
            let declared = with_entry(scopes, name.lexeme, false);
            let inner = resolve_methods(methods, declared.push(map!["this"@ => true]));
            Pass {
                node: StatementView::Class { name, methods: inner.node },
                scopes: declared,
                reports: redeclared(scopes, name) + inner.reports,
            }
        },
    }
}

/// Resolving a function's parameters and body in a new scope.
pub open spec fn resolve_function(
    params: Seq<TokenView>,
    body: Seq<StatementView>,
    scopes: Scopes,
    function_type: FunctionType,
    class_type: ClassType,
) -> Pass<Seq<StatementView>>
    decreases body, 2nat,
{
    let declared = declare_parameters(params, scopes.push(Map::empty()));
    let inner = resolve_statements(body, declared.scopes, function_type, class_type);
    Pass { node: inner.node, scopes, reports: declared.reports + inner.reports }
}

/// Resolving a list of statements, first to last: each is resolved under the
/// scopes that the statements before it have left.
pub open spec fn resolve_statements(
    list: Seq<StatementView>,
    scopes: Scopes,
    function_type: FunctionType,
    class_type: ClassType,
) -> Pass<Seq<StatementView>>
    decreases list, 1nat,
{
    if list.len() == 0 {
        Pass { node: Seq::empty(), scopes, reports: Seq::empty() }
    } else {
        let front = resolve_statements(list.drop_last(), scopes, function_type, class_type);
        let last = resolve_statement(list.last(), front.scopes, function_type, class_type);
        Pass {
            node: front.node.push(last.node),
            scopes: last.scopes,
            reports: front.reports + last.reports,
        }
    }
}

/// Resolving the methods of a class, first to last, under the scope that
/// holds `this`.
pub open spec fn resolve_methods(list: Seq<StatementView>, scopes: Scopes) -> Pass<
    Seq<StatementView>,
>
    decreases list, 3nat,
{
    if list.len() == 0 {
        Pass { node: Seq::empty(), scopes, reports: Seq::empty() }
    } else {
        let front = resolve_methods(list.drop_last(), scopes);
        match list.last() {
            StatementView::Function { name, params, body } => {
                let inner = resolve_function(
                    params,
                    body,
                    scopes,
                    method_type(name),
                    ClassType::Class,
                );
                Pass {
                    node: front.node.push(StatementView::Function { name, params, body: inner.node }),
                    scopes,
                    reports: front.reports + inner.reports,
                }
            },
            other => Pass { node: front.node.push(other), scopes, reports: front.reports },
        }
    }
}

/// Whether two stacks of scopes have the same height and differ at most in
/// the innermost scope.
pub open spec fn same_outer(before: Scopes, after: Scopes) -> bool {
    &&& before.len() == after.len()
    &&& forall|i: int| 0 <= i < before.len() - 1 ==> before[i] == after[i]
}

/// Declaring parameters changes the innermost scope only.
pub proof fn lemma_declare_parameters_outer(params: Seq<TokenView>, scopes: Scopes)
    ensures
        same_outer(scopes, declare_parameters(params, scopes).scopes),
    decreases params.len(),
{
    if params.len() > 0 {
        lemma_declare_parameters_outer(params.drop_last(), scopes);
    }
}

/// Resolving a statement changes the innermost scope only.
pub proof fn lemma_resolve_statement_outer(
    s: StatementView,
    scopes: Scopes,
    function_type: FunctionType,
    class_type: ClassType,
)
    ensures
        same_outer(scopes, resolve_statement(s, scopes, function_type, class_type).scopes),
    decreases s,
{
    match s {
        StatementView::If { condition, then_branch, else_branch } => {
            lemma_resolve_statement_outer(*then_branch, scopes, function_type, class_type);
            let t = resolve_statement(*then_branch, scopes, function_type, class_type);
            match else_branch {
                Some(b) => {
                    lemma_resolve_statement_outer(*b, t.scopes, function_type, class_type);
                },
                None => {},
            }
        },
        StatementView::While { condition, body } => {
            lemma_resolve_statement_outer(*body, scopes, function_type, class_type);
        },
        _ => {},
    }
}

/// Resolving a list of statements changes the innermost scope only.
pub proof fn lemma_resolve_statements_outer(
    list: Seq<StatementView>,
    scopes: Scopes,
    function_type: FunctionType,
    class_type: ClassType,
)
    ensures
        same_outer(scopes, resolve_statements(list, scopes, function_type, class_type).scopes),
        resolve_statements(list, scopes, function_type, class_type).node.len() == list.len(),
    decreases list.len(),
{
    if list.len() > 0 {
        lemma_resolve_statements_outer(list.drop_last(), scopes, function_type, class_type);
        let front = resolve_statements(list.drop_last(), scopes, function_type, class_type);
        lemma_resolve_statement_outer(list.last(), front.scopes, function_type, class_type);
    }
}

/// Resolving the methods of a class keeps their number and leaves a function
/// declaration where there was one.
pub proof fn lemma_resolve_methods_shape(list: Seq<StatementView>, scopes: Scopes)
    ensures
        resolve_methods(list, scopes).node.len() == list.len(),
        forall|i: int|
            0 <= i < list.len() && (#[trigger] list[i]) is Function ==> resolve_methods(
                list,
                scopes,
            ).node[i] is Function,
        forall|i: int|
            0 <= i < list.len() ==> (#[trigger] resolve_methods(list, scopes).node[i]) == (
            match list[i] {
                StatementView::Function { name, params, body } => StatementView::Function {
                    name,
                    params,
                    body: resolve_function(
                        params,
                        body,
                        scopes,
                        method_type(name),
                        ClassType::Class,
                    ).node,
                },
                other => other,
            }),
    decreases list.len(),
{
    if list.len() > 0 {
        lemma_resolve_methods_shape(list.drop_last(), scopes);
    }
}

/// Every depth that resolving leaves in a statement is below the number of
/// scopes around the reference that carries it, and resolving a well-formed
/// statement gives a well-formed statement.
pub proof fn lemma_resolve_statement_scoped(
    s: StatementView,
    scopes: Scopes,
    function_type: FunctionType,
    class_type: ClassType,
)
    ensures
        statement_scoped(
            resolve_statement(s, scopes, function_type, class_type).node,
            scopes.len(),
        ),
        statement_well_formed(s) ==> statement_well_formed(
            resolve_statement(s, scopes, function_type, class_type).node,
        ),
    decreases s, 0nat,
{
    match s {
        StatementView::Block { statements } => {
            let pushed = scopes.push(Map::empty());
            lemma_resolve_statements_scoped(statements, pushed, function_type, class_type);
            let inner = resolve_statements(statements, pushed, function_type, class_type);
            assert(pushed.len() == scopes.len() + 1);
            assert(statements_scoped(inner.node, scopes.len() + 1));
            assert(resolve_statement(s, scopes, function_type, class_type).node
                == StatementView::Block { statements: inner.node });
            if statement_well_formed(s) {
                assert(statements_well_formed(statements));
            }
        },
        StatementView::Var { name, initializer } => {
            match initializer {
                Some(e) => {
                    lemma_resolve_expression_scoped(
                        e,
                        with_entry(scopes, name.lexeme, false),
                        class_type,
                    );
                },
                None => {},
            }
        },
        StatementView::Function { name, params, body } => {
            lemma_resolve_function_scoped(
                params,
                body,
                with_entry(scopes, name.lexeme, true),
                FunctionType::Function,
                class_type,
            );
        },
        StatementView::Expression { expression } => {
            lemma_resolve_expression_scoped(expression, scopes, class_type);
        },
        StatementView::If { condition, then_branch, else_branch } => {
            lemma_resolve_expression_scoped(condition, scopes, class_type);
            lemma_resolve_statement_scoped(*then_branch, scopes, function_type, class_type);
            lemma_resolve_statement_outer(*then_branch, scopes, function_type, class_type);
            let t = resolve_statement(*then_branch, scopes, function_type, class_type);
            match else_branch {
                Some(b) => {
                    lemma_resolve_statement_scoped(*b, t.scopes, function_type, class_type);
                },
                None => {},
            }
        },
        StatementView::Print { expression } => {
            lemma_resolve_expression_scoped(expression, scopes, class_type);
        },
        StatementView::Return { keyword, value } => {
            match value {
                Some(e) => {
                    lemma_resolve_expression_scoped(e, scopes, class_type);
                },
                None => {},
            }
        },
        StatementView::While { condition, body } => {
            lemma_resolve_expression_scoped(condition, scopes, class_type);
            lemma_resolve_statement_scoped(*body, scopes, function_type, class_type);
        },
        StatementView::Class { name, methods } => {
            let inner = with_entry(scopes, name.lexeme, false).push(map!["this"@ => true]);
            lemma_resolve_class_scoped(methods, inner);
            let resolved = resolve_methods(methods, inner).node;
            assert(inner.len() == scopes.len() + 1);
            assert(resolve_statement(s, scopes, function_type, class_type).node
                == StatementView::Class { name, methods: resolved });
            if statement_well_formed(s) {
                assert forall|i: int| 0 <= i < resolved.len() implies (#[trigger] resolved[i])
                    is Function && statement_well_formed(resolved[i]) by {
                    assert(methods[i] is Function && statement_well_formed(methods[i]));
                }
            }
        },
    }
}

/// The methods of a resolved class are scoped under the scope that holds
/// `this`.
pub proof fn lemma_resolve_class_scoped(methods: Seq<StatementView>, inner: Scopes)
    ensures
        resolve_methods(methods, inner).node.len() == methods.len(),
        forall|i: int|
            0 <= i < methods.len() && (#[trigger] methods[i]) is Function ==> resolve_methods(
                methods,
                inner,
            ).node[i] is Function,
        forall|i: int|
            0 <= i < methods.len() && (#[trigger] resolve_methods(methods, inner).node[i])
                is Function ==> statement_scoped(
                resolve_methods(methods, inner).node[i],
                inner.len(),
            ),
        forall|i: int|
            0 <= i < methods.len() && (#[trigger] methods[i]) is Function
                && statement_well_formed(methods[i]) ==> statement_well_formed(
                resolve_methods(methods, inner).node[i],
            ),
    decreases methods, 4nat,
{
    lemma_resolve_methods_shape(methods, inner);
    let resolved = resolve_methods(methods, inner).node;
    assert forall|i: int| 0 <= i < methods.len() && (#[trigger] resolved[i])
        is Function implies statement_scoped(resolved[i], inner.len()) by {
        match methods[i] {
            StatementView::Function { name, params, body } => {
                lemma_resolve_function_scoped(
                    params,
                    body,
                    inner,
                    method_type(name),
                    ClassType::Class,
                );
            },
            other => {},
        }
    }
    assert forall|i: int|
        0 <= i < methods.len() && (#[trigger] methods[i]) is Function && statement_well_formed(
            methods[i],
        ) implies statement_well_formed(resolved[i]) by {
        match methods[i] {
            StatementView::Function { name, params, body } => {
                lemma_resolve_function_scoped(
                    params,
                    body,
                    inner,
                    method_type(name),
                    ClassType::Class,
                );
            },
            other => {},
        }
    }
}

/// The statements of a function body are scoped under the function's own
/// scope.
pub proof fn lemma_resolve_function_scoped(
    params: Seq<TokenView>,
    body: Seq<StatementView>,
    scopes: Scopes,
    function_type: FunctionType,
    class_type: ClassType,
)
    ensures
        statements_scoped(
            resolve_function(params, body, scopes, function_type, class_type).node,
            scopes.len() + 1,
        ),
        statements_well_formed(body) ==> statements_well_formed(
            resolve_function(params, body, scopes, function_type, class_type).node,
        ),
    decreases body, 2nat,
{
    lemma_declare_parameters_outer(params, scopes.push(Map::empty()));
    let declared = declare_parameters(params, scopes.push(Map::empty()));
    lemma_resolve_statements_scoped(body, declared.scopes, function_type, class_type);
}

/// The statements of a resolved list are scoped under the scopes of the list.
pub proof fn lemma_resolve_statements_scoped(
    list: Seq<StatementView>,
    scopes: Scopes,
    function_type: FunctionType,
    class_type: ClassType,
)
    ensures
        statements_scoped(
            resolve_statements(list, scopes, function_type, class_type).node,
            scopes.len(),
        ),
        statements_well_formed(list) ==> statements_well_formed(
            resolve_statements(list, scopes, function_type, class_type).node,
        ),
    decreases list, 1nat,
{
    if list.len() > 0 {
        lemma_resolve_statements_scoped(list.drop_last(), scopes, function_type, class_type);
        lemma_resolve_statements_outer(list.drop_last(), scopes, function_type, class_type);
        let front = resolve_statements(list.drop_last(), scopes, function_type, class_type);
        lemma_resolve_statement_scoped(list.last(), front.scopes, function_type, class_type);
        let last = resolve_statement(list.last(), front.scopes, function_type, class_type);
        let all = resolve_statements(list, scopes, function_type, class_type).node;
        assert(all == front.node.push(last.node));
        assert forall|i: int| 0 <= i < all.len() implies statement_scoped(
            #[trigger] all[i],
            scopes.len(),
        ) by {
            if i < front.node.len() {
                assert(all[i] == front.node[i]);
            }
        }
        if statements_well_formed(list) {
            assert forall|i: int| 0 <= i < list.drop_last().len() implies statement_well_formed(
                #[trigger] list.drop_last()[i],
            ) by {
                assert(list.drop_last()[i] == list[i]);
            }
            assert(statement_well_formed(list[list.len() - 1]));
            assert forall|i: int| 0 <= i < all.len() implies statement_well_formed(
                #[trigger] all[i],
            ) by {
                if i < front.node.len() {
                    assert(all[i] == front.node[i]);
                }
            }
        }
    }
}

/// Gives the innermost scope an entry for a name; with no scope, does
/// nothing.
fn set_entry(scopes: &mut Vec<Table<bool>>, name: &Token, defined: bool)
    ensures
        scopes_view(final(scopes)@) == with_entry(
            scopes_view(old(scopes)@),
            name@.lexeme,
            defined,
        ),
{
    let n = scopes.len();
    if n > 0 {
        let mut last = scopes.pop().unwrap();
        last.insert(name.name().clone(), defined);
        scopes.push(last);
        proof {
            let before = scopes_view(old(scopes)@);
            assert(before.last() == old(scopes)@[n - 1].map());
            assert(scopes_view(scopes@) =~= with_entry(before, name@.lexeme, defined));
        }
    }
}

/// Declares a name in the innermost scope, and reports it where the scope
/// holds it already.
fn declare(
    scopes: &mut Vec<Table<bool>>,
    name: &Token,
    defined: bool,
    reporter: &mut ErrorReporter,
)
    ensures
        scopes_view(final(scopes)@) == with_entry(
            scopes_view(old(scopes)@),
            name@.lexeme,
            defined,
        ),
        final(reporter)@ == old(reporter)@.with_all(redeclared(scopes_view(old(scopes)@), name@)),
{
    let n = scopes.len();
    proof {
        lemma_with_none(reporter@);
    }
    if n > 0 {
        assert(scopes_view(scopes@).last() == scopes@[n - 1].map());
        if scopes[n - 1].contains_key(name.name()) {
            proof {
                lemma_with_one(
                    reporter@,
                    token_report(name@, "A variable with this name already exists in this scope."@),
                );
            }
            reporter.error_on_token(name, "A variable with this name already exists in this scope.");
        }
    }
    set_entry(scopes, name, defined);
}

/// Opens a new innermost scope.
fn begin_scope(scopes: &mut Vec<Table<bool>>)
    ensures
        scopes_view(final(scopes)@) == scopes_view(old(scopes)@).push(Map::empty()),
{
    scopes.push(Table::new());
    proof {
        assert(scopes_view(scopes@) =~= scopes_view(old(scopes)@).push(Map::empty()));
    }
}

/// Closes the innermost scope.
fn end_scope(scopes: &mut Vec<Table<bool>>)
    requires
        old(scopes)@.len() > 0,
    ensures
        scopes_view(final(scopes)@) == scopes_view(old(scopes)@).drop_last(),
{
    scopes.pop();
    proof {
        assert(scopes_view(scopes@) =~= scopes_view(old(scopes)@).drop_last());
    }
}

/// Resolves the parameters and the body of a function in a scope of their
/// own, and gives back the resolved body.
fn resolve_function_parts(
    params: &Vec<Token>,
    body: &Vec<Rc<Statement>>,
    scopes: &mut Vec<Table<bool>>,
    function_type: &FunctionType,
    class_type: &ClassType,
    reporter: &mut ErrorReporter,
) -> (resolved: Vec<Rc<Statement>>)
    requires
        statements_well_formed(statement_views(body@)),
    ensures
        statement_views(resolved@) == resolve_function(
            tokens_view(params@),
            statement_views(body@),
            scopes_view(old(scopes)@),
            *function_type,
            *class_type,
        ).node,
        scopes_view(final(scopes)@) == scopes_view(old(scopes)@),
        final(reporter)@ == old(reporter)@.with_all(
            resolve_function(
                tokens_view(params@),
                statement_views(body@),
                scopes_view(old(scopes)@),
                *function_type,
                *class_type,
            ).reports,
        ),
    decreases body, 1nat,
{
    let ghost outer = scopes_view(scopes@);
    let ghost start = reporter@;
    let ghost names = tokens_view(params@);
    begin_scope(scopes);
    let ghost pushed = scopes_view(scopes@);
    let mut i: usize = 0;
    proof {
        lemma_with_none(start);
        assert(names.subrange(0, 0) =~= Seq::<TokenView>::empty());
    }
    while i < params.len()
        invariant
            i <= params@.len(),
            names == tokens_view(params@),
            scopes_view(scopes@) == declare_parameters(names.subrange(0, i as int), pushed).scopes,
            reporter@ == start.with_all(
                declare_parameters(names.subrange(0, i as int), pushed).reports,
            ),
        decreases params@.len() - i,
    {
        proof {
            let prefix = names.subrange(0, i as int);
            let next = names.subrange(0, i + 1);
            assert(next.drop_last() =~= prefix);
            assert(next.last() == params@[i as int]@);
            lemma_with_concat(
                start,
                declare_parameters(prefix, pushed).reports,
                redeclared(declare_parameters(prefix, pushed).scopes, next.last()),
            );
        }
        declare(scopes, &params[i], true, reporter);
        i += 1;
    }
    proof {
        assert(names.subrange(0, i as int) =~= names);
    }
    let ghost declared = declare_parameters(names, pushed);
    let resolved = resolve_list(body, scopes, function_type, class_type, reporter);
    proof {
        let inner = resolve_statements(
            statement_views(body@),
            declared.scopes,
            *function_type,
            *class_type,
        );
        lemma_with_concat(start, declared.reports, inner.reports);
        lemma_declare_parameters_outer(names, pushed);
        lemma_resolve_statements_outer(
            statement_views(body@),
            declared.scopes,
            *function_type,
            *class_type,
        );
        assert(inner.scopes.drop_last() =~= outer);
    }
    end_scope(scopes);
    resolved
}

/// Resolves a list of statements, first to last.
fn resolve_list(
    list: &Vec<Rc<Statement>>,
    scopes: &mut Vec<Table<bool>>,
    function_type: &FunctionType,
    class_type: &ClassType,
    reporter: &mut ErrorReporter,
) -> (resolved: Vec<Rc<Statement>>)
    requires
        statements_well_formed(statement_views(list@)),
    ensures
        statement_views(resolved@) == resolve_statements(
            statement_views(list@),
            scopes_view(old(scopes)@),
            *function_type,
            *class_type,
        ).node,
        scopes_view(final(scopes)@) == resolve_statements(
            statement_views(list@),
            scopes_view(old(scopes)@),
            *function_type,
            *class_type,
        ).scopes,
        final(reporter)@ == old(reporter)@.with_all(
            resolve_statements(
                statement_views(list@),
                scopes_view(old(scopes)@),
                *function_type,
                *class_type,
            ).reports,
        ),
    decreases list, 0nat,
{
    let ghost outer = scopes_view(scopes@);
    let ghost start = reporter@;
    let ghost views = statement_views(list@);
    let mut resolved: Vec<Rc<Statement>> = Vec::new();
    let mut i: usize = 0;
    proof {
        lemma_with_none(start);
        assert(views.subrange(0, 0) =~= Seq::<StatementView>::empty());
        assert(statement_views(resolved@) =~= Seq::<StatementView>::empty());
    }
    while i < list.len()
        invariant
            i <= list@.len(),
            views == statement_views(list@),
            statements_well_formed(views),
            statement_views(resolved@) == resolve_statements(
                views.subrange(0, i as int),
                outer,
                *function_type,
                *class_type,
            ).node,
            scopes_view(scopes@) == resolve_statements(
                views.subrange(0, i as int),
                outer,
                *function_type,
                *class_type,
            ).scopes,
            reporter@ == start.with_all(
                resolve_statements(
                    views.subrange(0, i as int),
                    outer,
                    *function_type,
                    *class_type,
                ).reports,
            ),
        decreases list@.len() - i,
    {
        let ghost before = resolved@;
        proof {
            let prefix = views.subrange(0, i as int);
            let next = views.subrange(0, i + 1);
            assert(next.drop_last() =~= prefix);
            assert(next.last() == list@[i as int]@);
            assert(statement_well_formed(views[i as int]));
            let front = resolve_statements(prefix, outer, *function_type, *class_type);
            lemma_with_concat(
                start,
                front.reports,
                resolve_statement(next.last(), front.scopes, *function_type, *class_type).reports,
            );
        }
        let item = list[i].resolve(scopes, function_type, class_type, reporter);
        resolved.push(Rc::new(item));
        proof {
            assert(statement_views(resolved@) =~= statement_views(before).push(item@));
        }
        i += 1;
    }
    proof {
        assert(views.subrange(0, i as int) =~= views);
    }
    resolved
}

/// Resolves the methods of a class, first to last, each in a scope of its
/// own.
fn resolve_method_list(
    list: &Vec<Rc<Statement>>,
    scopes: &mut Vec<Table<bool>>,
    reporter: &mut ErrorReporter,
) -> (resolved: Vec<Rc<Statement>>)
    requires
        forall|i: int|
            0 <= i < list@.len() ==> (#[trigger] statement_views(list@)[i]) is Function
                && statement_well_formed(statement_views(list@)[i]),
    ensures
        statement_views(resolved@) == resolve_methods(
            statement_views(list@),
            scopes_view(old(scopes)@),
        ).node,
        scopes_view(final(scopes)@) == scopes_view(old(scopes)@),
        final(reporter)@ == old(reporter)@.with_all(
            resolve_methods(statement_views(list@), scopes_view(old(scopes)@)).reports,
        ),
    decreases list, 2nat,
{
    let ghost outer = scopes_view(scopes@);
    let ghost start = reporter@;
    let ghost views = statement_views(list@);
    let mut resolved: Vec<Rc<Statement>> = Vec::new();
    let mut i: usize = 0;
    proof {
        lemma_with_none(start);
        assert(views.subrange(0, 0) =~= Seq::<StatementView>::empty());
        assert(statement_views(resolved@) =~= Seq::<StatementView>::empty());
    }
    while i < list.len()
        invariant
            i <= list@.len(),
            views == statement_views(list@),
            forall|k: int|
                0 <= k < list@.len() ==> (#[trigger] views[k]) is Function && statement_well_formed(
                    views[k],
                ),
            scopes_view(scopes@) == outer,
            statement_views(resolved@) == resolve_methods(views.subrange(0, i as int), outer).node,
            reporter@ == start.with_all(
                resolve_methods(views.subrange(0, i as int), outer).reports,
            ),
        decreases list@.len() - i,
    {
        let ghost before = resolved@;
        proof {
            let prefix = views.subrange(0, i as int);
            let next = views.subrange(0, i + 1);
            assert(next.drop_last() =~= prefix);
            assert(next.last() == list@[i as int]@);
            assert(views[i as int] is Function && statement_well_formed(views[i as int]));
        }
        match &*list[i] {
            Statement::Function { name, params, body } => {
                let function_type = if same_text(name.name(), "init") {
                    FunctionType::Initializer
                } else {
                    FunctionType::Method
                };
                proof {
                    let m = list@[i as int]@;
                    assert(m->Function_body =~= statement_views(body@));
                    assert(statements_well_formed(statement_views(body@)));
                    lemma_with_concat(
                        start,
                        resolve_methods(views.subrange(0, i as int), outer).reports,
                        resolve_function(
                            tokens_view(params@),
                            statement_views(body@),
                            outer,
                            function_type,
                            ClassType::Class,
                        ).reports,
                    );
                }
                let inner = resolve_function_parts(
                    params,
                    body,
                    scopes,
                    &function_type,
                    &ClassType::Class,
                    reporter,
                );
                let item = Statement::Function {
                    name: name.duplicate(),
                    params: share(params),
                    body: Rc::new(inner),
                };
                proof {
                    assert(item@->Function_body =~= statement_views(inner@));
                }
                resolved.push(Rc::new(item));
                proof {
                    assert(statement_views(resolved@) =~= statement_views(before).push(item@));
                }
            },
            _ => {
                unreached::<()>();
            },
        }
        i += 1;
    }
    proof {
        assert(views.subrange(0, i as int) =~= views);
    }
    resolved
}

/// Resolves an expression that may be absent.
fn resolve_optional(
    expression: &Option<Rc<Expression>>,
    scopes: &Vec<Table<bool>>,
    class_type: &ClassType,
    reporter: &mut ErrorReporter,
) -> (resolved: Option<Rc<Expression>>)
    ensures
        match *expression {
            Some(e) => resolved matches Some(r) && r@ == resolve_expression(
                e@,
                scopes_view(scopes@),
                *class_type,
            ).node && final(reporter)@ == old(reporter)@.with_all(
                resolve_expression(e@, scopes_view(scopes@), *class_type).reports,
            ),
            None => resolved is None && final(reporter)@ == old(reporter)@,
        },
{
    match expression {
        Some(e) => Some(Rc::new(e.resolve(scopes, class_type, reporter))),
        None => None,
    }
}

impl Statement {
    /// Resolves this statement: gives back the statement with the depth of
    /// every variable reference in it, records in `scopes` what the
    /// statement declares, and reports the errors found.
    pub fn resolve(
        &self,
        scopes: &mut Vec<Table<bool>>,
        function_type: &FunctionType,
        class_type: &ClassType,
        reporter: &mut ErrorReporter,
    ) -> (resolved: Statement)
        requires
            statement_well_formed(self@),
        ensures
            resolved@ == resolve_statement(
                self@,
                scopes_view(old(scopes)@),
                *function_type,
                *class_type,
            ).node,
            scopes_view(final(scopes)@) == resolve_statement(
                self@,
                scopes_view(old(scopes)@),
                *function_type,
                *class_type,
            ).scopes,
            final(reporter)@ == old(reporter)@.with_all(
                resolve_statement(
                    self@,
                    scopes_view(old(scopes)@),
                    *function_type,
                    *class_type,
                ).reports,
            ),
        decreases self, 0nat,
    {
        let ghost outer = scopes_view(scopes@);
        let ghost start = reporter@;
        match self {
            Statement::Block { statements } => {
                proof {
                    assert(self@->statements =~= statement_views(statements@));
                    lemma_resolve_statements_outer(
                        statement_views(statements@),
                        outer.push(Map::empty()),
                        *function_type,
                        *class_type,
                    );
                }
                begin_scope(scopes);
                let inner = resolve_list(statements, scopes, function_type, class_type, reporter);
                proof {
                    assert(scopes_view(scopes@).drop_last() =~= outer);
                }
                end_scope(scopes);
                let result = Statement::Block { statements: Rc::new(inner) };
                proof {
                    assert(result@->statements =~= statement_views(inner@));
                }
                result
            },
            Statement::Var { name, initializer } => {
                declare(scopes, name, false, reporter);
                let init = resolve_optional(initializer, scopes, class_type, reporter);
                set_entry(scopes, name, true);
                proof {
                    match initializer {
                        Some(e) => {
                            lemma_with_concat(
                                start,
                                redeclared(outer, name@),
                                resolve_expression(
                                    e@,
                                    with_entry(outer, name@.lexeme, false),
                                    *class_type,
                                ).reports,
                            );
                        },
                        None => {},
                    }
                }
                Statement::Var { name: name.duplicate(), initializer: init }
            },
            Statement::Function { name, params, body } => {
                declare(scopes, name, true, reporter);
                proof {
                    assert(self@->Function_body =~= statement_views(body@));
                    assert(statements_well_formed(statement_views(body@)));
                    lemma_with_concat(
                        start,
                        redeclared(outer, name@),
                        resolve_function(
                            tokens_view(params@),
                            statement_views(body@),
                            with_entry(outer, name@.lexeme, true),
                            FunctionType::Function,
                            *class_type,
                        ).reports,
                    );
                }
                let inner = resolve_function_parts(
                    params,
                    body,
                    scopes,
                    &FunctionType::Function,
                    class_type,
                    reporter,
                );
                let result = Statement::Function {
                    name: name.duplicate(),
                    params: share(params),
                    body: Rc::new(inner),
                };
                proof {
                    assert(result@->Function_body =~= statement_views(inner@));
                }
                result
            },
            Statement::Expression { expression } => {
                let e = expression.resolve(scopes, class_type, reporter);
                Statement::Expression { expression: Rc::new(e) }
            },
            Statement::If { condition, then_branch, else_branch } => {
                let c = condition.resolve(scopes, class_type, reporter);
                let t = then_branch.resolve(scopes, function_type, class_type, reporter);
                let ghost c_spec = resolve_expression(condition@, outer, *class_type);
                let ghost t_spec = resolve_statement(
                    then_branch@,
                    outer,
                    *function_type,
                    *class_type,
                );
                proof {
                    lemma_with_concat(start, c_spec.reports, t_spec.reports);
                }
                match else_branch {
                    Some(b) => {
                        let e = b.resolve(scopes, function_type, class_type, reporter);
                        proof {
                            lemma_with_concat(
                                start,
                                c_spec.reports + t_spec.reports,
                                resolve_statement(
                                    b@,
                                    t_spec.scopes,
                                    *function_type,
                                    *class_type,
                                ).reports,
                            );
                        }
                        Statement::If {
                            condition: Rc::new(c),
                            then_branch: Rc::new(t),
                            else_branch: Some(Rc::new(e)),
                        }
                    },
                    None => Statement::If {
                        condition: Rc::new(c),
                        then_branch: Rc::new(t),
                        else_branch: None,
                    },
                }
            },
            Statement::Print { expression } => {
                let e = expression.resolve(scopes, class_type, reporter);
                Statement::Print { expression: Rc::new(e) }
            },
            Statement::Return { keyword, value } => {
                let ghost first: Seq<ReportView> = if *function_type == FunctionType::TopLevel {
                    seq![token_report(keyword@, "Can't return from top-level code."@)]
                } else {
                    Seq::empty()
                };
                let ghost second: Seq<ReportView> = if *function_type == FunctionType::Initializer
                    && value is Some {
                    seq![token_report(keyword@, "Can't return a value from an initializer."@)]
                } else {
                    Seq::empty()
                };
                proof {
                    lemma_with_none(start);
                }
                match function_type {
                    FunctionType::TopLevel => {
                        proof {
                            lemma_with_one(
                                start,
                                token_report(keyword@, "Can't return from top-level code."@),
                            );
                        }
                        reporter.error_on_token(keyword, "Can't return from top-level code.");
                    },
                    _ => {},
                }
                assert(reporter@ == start.with_all(first));
                let ghost middle = reporter@;
                proof {
                    lemma_with_none(middle);
                }
                match function_type {
                    FunctionType::Initializer => {
                        if value.is_some() {
                            proof {
                                lemma_with_one(
                                    middle,
                                    token_report(
                                        keyword@,
                                        "Can't return a value from an initializer."@,
                                    ),
                                );
                            }
                            reporter.error_on_token(
                                keyword,
                                "Can't return a value from an initializer.",
                            );
                        }
                    },
                    _ => {},
                }
                proof {
                    lemma_with_concat(start, first, second);
                }
                assert(reporter@ == start.with_all(first + second));
                let v = resolve_optional(value, scopes, class_type, reporter);
                proof {
                    match value {
                        Some(e) => {
                            lemma_with_concat(
                                start,
                                first + second,
                                resolve_expression(e@, outer, *class_type).reports,
                            );
                        },
                        None => {},
                    }
                }
                Statement::Return { keyword: keyword.duplicate(), value: v }
            },
            Statement::While { condition, body } => {
                let c = condition.resolve(scopes, class_type, reporter);
                let b = body.resolve(scopes, function_type, class_type, reporter);
                proof {
                    lemma_with_concat(
                        start,
                        resolve_expression(condition@, outer, *class_type).reports,
                        resolve_statement(body@, outer, *function_type, *class_type).reports,
                    );
                }
                Statement::While { condition: Rc::new(c), body: Rc::new(b) }
            },
            Statement::Class { name, methods } => {
                declare(scopes, name, false, reporter);
                let ghost declared = scopes_view(scopes@);
                begin_scope(scopes);
                let this = Token::new(crate::token::Type::This, String::from_str("this"), 0);
                set_entry(scopes, &this, true);
                proof {
                    assert(scopes_view(scopes@) =~= declared.push(map!["this"@ => true]));
                    assert(self@->methods =~= statement_views(methods@));
                    assert forall|i: int| 0 <= i < methods@.len() implies (
                    #[trigger] statement_views(methods@)[i]) is Function && statement_well_formed(
                        statement_views(methods@)[i],
                    ) by {
                        assert(self@->methods[i] is Function);
                    }
                    lemma_with_concat(
                        start,
                        redeclared(outer, name@),
                        resolve_methods(
                            statement_views(methods@),
                            declared.push(map!["this"@ => true]),
                        ).reports,
                    );
                }
                let inner = resolve_method_list(methods, scopes, reporter);
                proof {
                    assert(scopes_view(scopes@).drop_last() =~= declared);
                }
                end_scope(scopes);
                let result = Statement::Class { name: name.duplicate(), methods: Rc::new(inner) };
                proof {
                    assert(result@->methods =~= statement_views(inner@));
                }
                result
            },
        }
    }
}

} // verus!
