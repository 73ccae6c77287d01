//! The grammar of the language, as functions from tokens to syntax.
//!
//! Each function takes the tokens and a position, and gives what the
//! production at that position yields: the syntax if there is any, the
//! position reached, and the errors found, in order.

use vstd::prelude::*;
use crate::error_reporter::{token_report, ReportView};
use crate::expression::ExpressionView;
use crate::statement::StatementView;
use crate::token::{is_literal, literal_of, tag_of, LiteralView, TokenView, TypeView};

verus! {

/// What a production yields.
pub struct Parse<T> {
    pub node: Option<T>,
    pub next: int,
    pub reports: Seq<ReportView>,
}

/// A production that yields syntax and reports nothing.
pub open spec fn found<T>(node: T, next: int) -> Parse<T> {
    Parse { node: Some(node), next, reports: Seq::empty() }
}

/// A production that yields nothing.
pub open spec fn failed<T>(next: int, reports: Seq<ReportView>) -> Parse<T> {
    Parse { node: None, next, reports }
}

/// A production whose errors follow errors found before it.
pub open spec fn after<T>(reports: Seq<ReportView>, parse: Parse<T>) -> Parse<T> {
    Parse { node: parse.node, next: parse.next, reports: reports + parse.reports }
}

/// Whether a position can be reached from another: it lies at or after it,
/// and within the tokens.
pub open spec fn reached(tokens: Seq<TokenView>, from: int, to: int) -> bool {
    from <= to < tokens.len()
}

/// Whether the token at a position is of a kind.
pub open spec fn check(tokens: Seq<TokenView>, position: int, tag: u8) -> bool {
    tag_of(tokens[position].token_type) == tag
}

/// Whether the token at a position marks the end of the tokens.
pub open spec fn at_end(tokens: Seq<TokenView>, position: int) -> bool {
    tokens[position].token_type is EOF
}

/// The position after a token: the next one, but the token that marks the
/// end is never passed.
pub open spec fn advance(tokens: Seq<TokenView>, position: int) -> int {
    if at_end(tokens, position) {
        position
    } else {
        position + 1
    }
}

/// Taking a token of an expected kind: the token, or the error at the token
/// found in its place.
pub open spec fn expect(tokens: Seq<TokenView>, position: int, tag: u8, message: Seq<char>)
    -> Parse<TokenView> {
    if check(tokens, position, tag) {
        found(tokens[position], position + 1)
    } else {
        failed(position, seq![token_report(tokens[position], message)])
    }
}

/// The number of the kind `(`.
pub const LEFT_PAREN: u8 = 0;

/// The number of the kind `)`.
pub const RIGHT_PAREN: u8 = 1;

/// The number of the kind `{`.
pub const LEFT_BRACE: u8 = 2;

/// The number of the kind `}`.
pub const RIGHT_BRACE: u8 = 3;

/// The number of the kind `,`.
pub const COMMA: u8 = 4;

/// The number of the kind `.`.
pub const DOT: u8 = 5;

/// The number of the kind `;`.
pub const SEMICOLON: u8 = 8;

/// The number of the kind `=`.
pub const EQUAL: u8 = 13;

/// The number of the kind of identifiers.
pub const IDENTIFIER: u8 = 19;

/// The precedence level of an operator that stands between two operands:
/// 0 for `/` and `*`, up to 5 for `or`.
pub open spec fn level_of(kind: TypeView) -> Option<nat> {
    match kind {
        TypeView::Slash | TypeView::Star => Some(0),
        TypeView::Minus | TypeView::Plus => Some(1),
        TypeView::Greater | TypeView::GreaterEqual | TypeView::Less | TypeView::LessEqual => Some(
            2,
        ),
        TypeView::BangEqual | TypeView::EqualEqual => Some(3),
        TypeView::And => Some(4),
        TypeView::Or => Some(5),
        _ => None,
    }
}

/// The expression of two operands and an operator of a level: a logical
/// expression for `and` and `or`, a binary expression below.
pub open spec fn joined(
    level: nat,
    left: ExpressionView,
    operator: TokenView,
    right: ExpressionView,
) -> ExpressionView {
    if level >= 4 {
        ExpressionView::Logical { left: Box::new(left), operator, right: Box::new(right) }
    } else {
        ExpressionView::Binary { left: Box::new(left), operator, right: Box::new(right) }
    }
}

/// primary → "true" | "false" | "nil" | NUMBER | STRING | "this" | IDENT
///         | "(" expression ")"
#[verifier::opaque]
pub open spec fn primary(tokens: Seq<TokenView>, position: int) -> Parse<ExpressionView>
    decreases tokens.len() - position, 0nat,
{
    let token = tokens[position];
    if is_literal(token.token_type) {
        found(ExpressionView::Literal { value: literal_of(token.token_type) }, position + 1)
    } else if token.token_type is This {
        found(ExpressionView::This { keyword: token, depth: None }, position + 1)
    } else if token.token_type is Identifier {
        found(ExpressionView::Variable { name: token, depth: None }, position + 1)
    } else if token.token_type is LeftParen {
        if reached(tokens, position + 1, position + 1) {
            let inner = expression(tokens, position + 1);
            match inner.node {
                Some(e) if reached(tokens, position + 1, inner.next) => {
                    let close = expect(
                        tokens,
                        inner.next,
                        RIGHT_PAREN,
                        "Expected ')' after expression."@,
                    );
                    match close.node {
                        Some(_) => Parse {
                            node: Some(ExpressionView::Grouping { expression: Box::new(e) }),
                            next: close.next,
                            reports: inner.reports,
                        },
                        None => failed(close.next, inner.reports + close.reports),
                    }
                },
                _ => failed(inner.next, inner.reports),
            }
        } else {
            failed(position, Seq::empty())
        }
    } else {
        failed(position, seq![token_report(token, "Expected expression."@)])
    }
}

/// The arguments of a call, after those in `done`: expressions separated by
/// commas. More than 255 arguments are an error, and are kept.
#[verifier::opaque]
pub open spec fn arguments(tokens: Seq<TokenView>, position: int, done: Seq<ExpressionView>)
    -> Parse<Seq<ExpressionView>>
    decreases tokens.len() - position, 18nat,
{
    let first: Seq<ReportView> = if done.len() >= 255 {
        seq![token_report(tokens[position], "Can't have more than 255 arguments."@)]
    } else {
        Seq::empty()
    };
    let argument = expression(tokens, position);
    match argument.node {
        Some(e) if reached(tokens, position, argument.next) => {
            if check(tokens, argument.next, COMMA) && reached(
                tokens,
                argument.next + 1,
                argument.next + 1,
            ) {
                after(
                    first + argument.reports,
                    arguments(tokens, argument.next + 1, done.push(e)),
                )
            } else {
                Parse {
                    node: Some(done.push(e)),
                    next: argument.next,
                    reports: first + argument.reports,
                }
            }
        },
        _ => failed(argument.next, first + argument.reports),
    }
}

/// The rest of a call after its "(": arguments? ")"
#[verifier::opaque]
pub open spec fn finish_call(tokens: Seq<TokenView>, position: int, callee: ExpressionView)
    -> Parse<ExpressionView>
    decreases tokens.len() - position, 19nat,
{
    let list = if check(tokens, position, RIGHT_PAREN) {
        found(Seq::empty(), position)
    } else {
        arguments(tokens, position, Seq::empty())
    };
    match list.node {
        Some(items) if reached(tokens, position, list.next) => {
            let close = expect(tokens, list.next, RIGHT_PAREN, "Expected ')' after arguments."@);
            match close.node {
                Some(paren) => Parse {
                    node: Some(
                        ExpressionView::Call { callee: Box::new(callee), paren, arguments: items },
                    ),
                    next: close.next,
                    reports: list.reports,
                },
                None => failed(close.next, list.reports + close.reports),
            }
        },
        _ => failed(list.next, list.reports),
    }
}

/// The calls and property reads that follow an expression:
/// ( "(" arguments? ")" | "." IDENT )*
#[verifier::opaque]
pub open spec fn call_rest(tokens: Seq<TokenView>, position: int, callee: ExpressionView) -> Parse<
    ExpressionView,
>
    decreases tokens.len() - position, 1nat,
{
    if check(tokens, position, LEFT_PAREN) && reached(tokens, position + 1, position + 1) {
        let call = finish_call(tokens, position + 1, callee);
        match call.node {
            Some(e) if reached(tokens, position + 1, call.next) => after(
                call.reports,
                call_rest(tokens, call.next, e),
            ),
            _ => failed(call.next, call.reports),
        }
    } else if check(tokens, position, DOT) && reached(tokens, position + 1, position + 1) {
        let name = expect(
            tokens,
            position + 1,
            IDENTIFIER,
            "Expected property name after '.'."@,
        );
        match name.node {
            Some(token) if reached(tokens, position + 2, position + 2) => call_rest(
                tokens,
                position + 2,
                ExpressionView::Get { object: Box::new(callee), name: token },
            ),
            _ => failed(name.next, name.reports),
        }
    } else {
        found(callee, position)
    }
}

/// call → primary ( "(" arguments? ")" | "." IDENT )*
#[verifier::opaque]
pub open spec fn call(tokens: Seq<TokenView>, position: int) -> Parse<ExpressionView>
    decreases tokens.len() - position, 2nat,
{
    let first = primary(tokens, position);
    match first.node {
        Some(e) if reached(tokens, position, first.next) => after(
            first.reports,
            call_rest(tokens, first.next, e),
        ),
        _ => failed(first.next, first.reports),
    }
}

/// unary → ( "!" | "-" ) unary | call
#[verifier::opaque]
pub open spec fn unary(tokens: Seq<TokenView>, position: int) -> Parse<ExpressionView>
    decreases tokens.len() - position, 3nat,
{
    let token = tokens[position];
    if (token.token_type is Bang || token.token_type is Minus) && reached(
        tokens,
        position + 1,
        position + 1,
    ) {
        let operand = unary(tokens, position + 1);
        match operand.node {
            Some(right) => Parse {
                node: Some(ExpressionView::Unary { operator: token, right: Box::new(right) }),
                next: operand.next,
                reports: operand.reports,
            },
            None => operand,
        }
    } else {
        call(tokens, position)
    }
}

/// An operand of an operator of a level: an expression of the next lower
/// level, a unary expression below the lowest.
#[verifier::opaque]
pub open spec fn operand(tokens: Seq<TokenView>, position: int, level: nat) -> Parse<
    ExpressionView,
>
    decreases tokens.len() - position, 4 + 2 * level, 1nat,
{
    if level == 0 {
        unary(tokens, position)
    } else {
        binary(tokens, position, (level - 1) as nat)
    }
}

/// The operators of a level and their right operands that follow a left
/// operand: the expression groups to the left.
#[verifier::opaque]
pub open spec fn binary_rest(
    tokens: Seq<TokenView>,
    position: int,
    level: nat,
    left: ExpressionView,
) -> Parse<ExpressionView>
    decreases tokens.len() - position, 4 + 2 * level, 0nat,
{
    if level_of(tokens[position].token_type) == Some(level) && reached(
        tokens,
        position + 1,
        position + 1,
    ) {
        let right = operand(tokens, position + 1, level);
        match right.node {
            Some(r) if reached(tokens, position + 1, right.next) => after(
                right.reports,
                binary_rest(tokens, right.next, level, joined(level, left, tokens[position], r)),
            ),
            _ => failed(right.next, right.reports),
        }
    } else {
        found(left, position)
    }
}

/// An expression of the operators of a level: operand ( operator operand )*
///
/// The levels are, from the lowest: factor ( "/" "*" ), term ( "-" "+" ),
/// comparison ( ">" ">=" "<" "<=" ), equality ( "!=" "==" ), logic_and
/// ( "and" ), logic_or ( "or" ).
#[verifier::opaque]
pub open spec fn binary(tokens: Seq<TokenView>, position: int, level: nat) -> Parse<ExpressionView>
    decreases tokens.len() - position, 5 + 2 * level, 0nat,
{
    let first = operand(tokens, position, level);
    match first.node {
        Some(left) if reached(tokens, position, first.next) => after(
            first.reports,
            binary_rest(tokens, first.next, level, left),
        ),
        _ => failed(first.next, first.reports),
    }
}

/// What an assignment to a target yields: an assignment to a variable, a
/// write to a property, or, for any other target, the target itself and an
/// error at the `=`.
pub open spec fn assigned(target: ExpressionView, equals: TokenView, value: ExpressionView) -> (
    ExpressionView,
    Seq<ReportView>,
) {
    match target {
        ExpressionView::Variable { name, depth } => (
            ExpressionView::Assignment { name, value: Box::new(value), depth },
            Seq::empty(),
        ),
        ExpressionView::Get { object, name } => (
            ExpressionView::SetProperty { object, name, value: Box::new(value) },
            Seq::empty(),
        ),
        _ => (target, seq![token_report(equals, "Invalid assignment target."@)]),
    }
}

/// assignment → ( call "." )? IDENT "=" assignment | logic_or
#[verifier::opaque]
pub open spec fn assignment(tokens: Seq<TokenView>, position: int) -> Parse<ExpressionView>
    decreases tokens.len() - position, 16nat,
{
    let target = binary(tokens, position, 5);
    match target.node {
        Some(e) if reached(tokens, position, target.next) => {
            if check(tokens, target.next, EQUAL) && reached(
                tokens,
                target.next + 1,
                target.next + 1,
            ) {
                let value = assignment(tokens, target.next + 1);
                match value.node {
                    Some(v) => {
                        let result = assigned(e, tokens[target.next], v);
                        Parse {
                            node: Some(result.0),
                            next: value.next,
                            reports: target.reports + value.reports + result.1,
                        }
                    },
                    None => failed(value.next, target.reports + value.reports),
                }
            } else {
                target
            }
        },
        _ => failed(target.next, target.reports),
    }
}

/// expression → assignment
#[verifier::opaque]
pub open spec fn expression(tokens: Seq<TokenView>, position: int) -> Parse<ExpressionView>
    decreases tokens.len() - position, 17nat,
{
    assignment(tokens, position)
}

/// An expression and the token that closes it.
pub open spec fn closed_expression(
    tokens: Seq<TokenView>,
    position: int,
    tag: u8,
    message: Seq<char>,
) -> Parse<ExpressionView> {
    let value = expression(tokens, position);
    match value.node {
        Some(e) if reached(tokens, position, value.next) => {
            let close = expect(tokens, value.next, tag, message);
            match close.node {
                Some(_) => Parse { node: Some(e), next: close.next, reports: value.reports },
                None => failed(close.next, value.reports + close.reports),
            }
        },
        _ => failed(value.next, value.reports),
    }
}

/// exprStmt → expression ";"
pub open spec fn expression_statement(tokens: Seq<TokenView>, position: int) -> Parse<
    StatementView,
> {
    let value = closed_expression(
        tokens,
        position,
        SEMICOLON,
        "Expected ';' after expression."@,
    );
    match value.node {
        Some(expression) => Parse {
            node: Some(StatementView::Expression { expression }),
            next: value.next,
            reports: value.reports,
        },
        None => failed(value.next, value.reports),
    }
}

/// printStmt → "print" expression ";", after the "print"
pub open spec fn print_statement(tokens: Seq<TokenView>, position: int) -> Parse<StatementView> {
    let value = closed_expression(tokens, position, SEMICOLON, "Expected ';' after value."@);
    match value.node {
        Some(expression) => Parse {
            node: Some(StatementView::Print { expression }),
            next: value.next,
            reports: value.reports,
        },
        None => failed(value.next, value.reports),
    }
}

/// returnStmt → "return" expression? ";", after the "return"
pub open spec fn return_statement(tokens: Seq<TokenView>, position: int) -> Parse<StatementView>
    recommends
        position > 0,
{
    let keyword = tokens[position - 1];
    if check(tokens, position, SEMICOLON) {
        found(StatementView::Return { keyword, value: None }, position + 1)
    } else {
        let value = closed_expression(
            tokens,
            position,
            SEMICOLON,
            "Expected ';' after return value."@,
        );
        match value.node {
            Some(e) => Parse {
                node: Some(StatementView::Return { keyword, value: Some(e) }),
                next: value.next,
                reports: value.reports,
            },
            None => failed(value.next, value.reports),
        }
    }
}

/// varDecl → "var" IDENT ( "=" expression )? ";", after the "var"
pub open spec fn variable_declaration(tokens: Seq<TokenView>, position: int) -> Parse<
    StatementView,
> {
    let name = expect(tokens, position, IDENTIFIER, "Expected variable name!"@);
    match name.node {
        Some(token) if reached(tokens, position + 1, position + 1) => {
            if check(tokens, position + 1, EQUAL) && reached(tokens, position + 2, position + 2) {
                let value = closed_expression(
                    tokens,
                    position + 2,
                    SEMICOLON,
                    "Expected ';' after variable declaration"@,
                );
                match value.node {
                    Some(e) => Parse {
                        node: Some(StatementView::Var { name: token, initializer: Some(e) }),
                        next: value.next,
                        reports: value.reports,
                    },
                    None => failed(value.next, value.reports),
                }
            } else {
                let close = expect(
                    tokens,
                    position + 1,
                    SEMICOLON,
                    "Expected ';' after variable declaration"@,
                );
                match close.node {
                    Some(_) => found(
                        StatementView::Var { name: token, initializer: None },
                        close.next,
                    ),
                    None => failed(close.next, close.reports),
                }
            }
        },
        _ => failed(name.next, name.reports),
    }
}

/// The statement that a `for` loop stands for: the body, followed by the
/// increment where there is one, runs in a `while` loop on the condition;
/// where there is an initializer, it and the loop make a block.
pub open spec fn desugared_for(
    initializer: Option<StatementView>,
    condition: ExpressionView,
    increment: Option<ExpressionView>,
    body: StatementView,
) -> StatementView {
    let repeated = match increment {
        Some(expression) => StatementView::Block {
            statements: seq![body, StatementView::Expression { expression }],
        },
        None => body,
    };
    let looping = StatementView::While { condition, body: Box::new(repeated) };
    match initializer {
        Some(first) => StatementView::Block { statements: seq![first, looping] },
        None => looping,
    }
}

/// The first clause of a `for` loop: ";" | varDecl | exprStmt
pub open spec fn for_initializer(tokens: Seq<TokenView>, position: int) -> Parse<
    Option<StatementView>,
> {
    if check(tokens, position, SEMICOLON) {
        found(None, position + 1)
    } else if tokens[position].token_type is Var && reached(tokens, position + 1, position + 1) {
        let declaration = variable_declaration(tokens, position + 1);
        match declaration.node {
            Some(s) => Parse {
                node: Some(Some(s)),
                next: declaration.next,
                reports: declaration.reports,
            },
            None => failed(declaration.next, declaration.reports),
        }
    } else {
        let statement = expression_statement(tokens, position);
        match statement.node {
            Some(s) => Parse {
                node: Some(Some(s)),
                next: statement.next,
                reports: statement.reports,
            },
            None => failed(statement.next, statement.reports),
        }
    }
}

/// The second clause of a `for` loop: expression? ";". Without an
/// expression the condition is the literal `true`.
pub open spec fn for_condition(tokens: Seq<TokenView>, position: int) -> Parse<ExpressionView> {
    if check(tokens, position, SEMICOLON) {
        found(ExpressionView::Literal { value: LiteralView::True }, position + 1)
    } else {
        closed_expression(tokens, position, SEMICOLON, "Expected ';' after loop condition."@)
    }
}

/// The third clause of a `for` loop: expression? ")"
pub open spec fn for_increment(tokens: Seq<TokenView>, position: int) -> Parse<
    Option<ExpressionView>,
> {
    if check(tokens, position, RIGHT_PAREN) {
        found(None, position + 1)
    } else {
        let value = closed_expression(
            tokens,
            position,
            RIGHT_PAREN,
            "Expected ')' after clauses."@,
        );
        match value.node {
            Some(e) => Parse { node: Some(Some(e)), next: value.next, reports: value.reports },
            None => failed(value.next, value.reports),
        }
    }
}

/// forStmt → "for" "(" ( varDecl | exprStmt | ";" ) expression? ";"
///           expression? ")" statement, after the "for"
#[verifier::opaque]
pub open spec fn for_statement(tokens: Seq<TokenView>, position: int) -> Parse<StatementView>
    decreases tokens.len() - position, 22nat,
{
    let open = expect(tokens, position, LEFT_PAREN, "Expected '(' after 'for'."@);
    match open.node {
        Some(_) if reached(tokens, position + 1, position + 1) => {
            let first = for_initializer(tokens, position + 1);
            match first.node {
                Some(initializer) if reached(tokens, position + 1, first.next) => {
                    let second = for_condition(tokens, first.next);
                    match second.node {
                        Some(condition) if reached(tokens, first.next, second.next) => {
                            let third = for_increment(tokens, second.next);
                            match third.node {
                                Some(increment) if reached(tokens, second.next, third.next) => {
                                    let body = statement(tokens, third.next);
                                    let reports = first.reports + second.reports + third.reports
                                        + body.reports;
                                    match body.node {
                                        Some(s) => Parse {
                                            node: Some(
                                                desugared_for(initializer, condition, increment, s),
                                            ),
                                            next: body.next,
                                            reports,
                                        },
                                        None => failed(body.next, reports),
                                    }
                                },
                                _ => failed(
                                    third.next,
                                    first.reports + second.reports + third.reports,
                                ),
                            }
                        },
                        _ => failed(second.next, first.reports + second.reports),
                    }
                },
                _ => failed(first.next, first.reports),
            }
        },
        _ => failed(open.next, open.reports),
    }
}

/// A condition in parentheses: "(" expression ")"
pub open spec fn condition(
    tokens: Seq<TokenView>,
    position: int,
    open_message: Seq<char>,
    close_message: Seq<char>,
) -> Parse<ExpressionView> {
    let open = expect(tokens, position, LEFT_PAREN, open_message);
    match open.node {
        Some(_) if reached(tokens, position + 1, position + 1) => closed_expression(
            tokens,
            position + 1,
            RIGHT_PAREN,
            close_message,
        ),
        _ => failed(open.next, open.reports),
    }
}

/// ifStmt → "if" "(" expression ")" statement ( "else" statement )?, after
/// the "if"
#[verifier::opaque]
pub open spec fn if_statement(tokens: Seq<TokenView>, position: int) -> Parse<StatementView>
    decreases tokens.len() - position, 22nat,
{
    let test = condition(
        tokens,
        position,
        "Expected '(' after 'if'."@,
        "Expected ')' after if condition."@,
    );
    match test.node {
        Some(c) if reached(tokens, position + 1, test.next) => {
            let first = statement(tokens, test.next);
            match first.node {
                Some(then_branch) if reached(tokens, test.next, first.next) => {
                    if tokens[first.next].token_type is Else && reached(
                        tokens,
                        first.next + 1,
                        first.next + 1,
                    ) {
                        let second = statement(tokens, first.next + 1);
                        let reports = test.reports + first.reports + second.reports;
                        match second.node {
                            Some(else_branch) => Parse {
                                node: Some(
                                    StatementView::If {
                                        condition: c,
                                        then_branch: Box::new(then_branch),
                                        else_branch: Some(Box::new(else_branch)),
                                    },
                                ),
                                next: second.next,
                                reports,
                            },
                            None => failed(second.next, reports),
                        }
                    } else {
                        Parse {
                            node: Some(
                                StatementView::If {
                                    condition: c,
                                    then_branch: Box::new(then_branch),
                                    else_branch: None,
                                },
                            ),
                            next: first.next,
                            reports: test.reports + first.reports,
                        }
                    }
                },
                _ => failed(first.next, test.reports + first.reports),
            }
        },
        _ => failed(test.next, test.reports),
    }
}

/// whileStmt → "while" "(" expression ")" statement, after the "while"
#[verifier::opaque]
pub open spec fn while_statement(tokens: Seq<TokenView>, position: int) -> Parse<StatementView>
    decreases tokens.len() - position, 22nat,
{
    let test = condition(
        tokens,
        position,
        "Expected '(' after 'while'."@,
        "Expected ')' after condition."@,
    );
    match test.node {
        Some(c) if reached(tokens, position + 1, test.next) => {
            let body = statement(tokens, test.next);
            match body.node {
                Some(s) => Parse {
                    node: Some(StatementView::While { condition: c, body: Box::new(s) }),
                    next: body.next,
                    reports: test.reports + body.reports,
                },
                None => failed(body.next, test.reports + body.reports),
            }
        },
        _ => failed(test.next, test.reports),
    }
}

/// The declarations of a block after those in `done`, up to its "}".
#[verifier::opaque]
pub open spec fn block_items(tokens: Seq<TokenView>, position: int, done: Seq<StatementView>)
    -> Parse<Seq<StatementView>>
    decreases tokens.len() - position, 25nat,
{
    if check(tokens, position, RIGHT_BRACE) || at_end(tokens, position) {
        found(done, position)
    } else {
        let item = declaration(tokens, position);
        match item.node {
            Some(s) if position < item.next < tokens.len() => after(
                item.reports,
                block_items(tokens, item.next, done.push(s)),
            ),
            _ => failed(item.next, item.reports),
        }
    }
}

/// block → "{" declaration* "}", after the "{"
#[verifier::opaque]
pub open spec fn block_statement(tokens: Seq<TokenView>, position: int) -> Parse<
    Seq<StatementView>,
>
    decreases tokens.len() - position, 26nat,
{
    let items = block_items(tokens, position, Seq::empty());
    match items.node {
        Some(statements) if reached(tokens, position, items.next) => {
            let close = expect(tokens, items.next, RIGHT_BRACE, "Expected '}' after block."@);
            match close.node {
                Some(_) => Parse {
                    node: Some(statements),
                    next: close.next,
                    reports: items.reports,
                },
                None => failed(close.next, items.reports + close.reports),
            }
        },
        _ => failed(items.next, items.reports),
    }
}

/// statement → exprStmt | forStmt | ifStmt | printStmt | returnStmt
///           | whileStmt | block
#[verifier::opaque]
pub open spec fn statement(tokens: Seq<TokenView>, position: int) -> Parse<StatementView>
    decreases tokens.len() - position, 23nat,
{
    let kind = tokens[position].token_type;
    if !reached(tokens, position + 1, position + 1) {
        expression_statement(tokens, position)
    } else if kind is For {
        for_statement(tokens, position + 1)
    } else if kind is If {
        if_statement(tokens, position + 1)
    } else if kind is Print {
        print_statement(tokens, position + 1)
    } else if kind is Return {
        return_statement(tokens, position + 1)
    } else if kind is While {
        while_statement(tokens, position + 1)
    } else if kind is LeftBrace {
        let block = block_statement(tokens, position + 1);
        match block.node {
            Some(statements) => Parse {
                node: Some(StatementView::Block { statements }),
                next: block.next,
                reports: block.reports,
            },
            None => failed(block.next, block.reports),
        }
    } else {
        expression_statement(tokens, position)
    }
}

/// The parameters of a function after those in `done`: names separated by
/// commas. More than 255 parameters are an error, and are kept.
#[verifier::opaque]
pub open spec fn parameters(tokens: Seq<TokenView>, position: int, done: Seq<TokenView>) -> Parse<
    Seq<TokenView>,
>
    decreases tokens.len() - position,
{
    let first: Seq<ReportView> = if done.len() >= 255 {
        seq![token_report(tokens[position], "Can't have more than 255 parameters."@)]
    } else {
        Seq::empty()
    };
    let name = expect(tokens, position, IDENTIFIER, "Expected parameter name."@);
    match name.node {
        Some(token) if reached(tokens, position + 1, position + 1) => {
            if check(tokens, position + 1, COMMA) && reached(tokens, position + 2, position + 2) {
                after(first, parameters(tokens, position + 2, done.push(token)))
            } else {
                Parse { node: Some(done.push(token)), next: position + 1, reports: first }
            }
        },
        _ => failed(name.next, first + name.reports),
    }
}

/// The head of a function: IDENT "(" params? ")" "{"
pub open spec fn function_head(tokens: Seq<TokenView>, position: int, kind: Seq<char>) -> Parse<
    (TokenView, Seq<TokenView>),
> {
    let name = expect(tokens, position, IDENTIFIER, "Expected "@ + kind + " name."@);
    match name.node {
        Some(token) if reached(tokens, position + 1, position + 1) => {
            let open = expect(
                tokens,
                position + 1,
                LEFT_PAREN,
                "Expected '(' after "@ + kind + " name."@,
            );
            match open.node {
                Some(_) if reached(tokens, position + 2, position + 2) => {
                    let list = if check(tokens, position + 2, RIGHT_PAREN) {
                        found(Seq::empty(), position + 2)
                    } else {
                        parameters(tokens, position + 2, Seq::empty())
                    };
                    match list.node {
                        Some(names) if reached(tokens, position + 2, list.next) => {
                            let close = expect(
                                tokens,
                                list.next,
                                RIGHT_PAREN,
                                "Expected ')' after parameters."@,
                            );
                            match close.node {
                                Some(_) if reached(tokens, close.next, close.next) => {
                                    let brace = expect(
                                        tokens,
                                        close.next,
                                        LEFT_BRACE,
                                        "Expected '{' before "@ + kind + " body."@,
                                    );
                                    match brace.node {
                                        Some(_) => Parse {
                                            node: Some((token, names)),
                                            next: brace.next,
                                            reports: list.reports,
                                        },
                                        None => failed(brace.next, list.reports + brace.reports),
                                    }
                                },
                                _ => failed(close.next, list.reports + close.reports),
                            }
                        },
                        _ => failed(list.next, list.reports),
                    }
                },
                _ => failed(open.next, open.reports),
            }
        },
        _ => failed(name.next, name.reports),
    }
}

/// function → IDENT "(" params? ")" block
#[verifier::opaque]
pub open spec fn function(tokens: Seq<TokenView>, position: int, kind: Seq<char>) -> Parse<
    StatementView,
>
    decreases tokens.len() - position, 27nat,
{
    let head = function_head(tokens, position, kind);
    match head.node {
        Some((name, params)) if position < head.next < tokens.len() => {
            let body = block_statement(tokens, head.next);
            match body.node {
                Some(statements) => Parse {
                    node: Some(StatementView::Function { name, params, body: statements }),
                    next: body.next,
                    reports: head.reports + body.reports,
                },
                None => failed(body.next, head.reports + body.reports),
            }
        },
        _ => failed(head.next, head.reports),
    }
}

/// The methods of a class after those in `done`, up to its "}".
#[verifier::opaque]
pub open spec fn class_methods(tokens: Seq<TokenView>, position: int, done: Seq<StatementView>)
    -> Parse<Seq<StatementView>>
    decreases tokens.len() - position, 28nat,
{
    if check(tokens, position, RIGHT_BRACE) || at_end(tokens, position) {
        found(done, position)
    } else {
        let method = function(tokens, position, "method"@);
        match method.node {
            Some(s) if position < method.next < tokens.len() => after(
                method.reports,
                class_methods(tokens, method.next, done.push(s)),
            ),
            _ => failed(method.next, method.reports),
        }
    }
}

/// classDecl → "class" IDENT "{" function* "}", after the "class"
#[verifier::opaque]
pub open spec fn class_declaration(tokens: Seq<TokenView>, position: int) -> Parse<StatementView>
    decreases tokens.len() - position, 29nat,
{
    let name = expect(tokens, position, IDENTIFIER, "Expected class name."@);
    match name.node {
        Some(token) if reached(tokens, position + 1, position + 1) => {
            let open = expect(
                tokens,
                position + 1,
                LEFT_BRACE,
                "Expected '{' before class body."@,
            );
            match open.node {
                Some(_) if reached(tokens, position + 2, position + 2) => {
                    let list = class_methods(tokens, position + 2, Seq::empty());
                    match list.node {
                        Some(methods) if reached(tokens, position + 2, list.next) => {
                            let close = expect(
                                tokens,
                                list.next,
                                RIGHT_BRACE,
                                "Expected '}' after class body."@,
                            );
                            match close.node {
                                Some(_) => Parse {
                                    node: Some(StatementView::Class { name: token, methods }),
                                    next: close.next,
                                    reports: list.reports,
                                },
                                None => failed(close.next, list.reports + close.reports),
                            }
                        },
                        _ => failed(list.next, list.reports),
                    }
                },
                _ => failed(open.next, open.reports),
            }
        },
        _ => failed(name.next, name.reports),
    }
}

/// Whether a token can start a statement after an error.
pub open spec fn starts_statement(kind: TypeView) -> bool {
    kind is Class || kind is Fun || kind is Var || kind is For || kind is If || kind is While
        || kind is Print || kind is Return
}

/// Passing over tokens until the last one passed is a ";" or the next one
/// starts a statement, or the end is reached.
#[verifier::opaque]
pub open spec fn resume_at(tokens: Seq<TokenView>, position: int) -> int
    decreases tokens.len() - position,
{
    if !(0 < position < tokens.len()) || at_end(tokens, position) || tokens[position
        - 1].token_type is Semicolon || starts_statement(tokens[position].token_type) {
        position
    } else {
        resume_at(tokens, position + 1)
    }
}

/// Where parsing goes on after an error at a position: one token is passed,
/// then the tokens up to a place where a statement can start.
pub open spec fn synchronize(tokens: Seq<TokenView>, position: int) -> int {
    resume_at(tokens, advance(tokens, position))
}

/// What a declaration is, before recovery from an error:
/// classDecl | funDecl | varDecl | statement
#[verifier::opaque]
pub open spec fn declared(tokens: Seq<TokenView>, position: int) -> Parse<StatementView>
    decreases tokens.len() - position, 24nat, 0nat,
{
    let kind = tokens[position].token_type;
    if !reached(tokens, position + 1, position + 1) {
        statement(tokens, position)
    } else if kind is Class {
        class_declaration(tokens, position + 1)
    } else if kind is Fun {
        function(tokens, position + 1, "function"@)
    } else if kind is Var {
        variable_declaration(tokens, position + 1)
    } else {
        statement(tokens, position)
    }
}

/// declaration → classDecl | funDecl | varDecl | statement
///
/// After an error the tokens up to the next place where a statement can
/// start are passed over.
#[verifier::opaque]
pub open spec fn declaration(tokens: Seq<TokenView>, position: int) -> Parse<StatementView>
    decreases tokens.len() - position, 24nat, 1nat,
{
    let parsed = declared(tokens, position);
    match parsed.node {
        Some(_) => parsed,
        None => failed(synchronize(tokens, parsed.next), parsed.reports),
    }
}

/// The declarations of a program after those in `done`, up to the end of
/// the tokens. A declaration with an error is left out.
#[verifier::opaque]
pub open spec fn program_items(tokens: Seq<TokenView>, position: int, done: Seq<StatementView>)
    -> Parse<Seq<StatementView>>
    decreases tokens.len() - position, 30nat,
{
    if at_end(tokens, position) {
        found(done, position)
    } else {
        let item = declaration(tokens, position);
        if position < item.next < tokens.len() {
            after(
                item.reports,
                program_items(
                    tokens,
                    item.next,
                    match item.node {
                        Some(s) => done.push(s),
                        None => done,
                    },
                ),
            )
        } else {
            Parse { node: Some(done), next: item.next, reports: item.reports }
        }
    }
}

/// program → declaration* EOF
pub open spec fn program(tokens: Seq<TokenView>) -> Parse<Seq<StatementView>> {
    program_items(tokens, 0, Seq::empty())
}

/// Parsing a program always yields statements, and ends at the token that
/// marks the end, where the last token is such a token.
pub proof fn lemma_program_yields(tokens: Seq<TokenView>, position: int, done: Seq<StatementView>)
    requires
        0 <= position < tokens.len(),
        tokens.last().token_type is EOF,
    ensures
        program_items(tokens, position, done).node is Some,
    decreases tokens.len() - position,
{
    reveal(program_items);
    if !at_end(tokens, position) {
        let item = declaration(tokens, position);
        if position < item.next < tokens.len() {
            lemma_program_yields(
                tokens,
                item.next,
                match item.node {
                    Some(s) => done.push(s),
                    None => done,
                },
            );
        }
    }
}

/// A `for` loop that parses is parsed into the statements that it stands
/// for, whatever its clauses and its body are: it has no syntax of its own,
/// and means what its block and `while` loop mean.
pub proof fn lemma_for_is_its_desugaring(tokens: Seq<TokenView>, position: int)
    requires
        for_statement(tokens, position).node is Some,
    ensures
        ({
            let first = for_initializer(tokens, position + 1);
            let second = for_condition(tokens, first.next);
            let third = for_increment(tokens, second.next);
            let body = statement(tokens, third.next);
            &&& first.node is Some
            &&& second.node is Some
            &&& third.node is Some
            &&& body.node is Some
            &&& for_statement(tokens, position).node == Some(
                desugared_for(first.node->0, second.node->0, third.node->0, body.node->0),
            )
        }),
{
    reveal(for_statement);
    reveal(statement);
}

/// The statements of a `for` loop without clauses: a `while` loop on the
/// literal `true`, around the body.
pub proof fn lemma_for_without_clauses(body: StatementView)
    ensures
        desugared_for(None, ExpressionView::Literal { value: LiteralView::True }, None, body)
            == (StatementView::While {
            condition: ExpressionView::Literal { value: LiteralView::True },
            body: Box::new(body),
        }),
{
}

} // verus!
