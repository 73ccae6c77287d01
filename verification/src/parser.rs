//! The parser: from tokens to statements.

use std::rc::Rc;
use vstd::prelude::*;
use crate::error_reporter::{
    lemma_with_concat,
    lemma_with_none,
    lemma_with_one,
    token_report,
    ErrorReporter,
    ErrorReporterView,
    ReportView,
};
use crate::expression::{expression_views, expression_well_formed, Expression, ExpressionView};
use crate::grammar::{
    advance,
    after,
    arguments,
    assigned,
    assignment,
    at_end,
    binary,
    binary_rest,
    call,
    call_rest,
    check,
    expect,
    expression,
    finish_call,
    found,
    joined,
    level_of,
    operand,
    primary,
    reached,
    unary,
    Parse,
    COMMA,
    DOT,
    EQUAL,
    IDENTIFIER,
    LEFT_PAREN,
    RIGHT_PAREN,
};
use crate::grammar::{
    block_items,
    block_statement,
    closed_expression,
    condition,
    declaration,
    expression_statement,
    for_condition,
    for_increment,
    for_initializer,
    for_statement,
    if_statement,
    print_statement,
    return_statement,
    statement,
    variable_declaration,
    while_statement,
    LEFT_BRACE,
    RIGHT_BRACE,
    SEMICOLON,
};
use crate::grammar::{
    class_declaration,
    class_methods,
    declared,
    function,
    function_head,
    parameters,
    program_items,
    resume_at,
    synchronize,
};
use crate::text::join3;
use crate::statement::{
    program_view,
    statement_views,
    statement_well_formed,
    statements_well_formed,
    Statement,
    StatementView,
};
use crate::token::{tokens_view, Literal, Token, TokenView, Type};
use crate::util::MAXIMUM_PARAMETER_COUNT;

verus! {

/// The parser: the tokens, and the position of the next token to read.
pub struct Parser {
    tokens: Vec<Token>,
    current: usize,
}

/// The number of the kind `else`.
pub const ELSE: u8 = 24;

/// The number of the kind `for`.
pub const FOR: u8 = 27;

/// The number of the kind `if`.
pub const IF: u8 = 28;

/// The number of the kind `print`.
pub const PRINT: u8 = 31;

/// The number of the kind `return`.
pub const RETURN: u8 = 32;

/// The number of the kind `var`.
pub const VAR: u8 = 36;

/// The number of the kind `while`.
pub const WHILE: u8 = 37;

/// The number of the kind `class`.
pub const CLASS: u8 = 23;

/// The number of the kind `fun`.
pub const FUN: u8 = 26;

/// Whether a production has yielded what the grammar says: the syntax, the
/// position reached, and the errors reported.
pub open spec fn yields<T>(
    parse: Parse<T>,
    node: Option<T>,
    next: int,
    before: ErrorReporterView,
    after: ErrorReporterView,
) -> bool {
    &&& parse.node == node
    &&& parse.next == next
    &&& after == before.with_all(parse.reports)
}

/// The view of an expression that may be absent.
pub open spec fn expression_option(expression: Option<Expression>) -> Option<ExpressionView> {
    match expression {
        Some(e) => Some(e@),
        None => None,
    }
}

/// The view of a token that may be absent.
pub open spec fn token_option(token: Option<Token>) -> Option<TokenView> {
    match token {
        Some(t) => Some(t@),
        None => None,
    }
}

impl Parser {
    /// The tokens that this parser reads.
    pub closed spec fn tokens(&self) -> Seq<TokenView> {
        tokens_view(self.tokens@)
    }

    /// The position of the next token to read.
    pub closed spec fn position(&self) -> int {
        self.current as int
    }

    /// Whether the parser is well formed: the last token marks the end, and
    /// the position is the position of a token.
    pub closed spec fn wf(&self) -> bool {
        &&& self.tokens@.len() > 0
        &&& self.tokens@.last()@.token_type is EOF
        &&& self.current < self.tokens@.len()
    }

    /// Whether this parser is a later state of another: it reads the same
    /// tokens and has not gone back.
    pub open spec fn follows(&self, earlier: &Parser) -> bool {
        &&& self.wf()
        &&& self.tokens() == earlier.tokens()
        &&& reached(self.tokens(), earlier.position(), self.position())
    }

    /// A parser at the first of the tokens, the last of which marks the end.
    pub fn new(tokens: Vec<Token>) -> (parser: Parser)
        requires
            tokens@.len() > 0,
            tokens@.last()@.token_type is EOF,
        ensures
            parser.wf(),
            parser.tokens() == tokens_view(tokens@),
            parser.position() == 0,
    {
        Parser { tokens, current: 0 }
    }

    fn peek(&self) -> (token: &Token)
        requires
            self.wf(),
        ensures
            token@ == self.tokens()[self.position()],
    {
        &self.tokens[self.current]
    }

    fn previous(&self) -> (token: &Token)
        requires
            self.wf(),
            self.position() > 0,
        ensures
            token@ == self.tokens()[self.position() - 1],
    {
        &self.tokens[self.current - 1]
    }

    fn is_at_end(&self) -> (end: bool)
        requires
            self.wf(),
        ensures
            end == at_end(self.tokens(), self.position()),
            !end ==> reached(self.tokens(), self.position() + 1, self.position() + 1),
    {
        proof {
            assert(self.tokens()[self.tokens@.len() - 1] == self.tokens@.last()@);
        }
        match self.peek().token_type() {
            Type::EOF => true,
            _ => false,
        }
    }

    fn check(&self, tag: u8) -> (same: bool)
        requires
            self.wf(),
        ensures
            same == check(self.tokens(), self.position(), tag),
            same && tag != 38 ==> reached(self.tokens(), self.position() + 1, self.position() + 1),
    {
        proof {
            assert(self.tokens()[self.tokens@.len() - 1] == self.tokens@.last()@);
        }
        self.peek().token_type().tag() == tag
    }

    fn advance(&mut self)
        requires
            old(self).wf(),
        ensures
            final(self).follows(old(self)),
            final(self).position() == advance(old(self).tokens(), old(self).position()),
    {
        assert(self.tokens.len() <= usize::MAX);
        if !self.is_at_end() {
            self.current += 1;
        }
    }

    /// Passes the token at the current position, which does not mark the end.
    fn pass(&mut self)
        requires
            old(self).wf(),
            reached(old(self).tokens(), old(self).position() + 1, old(self).position() + 1),
        ensures
            final(self).follows(old(self)),
            final(self).position() == old(self).position() + 1,
    {
        assert(self.tokens.len() <= usize::MAX);
        self.current += 1;
    }

    fn match_tag(&mut self, tag: u8) -> (matched: bool)
        requires
            old(self).wf(),
            tag != 38,
        ensures
            final(self).follows(old(self)),
            matched == check(old(self).tokens(), old(self).position(), tag),
            final(self).position() == (if matched {
                old(self).position() + 1
            } else {
                old(self).position()
            }),
    {
        assert(self.tokens.len() <= usize::MAX);
        if self.check(tag) {
            self.current += 1;
            true
        } else {
            false
        }
    }

    fn consume(&mut self, tag: u8, message: &str, reporter: &mut ErrorReporter) -> (token: Option<
        Token,
    >)
        requires
            old(self).wf(),
            tag != 38,
        ensures
            final(self).follows(old(self)),
            yields(
                expect(old(self).tokens(), old(self).position(), tag, message@),
                token_option(token),
                final(self).position(),
                old(reporter)@,
                final(reporter)@,
            ),
    {
        assert(self.tokens.len() <= usize::MAX);
        if self.check(tag) {
            let token = self.peek().duplicate();
            self.current += 1;
            proof {
                lemma_with_none(reporter@);
            }
            Some(token)
        } else {
            proof {
                lemma_with_one(
                    reporter@,
                    token_report(self.tokens()[self.position()], message@),
                );
            }
            reporter.error_on_token(self.peek(), message);
            None
        }
    }

    /// The level of the operator at the current position, if an operator
    /// between two operands stands there.
    fn level_here(&self) -> (level: Option<u8>)
        requires
            self.wf(),
        ensures
            match level {
                Some(l) => level_of(self.tokens()[self.position()].token_type) == Some(l as nat),
                None => level_of(self.tokens()[self.position()].token_type) is None,
            },
            level is Some ==> reached(self.tokens(), self.position() + 1, self.position() + 1),
    {
        proof {
            assert(self.tokens()[self.tokens@.len() - 1] == self.tokens@.last()@);
        }
        match self.peek().token_type() {
            Type::Slash | Type::Star => Some(0),
            Type::Minus | Type::Plus => Some(1),
            Type::Greater | Type::GreaterEqual | Type::Less | Type::LessEqual => Some(2),
            Type::BangEqual | Type::EqualEqual => Some(3),
            Type::And => Some(4),
            Type::Or => Some(5),
            _ => None,
        }
    }

    #[verifier::spinoff_prover]
    fn primary(&mut self, reporter: &mut ErrorReporter) -> (result: Option<Expression>)
        requires
            old(self).wf(),
        ensures
            final(self).follows(old(self)),
            yields(
                primary(old(self).tokens(), old(self).position()),
                expression_option(result),
                final(self).position(),
                old(reporter)@,
                final(reporter)@,
            ),
            result matches Some(e) ==> expression_well_formed(e@) && final(self).position()
                > old(self).position(),
        decreases old(self).tokens@.len() - old(self).current, 0nat,
    {
        reveal(primary);
        reveal(expression);
        let ghost begin = reporter@;
        let ghost tokens = self.tokens();
        let ghost start = self.position();
        proof {
            lemma_with_none(begin);
            assert(self.tokens()[self.tokens@.len() - 1] == self.tokens@.last()@);
        }
        let token = self.peek().duplicate();
        match token.token_type() {
            Type::False | Type::True | Type::Nil | Type::Number(_) | Type::String(_) => {
                self.pass();
                Some(Expression::Literal { value: token.token_type().duplicate().to_value() })
            },
            Type::This => {
                self.pass();
                Some(Expression::This { keyword: token, depth: None })
            },
            Type::Identifier => {
                self.pass();
                Some(Expression::Variable { name: token, depth: None })
            },
            Type::LeftParen => {
                self.pass();
                let inner = self.expression(reporter);
                match inner {
                    Some(e) => {
                        let ghost spec = expression(tokens, start + 1);
                        let close = self.consume(
                            RIGHT_PAREN,
                            "Expected ')' after expression.",
                            reporter,
                        );
                        proof {
                            lemma_with_concat(
                                begin,
                                spec.reports,
                                expect(
                                    tokens,
                                    spec.next,
                                    RIGHT_PAREN,
                                    "Expected ')' after expression."@,
                                ).reports,
                            );
                            assert(spec.reports + Seq::<ReportView>::empty() =~= spec.reports);
                        }
                        match close {
                            Some(_) => Some(Expression::Grouping { expression: Rc::new(e) }),
                            None => None,
                        }
                    },
                    None => None,
                }
            },
            _ => {
                proof {
                    lemma_with_one(begin, token_report(token@, "Expected expression."@));
                }
                reporter.error_on_token(&token, "Expected expression.");
                None
            },
        }
    }

    #[verifier::spinoff_prover]
    fn finish_call(&mut self, callee: Expression, reporter: &mut ErrorReporter) -> (result: Option<
        Expression,
    >)
        requires
            old(self).wf(),
            expression_well_formed(callee@),
        ensures
            final(self).follows(old(self)),
            yields(
                finish_call(old(self).tokens(), old(self).position(), callee@),
                expression_option(result),
                final(self).position(),
                old(reporter)@,
                final(reporter)@,
            ),
            result matches Some(e) ==> expression_well_formed(e@),
        decreases old(self).tokens@.len() - old(self).current, 19nat,
    {
        reveal(finish_call);
        reveal(arguments);
        reveal(expression);
        let ghost begin = reporter@;
        let ghost tokens = self.tokens();
        let ghost start = self.position();
        let mut list: Vec<Rc<Expression>> = Vec::new();
        let mut more = !self.check(RIGHT_PAREN);
        let ghost mut reported: Seq<ReportView> = Seq::empty();
        let ghost target = if check(tokens, start, RIGHT_PAREN) {
            found(Seq::<ExpressionView>::empty(), start)
        } else {
            arguments(tokens, start, Seq::empty())
        };
        proof {
            lemma_with_none(begin);
            assert(expression_views(list@) =~= Seq::<ExpressionView>::empty());
            assert(reported + target.reports =~= target.reports);
        }
        while more
            invariant
                self.follows(old(self)),
                tokens == self.tokens(),
                start == old(self).position(),
                begin == old(reporter)@,
                target == (if check(tokens, start, RIGHT_PAREN) {
                    found(Seq::<ExpressionView>::empty(), start)
                } else {
                    arguments(tokens, start, Seq::empty())
                }),
                reporter@ == begin.with_all(reported),
                forall|i: int|
                    0 <= i < list@.len() ==> expression_well_formed((#[trigger] list@[i])@),
                more ==> target == after(
                    reported,
                    arguments(tokens, self.position(), expression_views(list@)),
                ),
                !more ==> target == (Parse {
                    node: Some(expression_views(list@)),
                    next: self.position(),
                    reports: reported,
                }),
            decreases self.tokens@.len() - self.current, (if more { 1nat } else { 0nat }),
        {
            reveal(finish_call);
            reveal(arguments);
            reveal(expression);
            let ghost here = self.position();
            let ghost done = expression_views(list@);
            let ghost first: Seq<ReportView> = if done.len() >= 255 {
                seq![token_report(tokens[here], "Can't have more than 255 arguments."@)]
            } else {
                Seq::empty()
            };
            proof {
                lemma_with_none(reporter@);
            }
            if list.len() >= MAXIMUM_PARAMETER_COUNT {
                proof {
                    lemma_with_one(
                        reporter@,
                        token_report(tokens[here], "Can't have more than 255 arguments."@),
                    );
                }
                reporter.error_on_token(self.peek(), "Can't have more than 255 arguments.");
            }
            proof {
                lemma_with_concat(begin, reported, first);
            }
            let argument = self.expression(reporter);
            let ghost spec = expression(tokens, here);
            proof {
                lemma_with_concat(begin, reported + first, spec.reports);
                assert((reported + first) + spec.reports =~= reported + (first + spec.reports));
            }
            match argument {
                Some(e) => {
                    list.push(Rc::new(e));
                    proof {
                        assert(expression_views(list@) =~= done.push(e@));
                    }
                    more = self.match_tag(COMMA);
                    proof {
                        if more {
                            let rest = arguments(tokens, spec.next + 1, done.push(e@));
                            assert(reported + (first + spec.reports + rest.reports) =~= (reported
                                + (first + spec.reports)) + rest.reports);
                        }
                        reported = reported + (first + spec.reports);
                    }
                },
                None => {
                    return None;
                },
            }
        }
        let paren = self.consume(RIGHT_PAREN, "Expected ')' after arguments.", reporter);
        proof {
            lemma_with_concat(
                begin,
                reported,
                expect(tokens, target.next, RIGHT_PAREN, "Expected ')' after arguments."@).reports,
            );
            assert(reported + Seq::<ReportView>::empty() =~= reported);
        }
        match paren {
            Some(token) => {
                let result = Expression::Call {
                    callee: Rc::new(callee),
                    paren: token,
                    arguments: Rc::new(list),
                };
                proof {
                    assert(result@->Call_arguments =~= expression_views(list@));
                }
                Some(result)
            },
            None => None,
        }
    }

    #[verifier::spinoff_prover]
    fn call(&mut self, reporter: &mut ErrorReporter) -> (result: Option<Expression>)
        requires
            old(self).wf(),
        ensures
            final(self).follows(old(self)),
            yields(
                call(old(self).tokens(), old(self).position()),
                expression_option(result),
                final(self).position(),
                old(reporter)@,
                final(reporter)@,
            ),
            result matches Some(e) ==> expression_well_formed(e@),
        decreases old(self).tokens@.len() - old(self).current, 2nat,
    {
        reveal(call);
        reveal(call_rest);
        reveal(primary);
        reveal(finish_call);
        let ghost begin = reporter@;
        let ghost tokens = self.tokens();
        let ghost start = self.position();
        let first = self.primary(reporter);
        let mut callee = match first {
            Some(e) => e,
            None => {
                return None;
            },
        };
        let ghost target = call(tokens, start);
        let ghost mut reported: Seq<ReportView> = primary(tokens, start).reports;
        loop
            invariant
                self.follows(old(self)),
                tokens == self.tokens(),
                start == old(self).position(),
                self.position() > start,
                expression_well_formed(callee@),
                begin == old(reporter)@,
                target == call(tokens, start),
                reporter@ == begin.with_all(reported),
                target == after(reported, call_rest(tokens, self.position(), callee@)),
            decreases self.tokens@.len() - self.current,
        {
            reveal(call_rest);
            reveal(finish_call);
            let ghost here = self.position();
            if self.match_tag(LEFT_PAREN) {
                let ghost spec = finish_call(tokens, here + 1, callee@);
                let next = self.finish_call(callee, reporter);
                proof {
                    lemma_with_concat(begin, reported, spec.reports);
                }
                match next {
                    Some(e) => {
                        proof {
                            let rest = call_rest(tokens, spec.next, e@);
                            assert(reported + (spec.reports + rest.reports) =~= (reported
                                + spec.reports) + rest.reports);
                            reported = reported + spec.reports;
                        }
                        callee = e;
                    },
                    None => {
                        return None;
                    },
                }
            } else if self.match_tag(DOT) {
                let ghost spec = expect(
                    tokens,
                    here + 1,
                    IDENTIFIER,
                    "Expected property name after '.'."@,
                );
                let name = self.consume(IDENTIFIER, "Expected property name after '.'.", reporter);
                proof {
                    lemma_with_concat(begin, reported, spec.reports);
                    assert(self.tokens()[self.tokens@.len() - 1] == self.tokens@.last()@);
                }
                match name {
                    Some(token) => {
                        proof {
                            assert(reported + spec.reports =~= reported);
                        }
                        callee = Expression::Get { object: Rc::new(callee), name: token };
                    },
                    None => {
                        return None;
                    },
                }
            } else {
                proof {
                    assert(reported + Seq::<ReportView>::empty() =~= reported);
                }
                return Some(callee);
            }
        }
    }

    #[verifier::spinoff_prover]
    fn unary(&mut self, reporter: &mut ErrorReporter) -> (result: Option<Expression>)
        requires
            old(self).wf(),
        ensures
            final(self).follows(old(self)),
            yields(
                unary(old(self).tokens(), old(self).position()),
                expression_option(result),
                final(self).position(),
                old(reporter)@,
                final(reporter)@,
            ),
            result matches Some(e) ==> expression_well_formed(e@),
        decreases old(self).tokens@.len() - old(self).current, 3nat,
    {
        reveal(unary);
        reveal(call);
        proof {
            assert(self.tokens()[self.tokens@.len() - 1] == self.tokens@.last()@);
        }
        let token = self.peek().duplicate();
        match token.token_type() {
            Type::Bang | Type::Minus => {
                self.pass();
                match self.unary(reporter) {
                    Some(right) => Some(Expression::Unary { operator: token, right: Rc::new(right) }),
                    None => None,
                }
            },
            _ => self.call(reporter),
        }
    }

    fn operand(&mut self, level: u8, reporter: &mut ErrorReporter) -> (result: Option<Expression>)
        requires
            old(self).wf(),
            level <= 5,
        ensures
            final(self).follows(old(self)),
            yields(
                operand(old(self).tokens(), old(self).position(), level as nat),
                expression_option(result),
                final(self).position(),
                old(reporter)@,
                final(reporter)@,
            ),
            result matches Some(e) ==> expression_well_formed(e@),
        decreases old(self).tokens@.len() - old(self).current, 4 + 2 * level, 1nat,
    {
        reveal(operand);
        reveal(unary);
        reveal(binary);
        if level == 0 {
            self.unary(reporter)
        } else {
            self.binary(level - 1, reporter)
        }
    }

    /// Parses an expression of the operators of a level.
    #[verifier::spinoff_prover]
    fn binary(&mut self, level: u8, reporter: &mut ErrorReporter) -> (result: Option<Expression>)
        requires
            old(self).wf(),
            level <= 5,
        ensures
            final(self).follows(old(self)),
            yields(
                binary(old(self).tokens(), old(self).position(), level as nat),
                expression_option(result),
                final(self).position(),
                old(reporter)@,
                final(reporter)@,
            ),
            result matches Some(e) ==> expression_well_formed(e@),
        decreases old(self).tokens@.len() - old(self).current, 5 + 2 * level, 0nat,
    {
        reveal(binary);
        reveal(binary_rest);
        reveal(operand);
        let ghost begin = reporter@;
        let ghost tokens = self.tokens();
        let ghost start = self.position();
        let first = self.operand(level, reporter);
        let mut left = match first {
            Some(e) => e,
            None => {
                return None;
            },
        };
        let ghost target = binary(tokens, start, level as nat);
        let ghost mut reported: Seq<ReportView> = operand(tokens, start, level as nat).reports;
        loop
            invariant
                self.follows(old(self)),
                tokens == self.tokens(),
                start == old(self).position(),
                level <= 5,
                expression_well_formed(left@),
                begin == old(reporter)@,
                target == binary(tokens, start, level as nat),
                reporter@ == begin.with_all(reported),
                target == after(
                    reported,
                    binary_rest(tokens, self.position(), level as nat, left@),
                ),
            decreases self.tokens@.len() - self.current,
        {
            reveal(binary_rest);
            reveal(operand);
            let ghost here = self.position();
            let found_level = self.level_here();
            let same = match found_level {
                Some(l) => l == level,
                None => false,
            };
            if !same {
                proof {
                    assert(reported + Seq::<ReportView>::empty() =~= reported);
                }
                return Some(left);
            }
            let operator = self.peek().duplicate();
            self.pass();
            let ghost spec = operand(tokens, here + 1, level as nat);
            let right = self.operand(level, reporter);
            proof {
                lemma_with_concat(begin, reported, spec.reports);
            }
            match right {
                Some(r) => {
                    proof {
                        let rest = binary_rest(
                            tokens,
                            spec.next,
                            level as nat,
                            joined(level as nat, left@, operator@, r@),
                        );
                        assert(reported + (spec.reports + rest.reports) =~= (reported
                            + spec.reports) + rest.reports);
                        reported = reported + spec.reports;
                    }
                    left = if level >= 4 {
                        Expression::Logical { left: Rc::new(left), operator, right: Rc::new(r) }
                    } else {
                        Expression::Binary { left: Rc::new(left), operator, right: Rc::new(r) }
                    };
                },
                None => {
                    return None;
                },
            }
        }
    }

    #[verifier::spinoff_prover]
    fn assignment(&mut self, reporter: &mut ErrorReporter) -> (result: Option<Expression>)
        requires
            old(self).wf(),
        ensures
            final(self).follows(old(self)),
            yields(
                assignment(old(self).tokens(), old(self).position()),
                expression_option(result),
                final(self).position(),
                old(reporter)@,
                final(reporter)@,
            ),
            result matches Some(e) ==> expression_well_formed(e@),
        decreases old(self).tokens@.len() - old(self).current, 16nat,
    {
        reveal(assignment);
        reveal(binary);
        let ghost begin = reporter@;
        let ghost tokens = self.tokens();
        let ghost start = self.position();
        let target = match self.binary(5, reporter) {
            Some(e) => e,
            None => {
                return None;
            },
        };
        let ghost first = binary(tokens, start, 5);
        if self.check(EQUAL) {
            let equals = self.peek().duplicate();
            self.pass();
            let ghost second = assignment(tokens, first.next + 1);
            let value = match self.assignment(reporter) {
                Some(v) => v,
                None => {
                    proof {
                        lemma_with_concat(begin, first.reports, second.reports);
                    }
                    return None;
                },
            };
            proof {
                lemma_with_concat(begin, first.reports, second.reports);
                let outcome = assigned(target@, equals@, value@);
                lemma_with_concat(begin, first.reports + second.reports, outcome.1);
                lemma_with_none(reporter@);
            }
            match target {
                Expression::Variable { name, depth } => Some(
                    Expression::Assignment { name, value: Rc::new(value), depth },
                ),
                Expression::Get { object, name } => Some(
                    Expression::SetProperty { object, name, value: Rc::new(value) },
                ),
                other => {
                    proof {
                        lemma_with_one(
                            reporter@,
                            token_report(equals@, "Invalid assignment target."@),
                        );
                    }
                    reporter.error_on_token(&equals, "Invalid assignment target.");
                    Some(other)
                },
            }
        } else {
            Some(target)
        }
    }

    fn expression(&mut self, reporter: &mut ErrorReporter) -> (result: Option<Expression>)
        requires
            old(self).wf(),
        ensures
            final(self).follows(old(self)),
            yields(
                expression(old(self).tokens(), old(self).position()),
                expression_option(result),
                final(self).position(),
                old(reporter)@,
                final(reporter)@,
            ),
            result matches Some(e) ==> expression_well_formed(e@),
        decreases old(self).tokens@.len() - old(self).current, 17nat,
    {
        reveal(expression);
        reveal(assignment);
        self.assignment(reporter)
    }
}

/// The view of a statement that may be absent.
pub open spec fn statement_option(statement: Option<Statement>) -> Option<StatementView> {
    match statement {
        Some(s) => Some(s@),
        None => None,
    }
}

/// The views of a list of statements that may be absent.
pub open spec fn statements_option(list: Option<Vec<Rc<Statement>>>) -> Option<
    Seq<StatementView>,
> {
    match list {
        Some(l) => Some(statement_views(l@)),
        None => None,
    }
}

/// A block of two statements.
fn pair(first: Statement, second: Statement) -> (block: Statement)
    ensures
        block@ == (StatementView::Block { statements: seq![first@, second@] }),
        statement_well_formed(first@) && statement_well_formed(second@) ==> statement_well_formed(
            block@,
        ),
{
    let mut statements: Vec<Rc<Statement>> = Vec::new();
    statements.push(Rc::new(first));
    statements.push(Rc::new(second));
    let block = Statement::Block { statements: Rc::new(statements) };
    proof {
        assert(block@->statements =~= seq![first@, second@]);
    }
    block
}

impl Parser {
    fn closed_expression(&mut self, tag: u8, message: &str, reporter: &mut ErrorReporter) -> (result:
        Option<Expression>)
        requires
            old(self).wf(),
            tag != 38,
        ensures
            final(self).follows(old(self)),
            yields(
                closed_expression(old(self).tokens(), old(self).position(), tag, message@),
                expression_option(result),
                final(self).position(),
                old(reporter)@,
                final(reporter)@,
            ),
            result matches Some(e) ==> expression_well_formed(e@) && final(self).position()
                > old(self).position(),
    {
        let ghost begin = reporter@;
        let ghost tokens = self.tokens();
        let ghost start = self.position();
        let value = match self.expression(reporter) {
            Some(e) => e,
            None => {
                return None;
            },
        };
        let ghost spec = expression(tokens, start);
        let close = self.consume(tag, message, reporter);
        proof {
            lemma_with_concat(begin, spec.reports, expect(tokens, spec.next, tag, message@).reports);
            assert(spec.reports + Seq::<ReportView>::empty() =~= spec.reports);
        }
        match close {
            Some(_) => Some(value),
            None => None,
        }
    }

    fn expression_statement(&mut self, reporter: &mut ErrorReporter) -> (result: Option<Statement>)
        requires
            old(self).wf(),
        ensures
            final(self).follows(old(self)),
            yields(
                expression_statement(old(self).tokens(), old(self).position()),
                statement_option(result),
                final(self).position(),
                old(reporter)@,
                final(reporter)@,
            ),
            result matches Some(s) ==> statement_well_formed(s@) && final(self).position()
                > old(self).position(),
    {
        match self.closed_expression(SEMICOLON, "Expected ';' after expression.", reporter) {
            Some(e) => Some(Statement::Expression { expression: Rc::new(e) }),
            None => None,
        }
    }

    fn print_statement(&mut self, reporter: &mut ErrorReporter) -> (result: Option<Statement>)
        requires
            old(self).wf(),
        ensures
            final(self).follows(old(self)),
            yields(
                print_statement(old(self).tokens(), old(self).position()),
                statement_option(result),
                final(self).position(),
                old(reporter)@,
                final(reporter)@,
            ),
            result matches Some(s) ==> statement_well_formed(s@),
    {
        match self.closed_expression(SEMICOLON, "Expected ';' after value.", reporter) {
            Some(e) => Some(Statement::Print { expression: Rc::new(e) }),
            None => None,
        }
    }

    fn return_statement(&mut self, reporter: &mut ErrorReporter) -> (result: Option<Statement>)
        requires
            old(self).wf(),
            old(self).position() > 0,
        ensures
            final(self).follows(old(self)),
            yields(
                return_statement(old(self).tokens(), old(self).position()),
                statement_option(result),
                final(self).position(),
                old(reporter)@,
                final(reporter)@,
            ),
            result matches Some(s) ==> statement_well_formed(s@),
    {
        let keyword = self.previous().duplicate();
        proof {
            lemma_with_none(reporter@);
        }
        if self.match_tag(SEMICOLON) {
            Some(Statement::Return { keyword, value: None })
        } else {
            match self.closed_expression(SEMICOLON, "Expected ';' after return value.", reporter) {
                Some(e) => Some(Statement::Return { keyword, value: Some(Rc::new(e)) }),
                None => None,
            }
        }
    }

    fn variable_declaration(&mut self, reporter: &mut ErrorReporter) -> (result: Option<Statement>)
        requires
            old(self).wf(),
        ensures
            final(self).follows(old(self)),
            yields(
                variable_declaration(old(self).tokens(), old(self).position()),
                statement_option(result),
                final(self).position(),
                old(reporter)@,
                final(reporter)@,
            ),
            result matches Some(s) ==> statement_well_formed(s@),
    {
        let name = match self.consume(IDENTIFIER, "Expected variable name!", reporter) {
            Some(token) => token,
            None => {
                return None;
            },
        };
        proof {
            lemma_with_none(reporter@);
        }
        if self.match_tag(EQUAL) {
            match self.closed_expression(
                SEMICOLON,
                "Expected ';' after variable declaration",
                reporter,
            ) {
                Some(e) => Some(Statement::Var { name, initializer: Some(Rc::new(e)) }),
                None => None,
            }
        } else {
            match self.consume(SEMICOLON, "Expected ';' after variable declaration", reporter) {
                Some(_) => Some(Statement::Var { name, initializer: None }),
                None => None,
            }
        }
    }

    fn condition(
        &mut self,
        open_message: &str,
        close_message: &str,
        reporter: &mut ErrorReporter,
    ) -> (result: Option<Expression>)
        requires
            old(self).wf(),
        ensures
            final(self).follows(old(self)),
            yields(
                condition(
                    old(self).tokens(),
                    old(self).position(),
                    open_message@,
                    close_message@,
                ),
                expression_option(result),
                final(self).position(),
                old(reporter)@,
                final(reporter)@,
            ),
            result matches Some(e) ==> expression_well_formed(e@) && final(self).position()
                > old(self).position(),
    {
        match self.consume(LEFT_PAREN, open_message, reporter) {
            Some(_) => self.closed_expression(RIGHT_PAREN, close_message, reporter),
            None => None,
        }
    }

    fn for_initializer(&mut self, reporter: &mut ErrorReporter) -> (result: Option<
        Option<Statement>,
    >)
        requires
            old(self).wf(),
        ensures
            final(self).follows(old(self)),
            yields(
                for_initializer(old(self).tokens(), old(self).position()),
                match result {
                    Some(inner) => Some(statement_option(inner)),
                    None => None,
                },
                final(self).position(),
                old(reporter)@,
                final(reporter)@,
            ),
            result matches Some(Some(s)) ==> statement_well_formed(s@),
    {
        proof {
            lemma_with_none(reporter@);
        }
        if self.match_tag(SEMICOLON) {
            Some(None)
        } else if self.match_tag(VAR) {
            match self.variable_declaration(reporter) {
                Some(s) => Some(Some(s)),
                None => None,
            }
        } else {
            match self.expression_statement(reporter) {
                Some(s) => Some(Some(s)),
                None => None,
            }
        }
    }

    fn for_condition(&mut self, reporter: &mut ErrorReporter) -> (result: Option<Expression>)
        requires
            old(self).wf(),
        ensures
            final(self).follows(old(self)),
            yields(
                for_condition(old(self).tokens(), old(self).position()),
                expression_option(result),
                final(self).position(),
                old(reporter)@,
                final(reporter)@,
            ),
            result matches Some(e) ==> expression_well_formed(e@),
    {
        proof {
            lemma_with_none(reporter@);
        }
        if self.match_tag(SEMICOLON) {
            Some(Expression::Literal { value: Literal::True })
        } else {
            self.closed_expression(SEMICOLON, "Expected ';' after loop condition.", reporter)
        }
    }

    fn for_increment(&mut self, reporter: &mut ErrorReporter) -> (result: Option<
        Option<Expression>,
    >)
        requires
            old(self).wf(),
        ensures
            final(self).follows(old(self)),
            yields(
                for_increment(old(self).tokens(), old(self).position()),
                match result {
                    Some(inner) => Some(expression_option(inner)),
                    None => None,
                },
                final(self).position(),
                old(reporter)@,
                final(reporter)@,
            ),
            result matches Some(Some(e)) ==> expression_well_formed(e@),
    {
        proof {
            lemma_with_none(reporter@);
        }
        if self.match_tag(RIGHT_PAREN) {
            Some(None)
        } else {
            match self.closed_expression(RIGHT_PAREN, "Expected ')' after clauses.", reporter) {
                Some(e) => Some(Some(e)),
                None => None,
            }
        }
    }

    /// Parses a `for` loop, after the `for`, into the statements that it
    /// stands for.
    #[verifier::spinoff_prover]
    fn for_statement(&mut self, reporter: &mut ErrorReporter) -> (result: Option<Statement>)
        requires
            old(self).wf(),
        ensures
            final(self).follows(old(self)),
            yields(
                for_statement(old(self).tokens(), old(self).position()),
                statement_option(result),
                final(self).position(),
                old(reporter)@,
                final(reporter)@,
            ),
            result matches Some(s) ==> statement_well_formed(s@),
        decreases old(self).tokens@.len() - old(self).current, 22nat,
    {
        reveal(for_statement);
        reveal(statement);
        let ghost begin = reporter@;
        let ghost tokens = self.tokens();
        let ghost start = self.position();
        match self.consume(LEFT_PAREN, "Expected '(' after 'for'.", reporter) {
            Some(_) => {},
            None => {
                return None;
            },
        }
        let ghost first = for_initializer(tokens, start + 1);
        let initializer = match self.for_initializer(reporter) {
            Some(i) => i,
            None => {
                return None;
            },
        };
        let ghost second = for_condition(tokens, first.next);
        let condition = match self.for_condition(reporter) {
            Some(c) => c,
            None => {
                proof {
                    lemma_with_concat(begin, first.reports, second.reports);
                }
                return None;
            },
        };
        proof {
            lemma_with_concat(begin, first.reports, second.reports);
        }
        let ghost third = for_increment(tokens, second.next);
        let increment = match self.for_increment(reporter) {
            Some(i) => i,
            None => {
                proof {
                    lemma_with_concat(begin, first.reports + second.reports, third.reports);
                }
                return None;
            },
        };
        proof {
            lemma_with_concat(begin, first.reports + second.reports, third.reports);
        }
        let ghost last = statement(tokens, third.next);
        let parsed = self.statement(reporter);
        proof {
            lemma_with_concat(
                begin,
                first.reports + second.reports + third.reports,
                last.reports,
            );
        }
        let mut body = match parsed {
            Some(s) => s,
            None => {
                return None;
            },
        };
        match increment {
            Some(expression) => {
                body = pair(body, Statement::Expression { expression: Rc::new(expression) });
            },
            None => {},
        }
        body = Statement::While { condition: Rc::new(condition), body: Rc::new(body) };
        match initializer {
            Some(first_statement) => {
                body = pair(first_statement, body);
            },
            None => {},
        }
        Some(body)
    }

    #[verifier::spinoff_prover]
    fn if_statement(&mut self, reporter: &mut ErrorReporter) -> (result: Option<Statement>)
        requires
            old(self).wf(),
        ensures
            final(self).follows(old(self)),
            yields(
                if_statement(old(self).tokens(), old(self).position()),
                statement_option(result),
                final(self).position(),
                old(reporter)@,
                final(reporter)@,
            ),
            result matches Some(s) ==> statement_well_formed(s@),
        decreases old(self).tokens@.len() - old(self).current, 22nat,
    {
        reveal(if_statement);
        reveal(statement);
        let ghost begin = reporter@;
        let ghost tokens = self.tokens();
        let ghost start = self.position();
        let tested = match self.condition(
            "Expected '(' after 'if'.",
            "Expected ')' after if condition.",
            reporter,
        ) {
            Some(c) => c,
            None => {
                return None;
            },
        };
        let ghost test = condition(
            tokens,
            start,
            "Expected '(' after 'if'."@,
            "Expected ')' after if condition."@,
        );
        let ghost first = statement(tokens, test.next);
        let parsed = self.statement(reporter);
        proof {
            lemma_with_concat(begin, test.reports, first.reports);
            lemma_with_none(reporter@);
        }
        let then_branch = match parsed {
            Some(s) => s,
            None => {
                return None;
            },
        };
        if self.match_tag(ELSE) {
            let ghost second = statement(tokens, first.next + 1);
            let other = self.statement(reporter);
            proof {
                lemma_with_concat(begin, test.reports + first.reports, second.reports);
            }
            match other {
                Some(else_branch) => Some(
                    Statement::If {
                        condition: Rc::new(tested),
                        then_branch: Rc::new(then_branch),
                        else_branch: Some(Rc::new(else_branch)),
                    },
                ),
                None => None,
            }
        } else {
            Some(
                Statement::If {
                    condition: Rc::new(tested),
                    then_branch: Rc::new(then_branch),
                    else_branch: None,
                },
            )
        }
    }

    #[verifier::spinoff_prover]
    fn while_statement(&mut self, reporter: &mut ErrorReporter) -> (result: Option<Statement>)
        requires
            old(self).wf(),
        ensures
            final(self).follows(old(self)),
            yields(
                while_statement(old(self).tokens(), old(self).position()),
                statement_option(result),
                final(self).position(),
                old(reporter)@,
                final(reporter)@,
            ),
            result matches Some(s) ==> statement_well_formed(s@),
        decreases old(self).tokens@.len() - old(self).current, 22nat,
    {
        reveal(while_statement);
        reveal(statement);
        let ghost begin = reporter@;
        let ghost tokens = self.tokens();
        let ghost start = self.position();
        let tested = match self.condition(
            "Expected '(' after 'while'.",
            "Expected ')' after condition.",
            reporter,
        ) {
            Some(c) => c,
            None => {
                return None;
            },
        };
        let ghost test = condition(
            tokens,
            start,
            "Expected '(' after 'while'."@,
            "Expected ')' after condition."@,
        );
        let parsed = self.statement(reporter);
        proof {
            lemma_with_concat(begin, test.reports, statement(tokens, test.next).reports);
        }
        match parsed {
            Some(body) => Some(
                Statement::While { condition: Rc::new(tested), body: Rc::new(body) },
            ),
            None => None,
        }
    }

    #[verifier::spinoff_prover]
    fn block_statement(&mut self, reporter: &mut ErrorReporter) -> (result: Option<
        Vec<Rc<Statement>>,
    >)
        requires
            old(self).wf(),
        ensures
            final(self).follows(old(self)),
            yields(
                block_statement(old(self).tokens(), old(self).position()),
                statements_option(result),
                final(self).position(),
                old(reporter)@,
                final(reporter)@,
            ),
            result matches Some(l) ==> statements_well_formed(statement_views(l@)),
        decreases old(self).tokens@.len() - old(self).current, 26nat,
    {
        reveal(block_statement);
        reveal(block_items);
        reveal(declaration);
        let ghost begin = reporter@;
        let ghost tokens = self.tokens();
        let ghost start = self.position();
        let mut list: Vec<Rc<Statement>> = Vec::new();
        let ghost mut reported: Seq<ReportView> = Seq::empty();
        let ghost target = block_items(tokens, start, Seq::empty());
        proof {
            lemma_with_none(begin);
            assert(statement_views(list@) =~= Seq::<StatementView>::empty());
            assert(reported + target.reports =~= target.reports);
        }
        while !self.check(RIGHT_BRACE) && !self.is_at_end()
            invariant
                self.follows(old(self)),
                tokens == self.tokens(),
                start == old(self).position(),
                begin == old(reporter)@,
                target == block_items(tokens, start, Seq::empty()),
                reporter@ == begin.with_all(reported),
                statements_well_formed(statement_views(list@)),
                target == after(
                    reported,
                    block_items(tokens, self.position(), statement_views(list@)),
                ),
            decreases self.tokens@.len() - self.current,
        {
            reveal(block_statement);
            reveal(block_items);
            reveal(declaration);
            let ghost here = self.position();
            let ghost done = statement_views(list@);
            let ghost spec = declaration(tokens, here);
            let item = self.declaration(reporter);
            proof {
                lemma_with_concat(begin, reported, spec.reports);
            }
            match item {
                Some(s) => {
                    list.push(Rc::new(s));
                    proof {
                        assert(statement_views(list@) =~= done.push(s@));
                        let rest = block_items(tokens, spec.next, done.push(s@));
                        assert(reported + (spec.reports + rest.reports) =~= (reported
                            + spec.reports) + rest.reports);
                        reported = reported + spec.reports;
                    }
                },
                None => {
                    return None;
                },
            }
        }
        let close = self.consume(RIGHT_BRACE, "Expected '}' after block.", reporter);
        proof {
            lemma_with_concat(
                begin,
                reported,
                expect(tokens, target.next, RIGHT_BRACE, "Expected '}' after block."@).reports,
            );
            assert(reported + Seq::<ReportView>::empty() =~= reported);
        }
        match close {
            Some(_) => Some(list),
            None => None,
        }
    }

    #[verifier::spinoff_prover]
    fn statement(&mut self, reporter: &mut ErrorReporter) -> (result: Option<Statement>)
        requires
            old(self).wf(),
        ensures
            final(self).follows(old(self)),
            yields(
                statement(old(self).tokens(), old(self).position()),
                statement_option(result),
                final(self).position(),
                old(reporter)@,
                final(reporter)@,
            ),
            result matches Some(s) ==> statement_well_formed(s@) && final(self).position()
                > old(self).position(),
        decreases old(self).tokens@.len() - old(self).current, 23nat,
    {
        reveal(statement);
        reveal(for_statement);
        reveal(if_statement);
        reveal(while_statement);
        reveal(block_statement);
        if self.match_tag(FOR) {
            self.for_statement(reporter)
        } else if self.match_tag(IF) {
            self.if_statement(reporter)
        } else if self.match_tag(PRINT) {
            self.print_statement(reporter)
        } else if self.match_tag(RETURN) {
            self.return_statement(reporter)
        } else if self.match_tag(WHILE) {
            self.while_statement(reporter)
        } else if self.match_tag(LEFT_BRACE) {
            match self.block_statement(reporter) {
                Some(statements) => {
                    let block = Statement::Block { statements: Rc::new(statements) };
                    proof {
                        assert(block@->statements =~= statement_views(statements@));
                    }
                    Some(block)
                },
                None => None,
            }
        } else {
            self.expression_statement(reporter)
        }
    }
}

/// The view of the head of a function that may be absent.
pub open spec fn head_option(head: Option<(Token, Vec<Token>)>) -> Option<
    (TokenView, Seq<TokenView>),
> {
    match head {
        Some((name, params)) => Some((name@, tokens_view(params@))),
        None => None,
    }
}

impl Parser {
    #[verifier::spinoff_prover]
    fn parameters(&mut self, reporter: &mut ErrorReporter) -> (result: Option<Vec<Token>>)
        requires
            old(self).wf(),
        ensures
            final(self).follows(old(self)),
            yields(
                parameters(old(self).tokens(), old(self).position(), Seq::empty()),
                match result {
                    Some(list) => Some(tokens_view(list@)),
                    None => None,
                },
                final(self).position(),
                old(reporter)@,
                final(reporter)@,
            ),
    {
        reveal(parameters);
        let ghost begin = reporter@;
        let ghost tokens = self.tokens();
        let ghost start = self.position();
        let mut list: Vec<Token> = Vec::new();
        let mut more = true;
        let ghost mut reported: Seq<ReportView> = Seq::empty();
        let ghost target = parameters(tokens, start, Seq::empty());
        proof {
            lemma_with_none(begin);
            assert(tokens_view(list@) =~= Seq::<TokenView>::empty());
            assert(reported + target.reports =~= target.reports);
        }
        while more
            invariant
                self.follows(old(self)),
                tokens == self.tokens(),
                start == old(self).position(),
                begin == old(reporter)@,
                target == parameters(tokens, start, Seq::empty()),
                reporter@ == begin.with_all(reported),
                more ==> target == after(
                    reported,
                    parameters(tokens, self.position(), tokens_view(list@)),
                ),
                !more ==> target == (Parse {
                    node: Some(tokens_view(list@)),
                    next: self.position(),
                    reports: reported,
                }),
            decreases self.tokens@.len() - self.current, (if more { 1nat } else { 0nat }),
        {
            reveal(parameters);
            let ghost here = self.position();
            let ghost done = tokens_view(list@);
            let ghost first: Seq<ReportView> = if done.len() >= 255 {
                seq![token_report(tokens[here], "Can't have more than 255 parameters."@)]
            } else {
                Seq::empty()
            };
            proof {
                lemma_with_none(reporter@);
            }
            if list.len() >= MAXIMUM_PARAMETER_COUNT {
                proof {
                    lemma_with_one(
                        reporter@,
                        token_report(tokens[here], "Can't have more than 255 parameters."@),
                    );
                }
                reporter.error_on_token(self.peek(), "Can't have more than 255 parameters.");
            }
            proof {
                lemma_with_concat(begin, reported, first);
            }
            let ghost spec = expect(tokens, here, IDENTIFIER, "Expected parameter name."@);
            let name = self.consume(IDENTIFIER, "Expected parameter name.", reporter);
            proof {
                lemma_with_concat(begin, reported + first, spec.reports);
                assert((reported + first) + spec.reports =~= reported + (first + spec.reports));
            }
            match name {
                Some(token) => {
                    list.push(token);
                    proof {
                        assert(tokens_view(list@) =~= done.push(token@));
                        assert(first + spec.reports =~= first);
                    }
                    more = self.match_tag(COMMA);
                    proof {
                        if more {
                            let rest = parameters(tokens, here + 2, done.push(token@));
                            assert(reported + (first + rest.reports) =~= (reported + first)
                                + rest.reports);
                        }
                        reported = reported + first;
                    }
                },
                None => {
                    return None;
                },
            }
        }
        Some(list)
    }

    #[verifier::spinoff_prover]
    fn function_head(&mut self, kind: &str, reporter: &mut ErrorReporter) -> (result: Option<
        (Token, Vec<Token>),
    >)
        requires
            old(self).wf(),
        ensures
            final(self).follows(old(self)),
            yields(
                function_head(old(self).tokens(), old(self).position(), kind@),
                head_option(result),
                final(self).position(),
                old(reporter)@,
                final(reporter)@,
            ),
            result is Some ==> final(self).position() > old(self).position(),
    {
        let ghost begin = reporter@;
        let ghost tokens = self.tokens();
        let ghost start = self.position();
        let name_message = join3("Expected ", kind, " name.");
        let name = match self.consume(IDENTIFIER, name_message.as_str(), reporter) {
            Some(token) => token,
            None => {
                return None;
            },
        };
        let open_message = join3("Expected '(' after ", kind, " name.");
        match self.consume(LEFT_PAREN, open_message.as_str(), reporter) {
            Some(_) => {},
            None => {
                return None;
            },
        }
        proof {
            lemma_with_none(reporter@);
        }
        let ghost list = if check(tokens, start + 2, RIGHT_PAREN) {
            found(Seq::<TokenView>::empty(), start + 2)
        } else {
            parameters(tokens, start + 2, Seq::empty())
        };
        let params = if self.check(RIGHT_PAREN) {
            let none: Vec<Token> = Vec::new();
            proof {
                assert(tokens_view(none@) =~= Seq::<TokenView>::empty());
            }
            none
        } else {
            match self.parameters(reporter) {
                Some(list) => list,
                None => {
                    return None;
                },
            }
        };
        let ghost close = expect(tokens, list.next, RIGHT_PAREN, "Expected ')' after parameters."@);
        match self.consume(RIGHT_PAREN, "Expected ')' after parameters.", reporter) {
            Some(_) => {},
            None => {
                proof {
                    lemma_with_concat(begin, list.reports, close.reports);
                }
                return None;
            },
        }
        proof {
            lemma_with_concat(begin, list.reports, close.reports);
            assert(list.reports + close.reports =~= list.reports);
        }
        let brace_message = join3("Expected '{' before ", kind, " body.");
        let ghost brace = expect(tokens, close.next, LEFT_BRACE, brace_message@);
        let found_brace = self.consume(LEFT_BRACE, brace_message.as_str(), reporter);
        proof {
            lemma_with_concat(begin, list.reports, brace.reports);
            assert(list.reports + Seq::<ReportView>::empty() =~= list.reports);
        }
        match found_brace {
            Some(_) => Some((name, params)),
            None => None,
        }
    }

    #[verifier::spinoff_prover]
    fn function(&mut self, kind: &str, reporter: &mut ErrorReporter) -> (result: Option<Statement>)
        requires
            old(self).wf(),
        ensures
            final(self).follows(old(self)),
            yields(
                function(old(self).tokens(), old(self).position(), kind@),
                statement_option(result),
                final(self).position(),
                old(reporter)@,
                final(reporter)@,
            ),
            result matches Some(s) ==> statement_well_formed(s@) && s@ is Function
                && final(self).position() > old(self).position(),
        decreases old(self).tokens@.len() - old(self).current, 27nat,
    {
        reveal(function);
        reveal(block_statement);
        let ghost begin = reporter@;
        let ghost tokens = self.tokens();
        let ghost start = self.position();
        let (name, params) = match self.function_head(kind, reporter) {
            Some(head) => head,
            None => {
                return None;
            },
        };
        let ghost head = function_head(tokens, start, kind@);
        let body = self.block_statement(reporter);
        proof {
            lemma_with_concat(begin, head.reports, block_statement(tokens, head.next).reports);
        }
        match body {
            Some(statements) => {
                let result = Statement::Function {
                    name,
                    params: Rc::new(params),
                    body: Rc::new(statements),
                };
                proof {
                    assert(result@->Function_body =~= statement_views(statements@));
                }
                Some(result)
            },
            None => None,
        }
    }

    #[verifier::spinoff_prover]
    fn class_declaration(&mut self, reporter: &mut ErrorReporter) -> (result: Option<Statement>)
        requires
            old(self).wf(),
        ensures
            final(self).follows(old(self)),
            yields(
                class_declaration(old(self).tokens(), old(self).position()),
                statement_option(result),
                final(self).position(),
                old(reporter)@,
                final(reporter)@,
            ),
            result matches Some(s) ==> statement_well_formed(s@),
        decreases old(self).tokens@.len() - old(self).current, 29nat,
    {
        reveal(class_declaration);
        reveal(class_methods);
        reveal(function);
        let ghost begin = reporter@;
        let ghost tokens = self.tokens();
        let ghost start = self.position();
        let name = match self.consume(IDENTIFIER, "Expected class name.", reporter) {
            Some(token) => token,
            None => {
                return None;
            },
        };
        match self.consume(LEFT_BRACE, "Expected '{' before class body.", reporter) {
            Some(_) => {},
            None => {
                return None;
            },
        }
        let mut list: Vec<Rc<Statement>> = Vec::new();
        let ghost mut reported: Seq<ReportView> = Seq::empty();
        let ghost target = class_methods(tokens, start + 2, Seq::empty());
        proof {
            lemma_with_none(begin);
            assert(statement_views(list@) =~= Seq::<StatementView>::empty());
            assert(reported + target.reports =~= target.reports);
        }
        while !self.check(RIGHT_BRACE) && !self.is_at_end()
            invariant
                self.follows(old(self)),
                tokens == self.tokens(),
                start == old(self).position(),
                self.position() >= start + 2,
                check(tokens, start, IDENTIFIER),
                check(tokens, start + 1, LEFT_BRACE),
                reached(tokens, start + 2, start + 2),
                begin == old(reporter)@,
                target == class_methods(tokens, start + 2, Seq::empty()),
                reporter@ == begin.with_all(reported),
                forall|i: int|
                    0 <= i < list@.len() ==> (#[trigger] statement_views(list@)[i]) is Function
                        && statement_well_formed(statement_views(list@)[i]),
                target == after(
                    reported,
                    class_methods(tokens, self.position(), statement_views(list@)),
                ),
            decreases self.tokens@.len() - self.current,
        {
            reveal(class_declaration);
            reveal(class_methods);
            reveal(function);
            let ghost here = self.position();
            let ghost done = statement_views(list@);
            let ghost spec = function(tokens, here, "method"@);
            let item = self.function("method", reporter);
            proof {
                lemma_with_concat(begin, reported, spec.reports);
            }
            match item {
                Some(s) => {
                    list.push(Rc::new(s));
                    proof {
                        assert(statement_views(list@) =~= done.push(s@));
                        let rest = class_methods(tokens, spec.next, done.push(s@));
                        assert(reported + (spec.reports + rest.reports) =~= (reported
                            + spec.reports) + rest.reports);
                        reported = reported + spec.reports;
                    }
                },
                None => {
                    return None;
                },
            }
        }
        let close = self.consume(RIGHT_BRACE, "Expected '}' after class body.", reporter);
        proof {
            lemma_with_concat(
                begin,
                reported,
                expect(tokens, target.next, RIGHT_BRACE, "Expected '}' after class body."@).reports,
            );
            assert(reported + Seq::<ReportView>::empty() =~= reported);
        }
        match close {
            Some(_) => {
                let result = Statement::Class { name, methods: Rc::new(list) };
                proof {
                    assert(result@->methods =~= statement_views(list@));
                }
                Some(result)
            },
            None => None,
        }
    }

    /// Passes over tokens up to a place where a statement can start.
    fn synchronize(&mut self)
        requires
            old(self).wf(),
        ensures
            final(self).follows(old(self)),
            final(self).position() == synchronize(old(self).tokens(), old(self).position()),
            !at_end(old(self).tokens(), old(self).position()) ==> final(self).position()
                > old(self).position(),
    {
        reveal(resume_at);
        let ghost tokens = self.tokens();
        let ghost start = self.position();
        self.advance();
        let ghost first = self.position();
        while !self.is_at_end()
            invariant
                self.follows(old(self)),
                tokens == self.tokens(),
                start == old(self).position(),
                first == advance(tokens, start),
                self.position() >= first,
                self.position() > 0 || at_end(tokens, self.position()),
                resume_at(tokens, first) == resume_at(tokens, self.position()),
            decreases self.tokens@.len() - self.current,
        {
            reveal(resume_at);
            match self.previous().token_type() {
                Type::Semicolon => {
                    return ;
                },
                _ => {},
            }
            match self.peek().token_type() {
                Type::Class
                | Type::Fun
                | Type::Var
                | Type::For
                | Type::If
                | Type::While
                | Type::Print
                | Type::Return => {
                    return ;
                },
                _ => {},
            }
            self.advance();
        }
    }

    #[verifier::spinoff_prover]
    fn declaration(&mut self, reporter: &mut ErrorReporter) -> (result: Option<Statement>)
        requires
            old(self).wf(),
            !at_end(old(self).tokens(), old(self).position()),
        ensures
            final(self).follows(old(self)),
            yields(
                declaration(old(self).tokens(), old(self).position()),
                statement_option(result),
                final(self).position(),
                old(reporter)@,
                final(reporter)@,
            ),
            result matches Some(s) ==> statement_well_formed(s@),
            final(self).position() > old(self).position(),
        decreases old(self).tokens@.len() - old(self).current, 24nat,
    {
        reveal(declaration);
        reveal(declared);
        reveal(statement);
        reveal(class_declaration);
        reveal(function);
        let parsed = if self.match_tag(CLASS) {
            self.class_declaration(reporter)
        } else if self.match_tag(FUN) {
            self.function("function", reporter)
        } else if self.match_tag(VAR) {
            self.variable_declaration(reporter)
        } else {
            self.statement(reporter)
        };
        match parsed {
            Some(s) => Some(s),
            None => {
                self.synchronize();
                None
            },
        }
    }

    /// Parses the tokens from the current position on: gives the statements
    /// of the declarations that have no error, and reports the errors.
    pub fn parse(&mut self, reporter: &mut ErrorReporter) -> (statements: Vec<Statement>)
        requires
            old(self).wf(),
        ensures
            final(self).follows(old(self)),
            yields(
                program_items(old(self).tokens(), old(self).position(), Seq::empty()),
                Some(program_view(statements@)),
                final(self).position(),
                old(reporter)@,
                final(reporter)@,
            ),
            statements_well_formed(program_view(statements@)),
            at_end(final(self).tokens(), final(self).position()),
    {
        reveal(program_items);
        reveal(declaration);
        let ghost begin = reporter@;
        let ghost tokens = self.tokens();
        let ghost start = self.position();
        let mut list: Vec<Statement> = Vec::new();
        let ghost mut reported: Seq<ReportView> = Seq::empty();
        let ghost target = program_items(tokens, start, Seq::empty());
        proof {
            lemma_with_none(begin);
            assert(program_view(list@) =~= Seq::<StatementView>::empty());
            assert(reported + target.reports =~= target.reports);
        }
        while !self.is_at_end()
            invariant
                self.follows(old(self)),
                tokens == self.tokens(),
                start == old(self).position(),
                begin == old(reporter)@,
                target == program_items(tokens, start, Seq::empty()),
                reporter@ == begin.with_all(reported),
                statements_well_formed(program_view(list@)),
                target == after(
                    reported,
                    program_items(tokens, self.position(), program_view(list@)),
                ),
            decreases self.tokens@.len() - self.current,
        {
            reveal(program_items);
            reveal(declaration);
            let ghost here = self.position();
            let ghost done = program_view(list@);
            let ghost spec = declaration(tokens, here);
            let item = self.declaration(reporter);
            proof {
                lemma_with_concat(begin, reported, spec.reports);
            }
            match item {
                Some(s) => {
                    list.push(s);
                    proof {
                        assert(program_view(list@) =~= done.push(s@));
                    }
                },
                None => {},
            }
            proof {
                let rest = program_items(tokens, spec.next, program_view(list@));
                assert(reported + (spec.reports + rest.reports) =~= (reported + spec.reports)
                    + rest.reports);
                reported = reported + spec.reports;
            }
        }
        proof {
            assert(reported + Seq::<ReportView>::empty() =~= reported);
        }
        list
    }
}

} // verus!
