//! The pipeline: scan, parse, resolve, and start the interpreter.

use vstd::prelude::*;
use crate::error_reporter::{lemma_with_concat, lemma_with_none, ErrorReporter, ReportView};
use crate::expression::{ClassType, Scopes};
use crate::grammar::program;
use crate::interpreter::Interpreter;
use crate::machine::{Action, Control, Event, Frame};
use crate::parser::Parser;
use crate::scanner::{lemma_scan_ends, scan, Scanner};
use crate::semantics::transition;
use crate::statement::{
    lemma_resolve_statements_scoped,
    program_view,
    resolve_statement,
    resolve_statements,
    statement_views,
    statements_scoped,
    statements_well_formed,
    FunctionType,
    Statement,
    StatementView,
};
use crate::table::Table;
use crate::util::exit_code;
use crate::value::Value;

verus! {

/// The statements that a source is parsed into: those of its declarations
/// that have no error.
pub open spec fn parsed(source: Seq<char>) -> Seq<StatementView> {
    program(scan(source).tokens).node->0
}

/// The errors of scanning and parsing a source, in order.
pub open spec fn syntax_reports(source: Seq<char>) -> Seq<ReportView> {
    scan(source).reports + program(scan(source).tokens).reports
}

/// The statements of a program after the resolver's pass: each with the
/// depths of its references, resolved with no scope around the program.
pub open spec fn resolved(statements: Seq<StatementView>) -> Seq<StatementView> {
    resolve_statements(
        statements,
        Seq::empty(),
        FunctionType::TopLevel,
        ClassType::TopLevel,
    ).node
}

/// The errors of the resolver's pass over a program, in order.
pub open spec fn resolve_reports(statements: Seq<StatementView>) -> Seq<ReportView> {
    resolve_statements(
        statements,
        Seq::empty(),
        FunctionType::TopLevel,
        ClassType::TopLevel,
    ).reports
}

/// Resolves the statements of a program, first to last, with no scope around
/// them.
pub fn resolve_program(statements: &Vec<Statement>, reporter: &mut ErrorReporter) -> (result: Vec<
    Statement,
>)
    requires
        statements_well_formed(program_view(statements@)),
    ensures
        program_view(result@) == resolved(program_view(statements@)),
        final(reporter)@ == old(reporter)@.with_all(resolve_reports(program_view(statements@))),
        statements_scoped(program_view(result@), 0),
        statements_well_formed(program_view(result@)),
{
    let ghost begin = reporter@;
    let ghost views = program_view(statements@);
    let ghost outer: Scopes = Seq::empty();
    let mut scopes: Vec<Table<bool>> = Vec::new();
    let mut result: Vec<Statement> = Vec::new();
    let mut i: usize = 0;
    proof {
        lemma_with_none(begin);
        assert(views.subrange(0, 0) =~= Seq::<StatementView>::empty());
        assert(program_view(result@) =~= Seq::<StatementView>::empty());
        assert(crate::expression::scopes_view(scopes@) =~= outer);
    }
    while i < statements.len()
        invariant
            i <= statements@.len(),
            views == program_view(statements@),
            statements_well_formed(views),
            outer == Seq::<Map<Seq<char>, bool>>::empty(),
            program_view(result@) == resolve_statements(
                views.subrange(0, i as int),
                outer,
                FunctionType::TopLevel,
                ClassType::TopLevel,
            ).node,
            crate::expression::scopes_view(scopes@) == resolve_statements(
                views.subrange(0, i as int),
                outer,
                FunctionType::TopLevel,
                ClassType::TopLevel,
            ).scopes,
            reporter@ == begin.with_all(
                resolve_statements(
                    views.subrange(0, i as int),
                    outer,
                    FunctionType::TopLevel,
                    ClassType::TopLevel,
                ).reports,
            ),
        decreases statements@.len() - i,
    {
        let ghost before = result@;
        proof {
            let prefix = views.subrange(0, i as int);
            let next = views.subrange(0, i + 1);
            assert(next.drop_last() =~= prefix);
            assert(next.last() == statements@[i as int]@);
            assert(crate::statement::statement_well_formed(views[i as int]));
            let front = resolve_statements(
                prefix,
                outer,
                FunctionType::TopLevel,
                ClassType::TopLevel,
            );
            lemma_with_concat(
                begin,
                front.reports,
                resolve_statement(
                    next.last(),
                    front.scopes,
                    FunctionType::TopLevel,
                    ClassType::TopLevel,
                ).reports,
            );
        }
        let item = statements[i].resolve(
            &mut scopes,
            &FunctionType::TopLevel,
            &ClassType::TopLevel,
            reporter,
        );
        result.push(item);
        proof {
            assert(program_view(result@) =~= program_view(before).push(item@));
        }
        i += 1;
    }
    proof {
        assert(views.subrange(0, i as int) =~= views);
        lemma_resolve_statements_scoped(
            views,
            outer,
            FunctionType::TopLevel,
            ClassType::TopLevel,
        );
    }
    result
}

/// A session of the language: the interpreter, whose heap lasts for the
/// session, and the error sink.
pub struct Lox {
    pub interpreter: Interpreter,
    pub reporter: ErrorReporter,
}

impl Lox {
    /// A session that has run nothing.
    pub fn new() -> (lox: Lox)
        ensures
            lox.interpreter.wf(),
            lox.interpreter.control is Idle,
            !lox.reporter@.had_error,
            !lox.reporter@.had_runtime_error,
            lox.reporter@.reports.len() == 0,
    {
        Lox { interpreter: Interpreter::new(), reporter: ErrorReporter::new() }
    }

    /// Prepares a run of a source: scans and parses it, resolves the
    /// program, and hands it to the interpreter.
    ///
    /// The stages report their errors in order. Where the compile-time flag
    /// is set after parsing, the program is not resolved; where it is set
    /// after resolving, the interpreter is left as it is. The result says
    /// whether the interpreter has been given the program.
    pub fn run(&mut self, source: &str) -> (started: bool)
        requires
            old(self).interpreter.wf(),
        ensures
            final(self).interpreter.wf(),
            final(self).reporter@ == (if old(self).reporter@.with_all(
                syntax_reports(source@),
            ).had_error {
                old(self).reporter@.with_all(syntax_reports(source@))
            } else {
                old(self).reporter@.with_all(syntax_reports(source@)).with_all(
                    resolve_reports(parsed(source@)),
                )
            }),
            started == !final(self).reporter@.had_error,
            !started ==> final(self).interpreter == old(self).interpreter,
            started ==> {
                &&& final(self).interpreter.heap() == old(self).interpreter.heap()
                &&& final(self).interpreter.control == Control::Produce(Value::Nil)
                &&& final(self).interpreter.frames@.len() == 1
                &&& final(self).interpreter.frames@[0] matches Frame::Sequence {
                    statements,
                    next,
                    environment,
                } && next == 0 && environment == 0 && statement_views(statements@) == resolved(
                    parsed(source@),
                )
            },
    {
        let ghost begin = self.reporter@;
        proof {
            lemma_scan_ends(source@, 0, 1);
            lemma_with_concat(
                begin,
                scan(source@).reports,
                program(scan(source@).tokens).reports,
            );
        }
        let scanner = Scanner::new(source);
        let tokens = scanner.scan_tokens(&mut self.reporter);
        proof {
            assert(crate::token::tokens_view(tokens@).last() == tokens@.last()@);
        }
        let mut parser = Parser::new(tokens);
        let statements = parser.parse(&mut self.reporter);
        if self.reporter.had_error {
            return false;
        }
        let program = resolve_program(&statements, &mut self.reporter);
        if self.reporter.had_error {
            return false;
        }
        self.interpreter.interpret(program);
        true
    }

    /// Makes one transition of the interpreter.
    pub fn step(&mut self, event: Event) -> (action: Action)
        requires
            old(self).interpreter.wf(),
        ensures
            final(self).interpreter.wf(),
            transition(
                old(self).interpreter,
                event,
                final(self).interpreter,
                action,
                old(self).reporter@,
                final(self).reporter@,
            ),
    {
        self.interpreter.step(event, &mut self.reporter)
    }

    /// Ends a line of an interactive session: the compile-time flag is
    /// cleared and the reports are forgotten; the runtime flag stays.
    pub fn end_line(&mut self)
        ensures
            final(self).interpreter == old(self).interpreter,
            !final(self).reporter@.had_error,
            final(self).reporter@.had_runtime_error == old(self).reporter@.had_runtime_error,
            final(self).reporter@.reports.len() == 0,
    {
        self.reporter.reset();
    }

    /// The exit code of a session that has run a file.
    pub fn exit_code(&self) -> (code: i32)
        ensures
            code == crate::util::exit_code_of(
                self.reporter@.had_error,
                self.reporter@.had_runtime_error,
            ),
    {
        exit_code(self.reporter.had_error, self.reporter.had_runtime_error)
    }
}

} // verus!
