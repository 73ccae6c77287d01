//! The error sink: two sticky flags and the reports made so far.

use vstd::prelude::*;
use vstd::string::StringExecFns;
use crate::text::{decimal, decimal_digits, join3};
use crate::token::{Token, TokenView};

verus! {

/// The category of a report.
#[derive(Debug, Clone, Copy, PartialEq, Eq, Structural)]
pub enum Category {
    /// From the scanner, the parser or the resolver.
    Compile,
    /// From the interpreter, anchored at a line.
    Runtime,
    /// From a native function: no line and no position.
    Native,
}

/// One reported error.
#[derive(Debug, Clone, PartialEq)]
pub struct Report {
    pub category: Category,
    pub line: usize,
    pub position: String,
    pub message: String,
}

/// The mathematical view of a report.
pub struct ReportView {
    pub category: Category,
    pub line: usize,
    pub position: Seq<char>,
    pub message: Seq<char>,
}

impl View for Report {
    type V = ReportView;

    open spec fn view(&self) -> ReportView {
        ReportView {
            category: self.category,
            line: self.line,
            position: self.position@,
            message: self.message@,
        }
    }
}

/// Where a report points when it is anchored at a token: ` at end` for the
/// end of input, else ` at '` and the token's text and `'`.
pub open spec fn position_of(token: TokenView) -> Seq<char> {
    if token.token_type is EOF {
        " at end"@
    } else {
        " at '"@ + token.lexeme + "'"@
    }
}

/// A compile-time report with no token.
pub open spec fn plain_report(line: usize, message: Seq<char>) -> ReportView {
    ReportView { category: Category::Compile, line, position: Seq::empty(), message }
}

/// A compile-time report anchored at a token.
pub open spec fn token_report(token: TokenView, message: Seq<char>) -> ReportView {
    ReportView {
        category: Category::Compile,
        line: token.line,
        position: position_of(token),
        message,
    }
}

/// A runtime report anchored at a token.
pub open spec fn runtime_report(token: TokenView, message: Seq<char>) -> ReportView {
    ReportView {
        category: Category::Runtime,
        line: token.line,
        position: position_of(token),
        message,
    }
}

/// A runtime report from a native function.
pub open spec fn native_report(message: Seq<char>) -> ReportView {
    ReportView { category: Category::Native, line: 0, position: Seq::empty(), message }
}

/// The line of text that stands for a report: `Runtime Error: ` and the
/// message for a native report, else `[line L] Error<position>: <message>`.
pub open spec fn rendered(report: ReportView) -> Seq<char> {
    if report.category == Category::Native {
        "Runtime Error: "@ + report.message
    } else {
        "[line "@ + decimal_digits(report.line as nat) + "] Error"@ + report.position + ": "@
            + report.message
    }
}

impl Report {
    /// The line of text to show for this report.
    pub fn render(&self) -> (line: String)
        ensures
            line@ == rendered(self@),
    {
        match self.category {
            Category::Native => {
                let start = String::from_str("Runtime Error: ");
                start.concat(self.message.as_str())
            },
            _ => {
                let number = decimal(self.line);
                let start = String::from_str("[line ");
                start.concat(number.as_str()).concat("] Error").concat(
                    self.position.as_str(),
                ).concat(": ").concat(self.message.as_str())
            },
        }
    }
}

/// The error sink. `had_error` is set by every compile-time report,
/// `had_runtime_error` by every runtime report; neither is cleared by a
/// report.
pub struct ErrorReporter {
    pub had_error: bool,
    pub had_runtime_error: bool,
    pub reports: Vec<Report>,
}

/// The mathematical view of the error sink.
pub struct ErrorReporterView {
    pub had_error: bool,
    pub had_runtime_error: bool,
    pub reports: Seq<ReportView>,
}

impl View for ErrorReporter {
    type V = ErrorReporterView;

    open spec fn view(&self) -> ErrorReporterView {
        ErrorReporterView {
            had_error: self.had_error,
            had_runtime_error: self.had_runtime_error,
            reports: self.reports@.map_values(|r: Report| r@),
        }
    }
}

impl ErrorReporterView {
    /// The sink after one more report.
    pub open spec fn with(self, report: ReportView) -> ErrorReporterView {
        ErrorReporterView {
            had_error: self.had_error || report.category == Category::Compile,
            had_runtime_error: self.had_runtime_error || report.category != Category::Compile,
            reports: self.reports.push(report),
        }
    }

    /// The sink after a sequence of reports, in order.
    pub open spec fn with_all(self, reports: Seq<ReportView>) -> ErrorReporterView
        decreases reports.len(),
    {
        if reports.len() == 0 {
            self
        } else {
            self.with_all(reports.drop_last()).with(reports.last())
        }
    }
}

/// Reporting nothing leaves the sink as it is.
pub proof fn lemma_with_none(sink: ErrorReporterView)
    ensures
        sink.with_all(Seq::empty()) == sink,
{
}

/// Reporting a sequence of one report is reporting that report.
pub proof fn lemma_with_one(sink: ErrorReporterView, report: ReportView)
    ensures
        sink.with_all(seq![report]) == sink.with(report),
{
    assert(seq![report].drop_last() =~= Seq::<ReportView>::empty());
    assert(sink.with_all(Seq::<ReportView>::empty()) == sink);
}

/// Reporting two sequences one after the other is reporting their
/// concatenation.
pub proof fn lemma_with_concat(
    sink: ErrorReporterView,
    first: Seq<ReportView>,
    second: Seq<ReportView>,
)
    ensures
        sink.with_all(first + second) == sink.with_all(first).with_all(second),
    decreases second.len(),
{
    if second.len() == 0 {
        assert(first + second =~= first);
    } else {
        lemma_with_concat(sink, first, second.drop_last());
        assert((first + second).drop_last() =~= first + second.drop_last());
        assert((first + second).last() == second.last());
    }
}

/// The compile-time flag after a sequence of reports is the flag before, or
/// that one of the reports was a compile-time report; the runtime flag
/// likewise; the reports are appended.
pub proof fn lemma_with_all_flags(sink: ErrorReporterView, reports: Seq<ReportView>)
    ensures
        sink.with_all(reports).reports == sink.reports + reports,
        sink.with_all(reports).had_error == (sink.had_error || exists|i: int|
            0 <= i < reports.len() && (#[trigger] reports[i]).category == Category::Compile),
        sink.with_all(reports).had_runtime_error == (sink.had_runtime_error || exists|i: int|
            0 <= i < reports.len() && (#[trigger] reports[i]).category != Category::Compile),
    decreases reports.len(),
{
    if reports.len() == 0 {
        assert(sink.reports + reports =~= sink.reports);
    } else {
        let front = reports.drop_last();
        lemma_with_all_flags(sink, front);
        assert(sink.reports + reports =~= (sink.reports + front).push(reports.last()));
        if exists|i: int|
            0 <= i < reports.len() && (#[trigger] reports[i]).category == Category::Compile {
            let i = choose|i: int|
                0 <= i < reports.len() && (#[trigger] reports[i]).category == Category::Compile;
            if i < front.len() {
                assert(front[i].category == Category::Compile);
            }
        }
        if exists|i: int|
            0 <= i < front.len() && (#[trigger] front[i]).category == Category::Compile {
            let i = choose|i: int|
                0 <= i < front.len() && (#[trigger] front[i]).category == Category::Compile;
            assert(reports[i].category == Category::Compile);
        }
        if exists|i: int|
            0 <= i < reports.len() && (#[trigger] reports[i]).category != Category::Compile {
            let i = choose|i: int|
                0 <= i < reports.len() && (#[trigger] reports[i]).category != Category::Compile;
            if i < front.len() {
                assert(front[i].category != Category::Compile);
            }
        }
        if exists|i: int|
            0 <= i < front.len() && (#[trigger] front[i]).category != Category::Compile {
            let i = choose|i: int|
                0 <= i < front.len() && (#[trigger] front[i]).category != Category::Compile;
            assert(reports[i].category != Category::Compile);
        }
    }
}

impl ErrorReporter {
    /// A sink with both flags clear and no report.
    pub fn new() -> (sink: ErrorReporter)
        ensures
            !sink@.had_error,
            !sink@.had_runtime_error,
            sink@.reports == Seq::<ReportView>::empty(),
    {
        let sink = ErrorReporter { had_error: false, had_runtime_error: false, reports: Vec::new() };
        proof {
            assert(sink@.reports =~= Seq::<ReportView>::empty());
        }
        sink
    }

    /// Reports a runtime error at a token.
    pub fn runtime_error_on_token(&mut self, token: &Token, message: &str)
        ensures
            final(self)@ == old(self)@.with(runtime_report(token@, message@)),
    {
        let position = Self::position(token);
        self.report_runtime_error(token.line(), position, message);
    }

    /// Reports a runtime error from a native function.
    pub fn runtime_error(&mut self, message: &str)
        ensures
            final(self)@ == old(self)@.with(native_report(message@)),
    {
        let report = Report {
            category: Category::Native,
            line: 0,
            position: String::new(),
            message: String::from_str(message),
        };
        self.record(report);
    }

    fn report_runtime_error(&mut self, line: usize, position: String, message: &str)
        ensures
            final(self)@ == old(self)@.with(
                ReportView {
                    category: Category::Runtime,
                    line,
                    position: position@,
                    message: message@,
                },
            ),
    {
        let report = Report {
            category: Category::Runtime,
            line,
            position,
            message: String::from_str(message),
        };
        self.record(report);
    }

    /// Reports a compile-time error at a line, with no token.
    pub fn error(&mut self, line: usize, message: &str)
        ensures
            final(self)@ == old(self)@.with(plain_report(line, message@)),
    {
        self.report(line, String::new(), message);
    }

    /// Reports a compile-time error at a token.
    pub fn error_on_token(&mut self, token: &Token, message: &str)
        ensures
            final(self)@ == old(self)@.with(token_report(token@, message@)),
    {
        let position = Self::position(token);
        self.report(token.line(), position, message);
    }

    fn report(&mut self, line: usize, position: String, message: &str)
        ensures
            final(self)@ == old(self)@.with(
                ReportView {
                    category: Category::Compile,
                    line,
                    position: position@,
                    message: message@,
                },
            ),
    {
        let report = Report {
            category: Category::Compile,
            line,
            position,
            message: String::from_str(message),
        };
        self.record(report);
    }

    fn position(token: &Token) -> (position: String)
        ensures
            position@ == position_of(token@),
    {
        match token.token_type() {
            crate::token::Type::EOF => String::from_str(" at end"),
            _ => join3(" at '", token.lexeme(), "'"),
        }
    }

    fn record(&mut self, report: Report)
        ensures
            final(self)@ == old(self)@.with(report@),
    {
        match report.category {
            Category::Compile => {
                self.had_error = true;
            },
            _ => {
                self.had_runtime_error = true;
            },
        }
        self.reports.push(report);
        proof {
            assert(self@.reports =~= old(self)@.reports.push(report@));
        }
    }

    /// Clears the compile-time flag and forgets the reports made so far; the
    /// runtime flag stays.
    pub fn reset(&mut self)
        ensures
            !final(self)@.had_error,
            final(self)@.had_runtime_error == old(self)@.had_runtime_error,
            final(self)@.reports == Seq::<ReportView>::empty(),
    {
        self.had_error = false;
        self.reports = Vec::new();
        proof {
            assert(self@.reports =~= Seq::<ReportView>::empty());
        }
    }
}

} // verus!
