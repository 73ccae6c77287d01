//! The scanner: from source text to tokens.

use vstd::prelude::*;
use crate::error_reporter::{
    lemma_with_concat,
    lemma_with_none,
    lemma_with_one,
    plain_report,
    ErrorReporter,
    ReportView,
};
use crate::text::{chars_of, same_text, slice_text};
use crate::token::{tokens_view, Token, TokenView, Type, TypeView};

verus! {

/// Whether a character is alphabetic in the sense of Unicode.
pub uninterp spec fn alphabetic(c: char) -> bool;

/// Tells whether a character is alphabetic.
///
/// Wraps `char::is_alphabetic`, which decides by the Unicode property
/// `Alphabetic`: the result depends on the character alone.
#[verifier::external_body]
fn is_alphabetic(c: char) -> (result: bool)
    ensures
        result == alphabetic(c),
{
    c.is_alphabetic()
}

/// Whether a character is a decimal digit.
pub open spec fn digit(c: char) -> bool {
    '0' <= c && c <= '9'
}

/// Whether a character can stand inside an identifier.
pub open spec fn word(c: char) -> bool {
    alphabetic(c) || digit(c)
}

fn is_digit(c: char) -> (result: bool)
    ensures
        result == digit(c),
{
    '0' <= c && c <= '9'
}

/// The line after a line. The count stops at the largest number.
pub open spec fn next_line(line: usize) -> usize {
    if line < usize::MAX {
        (line + 1) as usize
    } else {
        line
    }
}

/// The first position from `from` on that holds no digit: the end of a run
/// of digits.
pub open spec fn digits_end(source: Seq<char>, from: int) -> int
    decreases source.len() - from,
{
    if 0 <= from < source.len() && digit(source[from]) {
        digits_end(source, from + 1)
    } else {
        from
    }
}

/// The first position from `from` on that holds neither a letter nor a
/// digit: the end of an identifier.
pub open spec fn word_end(source: Seq<char>, from: int) -> int
    decreases source.len() - from,
{
    if 0 <= from < source.len() && word(source[from]) {
        word_end(source, from + 1)
    } else {
        from
    }
}

/// The first position from `from` on that holds the character `stop`, or the
/// end of the source where none does.
pub open spec fn find_end(source: Seq<char>, from: int, stop: char) -> int
    decreases source.len() - from,
{
    if 0 <= from < source.len() && source[from] != stop {
        find_end(source, from + 1, stop)
    } else {
        from
    }
}

/// The line reached after the characters from `from` to `to`, when `from`
/// stands on line `line`: each newline among them starts a line.
pub open spec fn line_after(source: Seq<char>, from: int, to: int, line: usize) -> usize
    decreases to - from,
{
    if from < to && 0 <= from < source.len() {
        line_after(
            source,
            from + 1,
            to,
            if source[from] == '\n' {
                next_line(line)
            } else {
                line
            },
        )
    } else {
        line
    }
}

/// The kind of token that a word is: a keyword, or else an identifier.
pub open spec fn keyword_of(text: Seq<char>) -> TypeView {
    if text == "and"@ {
        TypeView::And
    } else if text == "class"@ {
        TypeView::Class
    } else if text == "else"@ {
        TypeView::Else
    } else if text == "false"@ {
        TypeView::False
    } else if text == "for"@ {
        TypeView::For
    } else if text == "fun"@ {
        TypeView::Fun
    } else if text == "if"@ {
        TypeView::If
    } else if text == "nil"@ {
        TypeView::Nil
    } else if text == "or"@ {
        TypeView::Or
    } else if text == "print"@ {
        TypeView::Print
    } else if text == "return"@ {
        TypeView::Return
    } else if text == "super"@ {
        TypeView::Super
    } else if text == "this"@ {
        TypeView::This
    } else if text == "true"@ {
        TypeView::True
    } else if text == "var"@ {
        TypeView::Var
    } else if text == "while"@ {
        TypeView::While
    } else {
        TypeView::Identifier
    }
}

/// What one step of the scanner gives: where it ends, the line it reaches,
/// and the token and the error it has found, if any.
pub struct Lexeme {
    pub next: int,
    pub line: usize,
    pub tokens: Seq<TokenView>,
    pub reports: Seq<ReportView>,
}

/// A step that gives one token, made of the characters from `start` to
/// `next`.
pub open spec fn one_token(
    source: Seq<char>,
    start: int,
    next: int,
    line: usize,
    kind: TypeView,
) -> Lexeme {
    Lexeme {
        next,
        line,
        tokens: seq![
            TokenView { token_type: kind, lexeme: source.subrange(start, next), line },
        ],
        reports: Seq::empty(),
    }
}

/// A step that gives nothing.
pub open spec fn skip(next: int, line: usize) -> Lexeme {
    Lexeme { next, line, tokens: Seq::empty(), reports: Seq::empty() }
}

/// A step on `first` that gives a token of one character, or of two where
/// the next character is `=`.
pub open spec fn one_or_two(
    source: Seq<char>,
    start: int,
    line: usize,
    single: TypeView,
    double: TypeView,
) -> Lexeme {
    if start + 1 < source.len() && source[start + 1] == '=' {
        one_token(source, start, start + 2, line, double)
    } else {
        one_token(source, start, start + 1, line, single)
    }
}

/// The end of the number that starts at `start`: a run of digits, and then,
/// where a dot and a digit follow, the dot and a run of digits.
pub open spec fn number_end(source: Seq<char>, start: int) -> int {
    let whole = digits_end(source, start);
    if whole + 1 < source.len() && source[whole] == '.' && digit(source[whole + 1]) {
        digits_end(source, whole + 1)
    } else {
        whole
    }
}

/// The step of the scanner at the position `start` on line `line`.
///
/// Blanks give nothing and a newline starts a line. A comment runs from
/// `//` up to the end of its line. A string runs from `"` to the next `"`,
/// over newlines too, and carries what lies between; without a closing `"`
/// it is an error at the line of the opening `"`, and the rest of the source
/// is spent. A number carries its digits. A word is a keyword or an
/// identifier. Any other character is an error and is passed over.
pub open spec fn lexeme_at(source: Seq<char>, start: int, line: usize) -> Lexeme
    recommends
        0 <= start < source.len(),
{
    let c = source[start];
    if c == '(' {
        one_token(source, start, start + 1, line, TypeView::LeftParen)
    } else if c == ')' {
        one_token(source, start, start + 1, line, TypeView::RightParen)
    } else if c == '{' {
        one_token(source, start, start + 1, line, TypeView::LeftBrace)
    } else if c == '}' {
        one_token(source, start, start + 1, line, TypeView::RightBrace)
    } else if c == ',' {
        one_token(source, start, start + 1, line, TypeView::Comma)
    } else if c == '.' {
        one_token(source, start, start + 1, line, TypeView::Dot)
    } else if c == '-' {
        one_token(source, start, start + 1, line, TypeView::Minus)
    } else if c == '+' {
        one_token(source, start, start + 1, line, TypeView::Plus)
    } else if c == ';' {
        one_token(source, start, start + 1, line, TypeView::Semicolon)
    } else if c == '*' {
        one_token(source, start, start + 1, line, TypeView::Star)
    } else if c == '!' {
        one_or_two(source, start, line, TypeView::Bang, TypeView::BangEqual)
    } else if c == '=' {
        one_or_two(source, start, line, TypeView::Equal, TypeView::EqualEqual)
    } else if c == '<' {
        one_or_two(source, start, line, TypeView::Less, TypeView::LessEqual)
    } else if c == '>' {
        one_or_two(source, start, line, TypeView::Greater, TypeView::GreaterEqual)
    } else if c == '/' {
        if start + 1 < source.len() && source[start + 1] == '/' {
            skip(find_end(source, start + 2, '\n'), line)
        } else {
            one_token(source, start, start + 1, line, TypeView::Slash)
        }
    } else if c == ' ' || c == '\r' || c == '\t' {
        skip(start + 1, line)
    } else if c == '\n' {
        skip(start + 1, next_line(line))
    } else if c == '"' {
        let close = find_end(source, start + 1, '"');
        if close >= source.len() {
            Lexeme {
                next: close,
                line: line_after(source, start + 1, close, line),
                tokens: Seq::empty(),
                reports: seq![plain_report(line, "Unterminated string."@)],
            }
        } else {
            one_token(
                source,
                start,
                close + 1,
                line_after(source, start + 1, close, line),
                TypeView::String(source.subrange(start + 1, close)),
            )
        }
    } else if digit(c) {
        let end = number_end(source, start);
        one_token(source, start, end, line, TypeView::Number(source.subrange(start, end)))
    } else if alphabetic(c) {
        let end = word_end(source, start + 1);
        one_token(source, start, end, line, keyword_of(source.subrange(start, end)))
    } else {
        Lexeme {
            next: start + 1,
            line,
            tokens: Seq::empty(),
            reports: seq![plain_report(line, "Unexpected character."@)],
        }
    }
}

/// What scanning gives: the tokens and the errors, each in order.
pub struct Scan {
    pub tokens: Seq<TokenView>,
    pub reports: Seq<ReportView>,
}

/// Scanning the source from a position on: the steps of the scanner one
/// after the other, and at the end of the source the token that marks it,
/// with no text, on the line reached.
pub open spec fn scan_from(source: Seq<char>, start: int, line: usize) -> Scan
    decreases source.len() - start,
{
    if 0 <= start < source.len() {
        let step = lexeme_at(source, start, line);
        if start < step.next <= source.len() {
            let rest = scan_from(source, step.next, step.line);
            Scan { tokens: step.tokens + rest.tokens, reports: step.reports + rest.reports }
        } else {
            Scan { tokens: Seq::empty(), reports: Seq::empty() }
        }
    } else {
        Scan {
            tokens: seq![TokenView { token_type: TypeView::EOF, lexeme: Seq::empty(), line }],
            reports: Seq::empty(),
        }
    }
}

/// Scanning a source: from its first character, on line 1.
pub open spec fn scan(source: Seq<char>) -> Scan {
    scan_from(source, 0, 1)
}

/// The end of a run lies at or after its start, within the source.
pub proof fn lemma_ends(source: Seq<char>, from: int, stop: char)
    requires
        0 <= from <= source.len(),
    ensures
        from <= digits_end(source, from) <= source.len(),
        from <= word_end(source, from) <= source.len(),
        from <= find_end(source, from, stop) <= source.len(),
    decreases source.len() - from,
{
    if from < source.len() {
        lemma_ends(source, from + 1, stop);
    }
}

/// Every step of the scanner moves on, and stays within the source.
pub proof fn lemma_lexeme_moves(source: Seq<char>, start: int, line: usize)
    requires
        0 <= start < source.len(),
    ensures
        start < lexeme_at(source, start, line).next <= source.len(),
{
    lemma_ends(source, start + 1, '"');
    if start + 2 <= source.len() {
        lemma_ends(source, start + 2, '\n');
    }
    lemma_ends(source, start, ' ');
    let whole = digits_end(source, start);
    if whole + 1 < source.len() {
        lemma_ends(source, whole + 1, ' ');
    }
    if digit(source[start]) {
        assert(digits_end(source, start) == digits_end(source, start + 1));
        lemma_ends(source, start + 1, ' ');
    }
}

/// Scanning always gives at least one token, and the last token marks the
/// end of the source.
pub proof fn lemma_scan_ends(source: Seq<char>, start: int, line: usize)
    requires
        0 <= start <= source.len(),
    ensures
        scan_from(source, start, line).tokens.len() > 0,
        scan_from(source, start, line).tokens.last().token_type is EOF,
    decreases source.len() - start,
{
    if start < source.len() {
        lemma_lexeme_moves(source, start, line);
        let step = lexeme_at(source, start, line);
        lemma_scan_ends(source, step.next, step.line);
    }
}

/// The scanner: it holds the characters of the source.
pub struct Scanner {
    source: Vec<char>,
}

impl Scanner {
    /// The source that this scanner reads.
    pub closed spec fn text(&self) -> Seq<char> {
        self.source@
    }

    /// A scanner for a source.
    pub fn new(source: &str) -> (scanner: Scanner)
        ensures
            scanner.text() == source@,
    {
        Scanner { source: chars_of(source) }
    }

    /// Scans the source: gives the tokens, the last of which marks the end
    /// of the source, and reports the errors.
    pub fn scan_tokens(self, reporter: &mut ErrorReporter) -> (tokens: Vec<Token>)
        ensures
            tokens_view(tokens@) == scan(self.text()).tokens,
            final(reporter)@ == old(reporter)@.with_all(scan(self.text()).reports),
    {
        let ghost source = self.source@;
        let ghost begin = reporter@;
        let mut tokens: Vec<Token> = Vec::new();
        let mut current: usize = 0;
        let mut line: usize = 1;
        proof {
            lemma_with_none(begin);
            assert(tokens_view(tokens@) =~= Seq::<TokenView>::empty());
        }
        let ghost mut reported: Seq<ReportView> = Seq::empty();
        while current < self.source.len()
            invariant
                source == self.source@,
                current <= source.len(),
                reporter@ == begin.with_all(reported),
                scan(source).tokens == tokens_view(tokens@) + scan_from(
                    source,
                    current as int,
                    line,
                ).tokens,
                scan(source).reports == reported + scan_from(source, current as int, line).reports,
            decreases source.len() - current,
        {
            let ghost step = lexeme_at(source, current as int, line);
            let ghost before = tokens_view(tokens@);
            proof {
                lemma_lexeme_moves(source, current as int, line);
                lemma_with_concat(begin, reported, step.reports);
                let rest = scan_from(source, step.next, step.line);
                assert(before + (step.tokens + rest.tokens) =~= (before + step.tokens)
                    + rest.tokens);
                assert(reported + (step.reports + rest.reports) =~= (reported + step.reports)
                    + rest.reports);
                reported = reported + step.reports;
            }
            let (next, reached) = self.scan_token(current, line, &mut tokens, reporter);
            current = next;
            line = reached;
        }
        let ghost before = tokens_view(tokens@);
        tokens.push(Token::new(Type::EOF, String::new(), line));
        proof {
            assert(tokens_view(tokens@) =~= before + scan_from(
                source,
                current as int,
                line,
            ).tokens);
            assert(reported + Seq::<ReportView>::empty() =~= reported);
        }
        tokens
    }

    /// Adds the token made of the characters from `start` to `next`.
    fn add_token(
        &self,
        kind: Type,
        start: usize,
        next: usize,
        line: usize,
        tokens: &mut Vec<Token>,
    )
        requires
            start <= next <= self.source@.len(),
        ensures
            tokens_view(final(tokens)@) == tokens_view(old(tokens)@) + one_token(
                self.source@,
                start as int,
                next as int,
                line,
                kind@,
            ).tokens,
    {
        let lexeme = slice_text(&self.source, start, next);
        tokens.push(Token::new(kind, lexeme, line));
        proof {
            assert(tokens_view(tokens@) =~= tokens_view(old(tokens)@) + one_token(
                self.source@,
                start as int,
                next as int,
                line,
                kind@,
            ).tokens);
        }
    }

    /// Whether the character at a position is the expected one.
    fn match_next(&self, position: usize, expected: char) -> (found: bool)
        ensures
            found == (position < self.source@.len() && self.source@[position as int] == expected),
    {
        position < self.source.len() && self.source[position] == expected
    }

    /// Makes one step at the position `start`, which lies in the source.
    fn scan_token(
        &self,
        start: usize,
        line: usize,
        tokens: &mut Vec<Token>,
        reporter: &mut ErrorReporter,
    ) -> (reached: (usize, usize))
        requires
            start < self.source@.len(),
        ensures
            reached.0 == lexeme_at(self.source@, start as int, line).next,
            reached.1 == lexeme_at(self.source@, start as int, line).line,
            tokens_view(final(tokens)@) == tokens_view(old(tokens)@) + lexeme_at(
                self.source@,
                start as int,
                line,
            ).tokens,
            final(reporter)@ == old(reporter)@.with_all(
                lexeme_at(self.source@, start as int, line).reports,
            ),
    {
        assert(self.source.len() <= usize::MAX);
        let c = self.source[start];
        proof {
            lemma_with_none(reporter@);
            assert(tokens_view(tokens@) + Seq::<TokenView>::empty() =~= tokens_view(tokens@));
            lemma_lexeme_moves(self.source@, start as int, line);
        }
        if c == '(' {
            self.add_token(Type::LeftParen, start, start + 1, line, tokens);
            (start + 1, line)
        } else if c == ')' {
            self.add_token(Type::RightParen, start, start + 1, line, tokens);
            (start + 1, line)
        } else if c == '{' {
            self.add_token(Type::LeftBrace, start, start + 1, line, tokens);
            (start + 1, line)
        } else if c == '}' {
            self.add_token(Type::RightBrace, start, start + 1, line, tokens);
            (start + 1, line)
        } else if c == ',' {
            self.add_token(Type::Comma, start, start + 1, line, tokens);
            (start + 1, line)
        } else if c == '.' {
            self.add_token(Type::Dot, start, start + 1, line, tokens);
            (start + 1, line)
        } else if c == '-' {
            self.add_token(Type::Minus, start, start + 1, line, tokens);
            (start + 1, line)
        } else if c == '+' {
            self.add_token(Type::Plus, start, start + 1, line, tokens);
            (start + 1, line)
        } else if c == ';' {
            self.add_token(Type::Semicolon, start, start + 1, line, tokens);
            (start + 1, line)
        } else if c == '*' {
            self.add_token(Type::Star, start, start + 1, line, tokens);
            (start + 1, line)
        } else if c == '!' {
            self.one_or_two(Type::Bang, Type::BangEqual, start, line, tokens)
        } else if c == '=' {
            self.one_or_two(Type::Equal, Type::EqualEqual, start, line, tokens)
        } else if c == '<' {
            self.one_or_two(Type::Less, Type::LessEqual, start, line, tokens)
        } else if c == '>' {
            self.one_or_two(Type::Greater, Type::GreaterEqual, start, line, tokens)
        } else if c == '/' {
            if self.match_next(start + 1, '/') {
                let end = self.find(start + 2, '\n', line).0;
                (end, line)
            } else {
                self.add_token(Type::Slash, start, start + 1, line, tokens);
                (start + 1, line)
            }
        } else if c == ' ' || c == '\r' || c == '\t' {
            (start + 1, line)
        } else if c == '\n' {
            (start + 1, Self::following(line))
        } else if c == '"' {
            self.string(start, line, tokens, reporter)
        } else if is_digit(c) {
            self.number(start, line, tokens)
        } else if is_alphabetic(c) {
            self.identifier(start, line, tokens)
        } else {
            proof {
                lemma_with_one(reporter@, plain_report(line, "Unexpected character."@));
            }
            reporter.error(line, "Unexpected character.");
            (start + 1, line)
        }
    }

    fn following(line: usize) -> (next: usize)
        ensures
            next == next_line(line),
    {
        if line < usize::MAX {
            line + 1
        } else {
            line
        }
    }

    fn one_or_two(
        &self,
        single: Type,
        double: Type,
        start: usize,
        line: usize,
        tokens: &mut Vec<Token>,
    ) -> (reached: (usize, usize))
        requires
            start < self.source@.len(),
        ensures
            reached.0 == one_or_two(self.source@, start as int, line, single@, double@).next,
            reached.1 == line,
            tokens_view(final(tokens)@) == tokens_view(old(tokens)@) + one_or_two(
                self.source@,
                start as int,
                line,
                single@,
                double@,
            ).tokens,
    {
        assert(self.source.len() <= usize::MAX);
        if self.match_next(start + 1, '=') {
            self.add_token(double, start, start + 2, line, tokens);
            (start + 2, line)
        } else {
            self.add_token(single, start, start + 1, line, tokens);
            (start + 1, line)
        }
    }

    /// Finds the first `stop` from a position on, and counts the lines on
    /// the way.
    fn find(&self, from: usize, stop: char, line: usize) -> (found: (usize, usize))
        requires
            from <= self.source@.len(),
        ensures
            found.0 == find_end(self.source@, from as int, stop),
            found.1 == line_after(self.source@, from as int, found.0 as int, line),
            from <= found.0 <= self.source@.len(),
    {
        let mut current: usize = from;
        let mut reached: usize = line;
        while current < self.source.len() && self.source[current] != stop
            invariant
                from <= current <= self.source@.len(),
                find_end(self.source@, from as int, stop) == find_end(
                    self.source@,
                    current as int,
                    stop,
                ),
                forall|to: int|
                    current <= to ==> line_after(self.source@, from as int, to, line)
                        == #[trigger] line_after(self.source@, current as int, to, reached),
            decreases self.source@.len() - current,
        {
            proof {
                let source = self.source@;
                let at = current as int;
                let after: usize = if source[at] == '\n' {
                    next_line(reached)
                } else {
                    reached
                };
                assert forall|to: int| at + 1 <= to implies line_after(source, from as int, to, line)
                    == #[trigger] line_after(source, at + 1, to, after) by {
                    assert(line_after(source, from as int, to, line) == line_after(
                        source,
                        at,
                        to,
                        reached,
                    ));
                }
            }
            if self.source[current] == '\n' {
                reached = Self::following(reached);
            }
            current += 1;
        }
        proof {
            assert(line_after(self.source@, from as int, current as int, line) == line_after(
                self.source@,
                current as int,
                current as int,
                reached,
            ));
        }
        (current, reached)
    }

    fn string(
        &self,
        start: usize,
        line: usize,
        tokens: &mut Vec<Token>,
        reporter: &mut ErrorReporter,
    ) -> (reached: (usize, usize))
        requires
            start < self.source@.len(),
            self.source@[start as int] == '"',
        ensures
            reached.0 == lexeme_at(self.source@, start as int, line).next,
            reached.1 == lexeme_at(self.source@, start as int, line).line,
            tokens_view(final(tokens)@) == tokens_view(old(tokens)@) + lexeme_at(
                self.source@,
                start as int,
                line,
            ).tokens,
            final(reporter)@ == old(reporter)@.with_all(
                lexeme_at(self.source@, start as int, line).reports,
            ),
    {
        proof {
            lemma_with_none(reporter@);
            assert(tokens_view(tokens@) + Seq::<TokenView>::empty() =~= tokens_view(tokens@));
        }
        assert(self.source.len() <= usize::MAX);
        let (close, after) = self.find(start + 1, '"', line);
        if close >= self.source.len() {
            proof {
                lemma_with_one(reporter@, plain_report(line, "Unterminated string."@));
            }
            reporter.error(line, "Unterminated string.");
            (close, after)
        } else {
            let content = slice_text(&self.source, start + 1, close);
            self.add_token(Type::String(content), start, close + 1, after, tokens);
            (close + 1, after)
        }
    }

    fn digits(&self, from: usize) -> (end: usize)
        requires
            from <= self.source@.len(),
        ensures
            end == digits_end(self.source@, from as int),
            from <= end <= self.source@.len(),
    {
        let mut current: usize = from;
        while current < self.source.len() && is_digit(self.source[current])
            invariant
                from <= current <= self.source@.len(),
                digits_end(self.source@, from as int) == digits_end(self.source@, current as int),
            decreases self.source@.len() - current,
        {
            current += 1;
        }
        current
    }

    fn number(&self, start: usize, line: usize, tokens: &mut Vec<Token>) -> (reached: (
        usize,
        usize,
    ))
        requires
            start < self.source@.len(),
            digit(self.source@[start as int]),
        ensures
            reached.0 == number_end(self.source@, start as int),
            reached.1 == line,
            tokens_view(final(tokens)@) == tokens_view(old(tokens)@) + one_token(
                self.source@,
                start as int,
                reached.0 as int,
                line,
                TypeView::Number(self.source@.subrange(start as int, reached.0 as int)),
            ).tokens,
    {
        let whole = self.digits(start);
        let mut end = whole;
        if whole < self.source.len() && self.source[whole] == '.' {
            if whole + 1 < self.source.len() && is_digit(self.source[whole + 1]) {
                end = self.digits(whole + 1);
            }
        }
        let text = slice_text(&self.source, start, end);
        self.add_token(Type::Number(text), start, end, line, tokens);
        (end, line)
    }

    fn keyword(text: &String) -> (kind: Type)
        ensures
            kind@ == keyword_of(text@),
    {
        if same_text(text, "and") {
            Type::And
        } else if same_text(text, "class") {
            Type::Class
        } else if same_text(text, "else") {
            Type::Else
        } else if same_text(text, "false") {
            Type::False
        } else if same_text(text, "for") {
            Type::For
        } else if same_text(text, "fun") {
            Type::Fun
        } else if same_text(text, "if") {
            Type::If
        } else if same_text(text, "nil") {
            Type::Nil
        } else if same_text(text, "or") {
            Type::Or
        } else if same_text(text, "print") {
            Type::Print
        } else if same_text(text, "return") {
            Type::Return
        } else if same_text(text, "super") {
            Type::Super
        } else if same_text(text, "this") {
            Type::This
        } else if same_text(text, "true") {
            Type::True
        } else if same_text(text, "var") {
            Type::Var
        } else if same_text(text, "while") {
            Type::While
        } else {
            Type::Identifier
        }
    }

    fn identifier(&self, start: usize, line: usize, tokens: &mut Vec<Token>) -> (reached: (
        usize,
        usize,
    ))
        requires
            start < self.source@.len(),
        ensures
            reached.0 == word_end(self.source@, start + 1),
            reached.1 == line,
            tokens_view(final(tokens)@) == tokens_view(old(tokens)@) + one_token(
                self.source@,
                start as int,
                reached.0 as int,
                line,
                keyword_of(self.source@.subrange(start as int, reached.0 as int)),
            ).tokens,
    {
        assert(self.source.len() <= usize::MAX);
        let mut current: usize = start + 1;
        while current < self.source.len() && (is_alphabetic(self.source[current]) || is_digit(
            self.source[current],
        ))
            invariant
                start < current <= self.source@.len(),
                word_end(self.source@, start + 1) == word_end(self.source@, current as int),
            decreases self.source@.len() - current,
        {
            current += 1;
        }
        let text = slice_text(&self.source, start, current);
        let kind = Self::keyword(&text);
        self.add_token(kind, start, current, line, tokens);
        (current, line)
    }
}

} // verus!
