use vstd::prelude::*;

use crate::text::{decimal, push_decimal, push_str};
use colored::Colorize;

verus! {

/// Every error that the front end and the runtime report.
#[derive(Debug, Clone, PartialEq)]
pub enum Error {
    RuntimeError(String),
    ParserError(String),
    UndefinedVariable(String),
    LexerError(LexerError),
    TypeError(String),
    ValueError(String),
    BreakInterrupt(String),
    NotImplemented(String),
    CompilationError(String),
    SyntaxError(String),
}

/// An error found while splitting the source text into tokens.
#[derive(Debug, Clone, PartialEq)]
pub struct LexerError {
    pub message: String,
    pub line: usize,
    pub column: usize,
}

/// The mathematical value of a [`LexerError`].
pub struct LexerErrorView {
    pub message: Seq<char>,
    pub line: usize,
    pub column: usize,
}

/// The mathematical value of an [`Error`]: the same variant, with each text as a sequence of chars.
pub enum ErrorView {
    RuntimeError(Seq<char>),
    ParserError(Seq<char>),
    UndefinedVariable(Seq<char>),
    LexerError(LexerErrorView),
    TypeError(Seq<char>),
    ValueError(Seq<char>),
    BreakInterrupt(Seq<char>),
    NotImplemented(Seq<char>),
    CompilationError(Seq<char>),
    SyntaxError(Seq<char>),
}

impl View for LexerError {
    type V = LexerErrorView;

    open spec fn view(&self) -> LexerErrorView {
        LexerErrorView { message: self.message@, line: self.line, column: self.column }
    }
}

impl View for Error {
    type V = ErrorView;

    open spec fn view(&self) -> ErrorView {
        match self {
            Error::RuntimeError(m) => ErrorView::RuntimeError(m@),
            Error::ParserError(m) => ErrorView::ParserError(m@),
            Error::UndefinedVariable(m) => ErrorView::UndefinedVariable(m@),
            Error::LexerError(e) => ErrorView::LexerError(e@),
            Error::TypeError(m) => ErrorView::TypeError(m@),
            Error::ValueError(m) => ErrorView::ValueError(m@),
            Error::BreakInterrupt(m) => ErrorView::BreakInterrupt(m@),
            Error::NotImplemented(m) => ErrorView::NotImplemented(m@),
            Error::CompilationError(m) => ErrorView::CompilationError(m@),
            Error::SyntaxError(m) => ErrorView::SyntaxError(m@),
        }
    }
}

impl LexerError {
    pub fn new(message: String, line: usize, column: usize) -> (e: Self)
        ensures
            e@ == (LexerErrorView { message: message@, line, column }),
    {
        LexerError { message, line, column }
    }
}


// ----------------------------------------------------------------------------------------
// Messages
// ----------------------------------------------------------------------------------------

/// Whether `t` holds the reset sequence of the terminal.
pub open spec fn holds_reset(t: Seq<char>) -> bool {
    exists|i: int| 0 <= i && i + 4 <= t.len() && #[trigger] t.subrange(i, i + 4) == "\x1B[0m"@
}

/// Whether `r` is `s` painted with the terminal style `code`: either `s` unchanged (where the
/// environment turns colors off), or `s` between the style's escape sequence and the reset
/// sequence.
pub open spec fn painted(s: Seq<char>, code: Seq<char>, r: Seq<char>) -> bool {
    ||| r == s
    ||| {
        &&& r.len() >= code.len() + 7
        &&& r.subrange(0, code.len() + 3int) == "\x1B["@ + code + "m"@
        &&& r.subrange(r.len() - 4, r.len() as int) == "\x1B[0m"@
        &&& !holds_reset(s) ==> r.subrange(code.len() + 3int, r.len() - 4) == s
    }
}

/// `colored`'s `purple` then `bold`, shown with `Display`: the text in bold purple (style
/// `1;35`). Whether colors are shown depends on the environment, which is not stated.
#[verifier::external_body]
fn bold_purple(s: &str) -> (r: String)
    ensures
        painted(s@, "1;35"@, r@),
{
    s.purple().bold().to_string()
}

/// `colored`'s `purple`, shown with `Display`: the text in purple (style `35`).
#[verifier::external_body]
fn purple(s: &str) -> (r: String)
    ensures
        painted(s@, "35"@, r@),
{
    s.purple().to_string()
}

/// `colored`'s `red` then `bold`, shown with `Display`: the text in bold red (style `1;31`).
#[verifier::external_body]
fn bold_red(s: &str) -> (r: String)
    ensures
        painted(s@, "1;31"@, r@),
{
    s.red().bold().to_string()
}

/// Whether `r` is an error report: the kind in bold purple, a colon, and the message in
/// purple.
pub open spec fn formatted_error(error_type: Seq<char>, message: Seq<char>, r: Seq<char>) -> bool {
    exists|a: Seq<char>, b: Seq<char>|
        #![trigger painted(error_type, "1;35"@, a), painted(message, "35"@, b)]
        painted(error_type, "1;35"@, a) && painted(message, "35"@, b) && r == a + ": "@ + b
}

/// Whether `r` is a report of the second form: the kind in bold purple, a colon, and the
/// message in bold red.
pub open spec fn alarm(kind: Seq<char>, message: Seq<char>, r: Seq<char>) -> bool {
    exists|a: Seq<char>, b: Seq<char>|
        #![trigger painted(kind, "1;35"@, a), painted(message, "1;31"@, b)]
        painted(kind, "1;35"@, a) && painted(message, "1;31"@, b) && r == a + ": "@ + b
}

/// The report of an error: its kind in bold purple and its message in purple.
pub fn format_error(error_type: &str, message: &str) -> (r: String)
    ensures
        formatted_error(error_type@, message@, r@),
{
    let a = bold_purple(error_type);
    let b = purple(message);
    let mut r = String::new();
    push_str(&mut r, a.as_str());
    push_str(&mut r, ": ");
    push_str(&mut r, b.as_str());
    assert(r@ =~= a@ + ": "@ + b@);
    r
}

fn format_alarm(kind: &str, message: &str) -> (r: String)
    ensures
        alarm(kind@, message@, r@),
{
    let a = bold_purple(kind);
    let b = bold_red(message);
    let mut r = String::new();
    push_str(&mut r, a.as_str());
    push_str(&mut r, ": ");
    push_str(&mut r, b.as_str());
    assert(r@ =~= a@ + ": "@ + b@);
    r
}

/// The text that reports a lexing error.
pub open spec fn lexer_error_text(e: LexerErrorView) -> Seq<char> {
    "Invalid symbol at line "@ + decimal(e.line as nat) + ", column "@ + decimal(
        e.column as nat,
    ) + ": "@ + e.message
}

/// Whether `r` is the report of the error `e`.
pub open spec fn reports(e: ErrorView, r: Seq<char>) -> bool {
    match e {
        ErrorView::RuntimeError(m) => formatted_error("Runtime Error"@, m, r),
        ErrorView::ParserError(m) => formatted_error("Parser Error"@, m, r),
        ErrorView::UndefinedVariable(v) => alarm("Undefined Variable"@, v, r),
        ErrorView::LexerError(l) => r == lexer_error_text(l),
        ErrorView::TypeError(m) => formatted_error("Type Error"@, m, r),
        ErrorView::ValueError(m) => formatted_error("Value Error"@, m, r),
        ErrorView::BreakInterrupt(m) => alarm("Break Interrupt"@, m, r),
        ErrorView::NotImplemented(m) => alarm("Not Implemented"@, m, r),
        ErrorView::CompilationError(m) => formatted_error("Compilation Error"@, m, r),
        ErrorView::SyntaxError(m) => formatted_error("Syntax Error"@, m, r),
    }
}

impl LexerError {
    /// The text that reports this error.
    pub fn message_text(&self) -> (r: String)
        ensures
            r@ == lexer_error_text(self@),
    {
        let mut r = String::new();
        push_str(&mut r, "Invalid symbol at line ");
        push_decimal(&mut r, self.line);
        push_str(&mut r, ", column ");
        push_decimal(&mut r, self.column);
        push_str(&mut r, ": ");
        push_str(&mut r, self.message.as_str());
        assert(r@ =~= lexer_error_text(self@));
        r
    }
}

impl Error {
    /// The text that reports this error.
    pub fn message_text(&self) -> (r: String)
        ensures
            reports(self@, r@),
    {
        match self {
            Error::RuntimeError(m) => format_error("Runtime Error", m.as_str()),
            Error::ParserError(m) => format_error("Parser Error", m.as_str()),
            Error::UndefinedVariable(v) => format_alarm("Undefined Variable", v.as_str()),
            Error::LexerError(e) => e.message_text(),
            Error::TypeError(m) => format_error("Type Error", m.as_str()),
            Error::ValueError(m) => format_error("Value Error", m.as_str()),
            Error::BreakInterrupt(m) => format_alarm("Break Interrupt", m.as_str()),
            Error::NotImplemented(m) => format_alarm("Not Implemented", m.as_str()),
            Error::CompilationError(m) => format_error("Compilation Error", m.as_str()),
            Error::SyntaxError(m) => format_error("Syntax Error", m.as_str()),
        }
    }
}

} // verus!
