//! What can go wrong while assembling.

use crate::assembler::token::{Token, TokenView};
use crate::text::{decimal, push_decimal};
use vstd::prelude::*;
use vstd::string::StringExecFns;

verus! {

/// An error of one of the three passes. A scan error names the line and the
/// text at fault, the others the token at fault.
#[derive(Debug, PartialEq, Eq)]
pub enum Error {
    Scan { line: usize, lexeme: String, message: &'static str },
    Parse { token: Token, message: &'static str },
    Code { token: Token, message: &'static str },
}

/// The mathematical model of an [`Error`].
pub enum ErrorView {
    Scan { line: usize, lexeme: Seq<char>, message: Seq<char> },
    Parse { token: TokenView, message: Seq<char> },
    Code { token: TokenView, message: Seq<char> },
}

impl View for Error {
    type V = ErrorView;

    open spec fn view(&self) -> ErrorView {
        match self {
            Error::Scan { line, lexeme, message } => ErrorView::Scan {
                line: *line,
                lexeme: lexeme@,
                message: message@,
            },
            Error::Parse { token, message } => ErrorView::Parse {
                token: token@,
                message: message@,
            },
            Error::Code { token, message } => ErrorView::Code {
                token: token@,
                message: message@,
            },
        }
    }
}

/// The line of a diagnostic: `[line L] PHASE error at 'LEXEME': MESSAGE`, the
/// lexeme between backticks.
pub open spec fn diagnostic(
    line: usize,
    phase: Seq<char>,
    lexeme: Seq<char>,
    message: Seq<char>,
) -> Seq<char> {
    "[line "@ + decimal(line as nat) + "] "@ + phase + " error at `"@ + lexeme + "`: "@ + message
}

impl ErrorView {
    /// The diagnostic that reports this error.
    pub open spec fn text(self) -> Seq<char> {
        match self {
            ErrorView::Scan { line, lexeme, message } => diagnostic(
                line,
                "scan"@,
                lexeme,
                message,
            ),
            ErrorView::Parse { token, message } => diagnostic(
                token.line,
                "parse"@,
                token.lexeme,
                message,
            ),
            ErrorView::Code { token, message } => diagnostic(
                token.line,
                "code generation"@,
                token.lexeme,
                message,
            ),
        }
    }
}

fn render(line: usize, phase: &str, lexeme: &str, message: &str) -> (out: String)
    ensures
        out@ == diagnostic(line, phase@, lexeme@, message@),
{
    let mut out = String::from_str("[line ");
    push_decimal(&mut out, line as u64);
    out.append("] ");
    out.append(phase);
    out.append(" error at `");
    out.append(lexeme);
    out.append("`: ");
    out.append(message);
    out
}

impl Error {
    /// A scan error on `line` at the text `lexeme`.
    pub fn scan(line: usize, lexeme: String, message: &'static str) -> (error: Self)
        ensures
            error@ == (ErrorView::Scan { line, lexeme: lexeme@, message: message@ }),
    {
        Self::Scan { line, lexeme, message }
    }

    /// A parse error at `token`.
    pub fn parse(token: &Token, message: &'static str) -> (error: Self)
        ensures
            error@ == (ErrorView::Parse { token: token@, message: message@ }),
    {
        Self::Parse { token: token.clone(), message }
    }

    /// A code generation error at `token`.
    pub fn code(token: &Token, message: &'static str) -> (error: Self)
        ensures
            error@ == (ErrorView::Code { token: token@, message: message@ }),
    {
        Self::Code { token: token.clone(), message }
    }

    /// The diagnostic that reports this error, without a line break.
    pub fn to_string(&self) -> (out: String)
        ensures
            out@ == self@.text(),
    {
        match self {
            Error::Scan { line, lexeme, message } => render(
                *line,
                "scan",
                lexeme.as_str(),
                message,
            ),
            Error::Parse { token, message } => render(
                token.line,
                "parse",
                token.lexeme.as_str(),
                message,
            ),
            Error::Code { token, message } => render(
                token.line,
                "code generation",
                token.lexeme.as_str(),
                message,
            ),
        }
    }
}

} // verus!
