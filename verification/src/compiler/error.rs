//! What can go wrong while compiling a class.

use vstd::prelude::*;
use vstd::string::StringExecFns;

verus! {

/// An error of the compiler. Where a node is at fault the error carries
/// its kind, and for a number its text.
#[derive(Debug, PartialEq, Eq)]
pub enum CompileError {
    /// A link of the tree leads nowhere, or a node that should have
    /// children has none.
    Malformed,
    /// The root is no class.
    UnsupportedTopLevel(String),
    /// A member of the class is no function.
    UnsupportedMember(String),
    /// A statement is no `do`.
    UnsupportedStatement(String),
    /// A term is no integer constant.
    UnsupportedTerm(String),
    /// A call has an argument.
    UnsupportedExpression,
    /// A node of this kind is missing.
    Expected(String),
    /// An integer constant is above 65535.
    InvalidNumber(String),
    /// A function has more than 65535 parameters.
    TooManyParameters,
}

/// The mathematical model of a [`CompileError`].
pub enum CompileErrorView {
    Malformed,
    UnsupportedTopLevel(Seq<char>),
    UnsupportedMember(Seq<char>),
    UnsupportedStatement(Seq<char>),
    UnsupportedTerm(Seq<char>),
    UnsupportedExpression,
    Expected(Seq<char>),
    InvalidNumber(Seq<char>),
    TooManyParameters,
}

impl View for CompileError {
    type V = CompileErrorView;

    open spec fn view(&self) -> CompileErrorView {
        match self {
            CompileError::Malformed => CompileErrorView::Malformed,
            CompileError::UnsupportedTopLevel(kind) => CompileErrorView::UnsupportedTopLevel(kind@),
            CompileError::UnsupportedMember(kind) => CompileErrorView::UnsupportedMember(kind@),
            CompileError::UnsupportedStatement(kind) => CompileErrorView::UnsupportedStatement(
                kind@,
            ),
            CompileError::UnsupportedTerm(kind) => CompileErrorView::UnsupportedTerm(kind@),
            CompileError::UnsupportedExpression => CompileErrorView::UnsupportedExpression,
            CompileError::Expected(kind) => CompileErrorView::Expected(kind@),
            CompileError::InvalidNumber(text) => CompileErrorView::InvalidNumber(text@),
            CompileError::TooManyParameters => CompileErrorView::TooManyParameters,
        }
    }
}

impl CompileErrorView {
    /// The diagnostic that reports this error.
    pub open spec fn text(self) -> Seq<char> {
        match self {
            CompileErrorView::Malformed => "malformed syntax tree"@,
            CompileErrorView::UnsupportedTopLevel(kind) => "unsupported "@ + kind
                + " at top level"@,
            CompileErrorView::UnsupportedMember(kind) => "unsupported "@ + kind + " class member"@,
            CompileErrorView::UnsupportedStatement(kind) => "unsupported "@ + kind + " statement"@,
            CompileErrorView::UnsupportedTerm(kind) => "unsupported "@ + kind + " term"@,
            CompileErrorView::UnsupportedExpression => "unsupported expression"@,
            CompileErrorView::Expected(kind) => "expected "@ + kind,
            CompileErrorView::InvalidNumber(text) => "invalid number "@ + text,
            CompileErrorView::TooManyParameters => "too many parameters"@,
        }
    }
}

impl CompileError {
    /// The diagnostic that reports this error, without a line break.
    pub fn to_string(&self) -> (out: String)
        ensures
            out@ == self@.text(),
    {
        match self {
            CompileError::Malformed => String::from_str("malformed syntax tree"),
            CompileError::UnsupportedTopLevel(kind) => {
                let mut out = String::from_str("unsupported ");
                out.append(kind.as_str());
                out.append(" at top level");
                out
            },
            CompileError::UnsupportedMember(kind) => {
                let mut out = String::from_str("unsupported ");
                out.append(kind.as_str());
                out.append(" class member");
                out
            },
            CompileError::UnsupportedStatement(kind) => {
                let mut out = String::from_str("unsupported ");
                out.append(kind.as_str());
                out.append(" statement");
                out
            },
            CompileError::UnsupportedTerm(kind) => {
                let mut out = String::from_str("unsupported ");
                out.append(kind.as_str());
                out.append(" term");
                out
            },
            CompileError::UnsupportedExpression => String::from_str("unsupported expression"),
            CompileError::Expected(kind) => {
                let mut out = String::from_str("expected ");
                out.append(kind.as_str());
                out
            },
            CompileError::InvalidNumber(text) => {
                let mut out = String::from_str("invalid number ");
                out.append(text.as_str());
                out
            },
            CompileError::TooManyParameters => String::from_str("too many parameters"),
        }
    }
}

} // verus!
