//! Tokens of Hack assembly.

use vstd::prelude::*;

verus! {

/// What a token is. A number carries its value, an identifier its name.
#[derive(Debug, PartialEq, Eq)]
pub enum Kind {
    At,
    Number(u16),
    Identifier(String),
    LineBreak,
    LeftParen,
    RightParen,
    Equal,
    Semicolon,
    Bang,
    Minus,
    Plus,
    Ampersand,
    Pipe,
    Eof,
}

/// The mathematical model of a [`Kind`].
pub enum KindView {
    At,
    Number(u16),
    Identifier(Seq<char>),
    LineBreak,
    LeftParen,
    RightParen,
    Equal,
    Semicolon,
    Bang,
    Minus,
    Plus,
    Ampersand,
    Pipe,
    Eof,
}

impl View for Kind {
    type V = KindView;

    open spec fn view(&self) -> KindView {
        match self {
            Kind::At => KindView::At,
            Kind::Number(n) => KindView::Number(*n),
            Kind::Identifier(name) => KindView::Identifier(name@),
            Kind::LineBreak => KindView::LineBreak,
            Kind::LeftParen => KindView::LeftParen,
            Kind::RightParen => KindView::RightParen,
            Kind::Equal => KindView::Equal,
            Kind::Semicolon => KindView::Semicolon,
            Kind::Bang => KindView::Bang,
            Kind::Minus => KindView::Minus,
            Kind::Plus => KindView::Plus,
            Kind::Ampersand => KindView::Ampersand,
            Kind::Pipe => KindView::Pipe,
            Kind::Eof => KindView::Eof,
        }
    }
}

impl Clone for Kind {
    fn clone(&self) -> (copy: Self)
        ensures
            copy@ == self@,
    {
        match self {
            Kind::At => Kind::At,
            Kind::Number(n) => Kind::Number(*n),
            Kind::Identifier(name) => Kind::Identifier(name.clone()),
            Kind::LineBreak => Kind::LineBreak,
            Kind::LeftParen => Kind::LeftParen,
            Kind::RightParen => Kind::RightParen,
            Kind::Equal => Kind::Equal,
            Kind::Semicolon => Kind::Semicolon,
            Kind::Bang => Kind::Bang,
            Kind::Minus => Kind::Minus,
            Kind::Plus => Kind::Plus,
            Kind::Ampersand => Kind::Ampersand,
            Kind::Pipe => Kind::Pipe,
            Kind::Eof => Kind::Eof,
        }
    }
}

/// A token: its kind, the line it starts on (the first line is 1) and the text
/// it was read from.
#[derive(Debug, PartialEq, Eq)]
pub struct Token {
    pub kind: Kind,
    pub line: usize,
    pub lexeme: String,
}

/// The mathematical model of a [`Token`].
pub struct TokenView {
    pub kind: KindView,
    pub line: usize,
    pub lexeme: Seq<char>,
}

impl View for Token {
    type V = TokenView;

    open spec fn view(&self) -> TokenView {
        TokenView { kind: self.kind@, line: self.line, lexeme: self.lexeme@ }
    }
}

impl Clone for Token {
    fn clone(&self) -> (copy: Self)
        ensures
            copy@ == self@,
    {
        Token { kind: self.kind.clone(), line: self.line, lexeme: self.lexeme.clone() }
    }
}

impl Token {
    /// A token of the given kind, line and text.
    pub fn new(kind: Kind, line: usize, lexeme: String) -> (token: Self)
        ensures
            token.kind == kind,
            token.line == line,
            token.lexeme == lexeme,
    {
        Self { kind, line, lexeme }
    }
}

/// A token list as the scanner makes it and the parser reads it: an `Eof`
/// closes it.
pub open spec fn ends_with_eof(tokens: Seq<TokenView>) -> bool {
    tokens.len() > 0 && tokens.last().kind is Eof
}

/// The models of the tokens in `tokens`, in order.
pub open spec fn token_views(tokens: Seq<Token>) -> Seq<TokenView> {
    tokens.map_values(|t: Token| t@)
}

} // verus!
