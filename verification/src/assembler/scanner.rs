//! The scanner: source text to tokens.

use crate::assembler::error::{Error, ErrorView};
use crate::assembler::token::{
    ends_with_eof, token_views, Kind, KindView, Token, TokenView,
};
use crate::text::{
    chars_of, decimal_value, is_digit, is_letter, lemma_run_len_bound, lemma_run_len_chars,
    parse_u16, run_end, run_len, string_of, CharClass,
};
use vstd::prelude::*;

verus! {

/// What the text at one place of the source amounts to.
pub enum Lexed {
    /// A token of this kind.
    Emit(KindView),
    /// White space or a comment.
    Skip,
    /// Nothing that the language knows, with the reason.
    Fail(Seq<char>),
}

/// One step of the scanner: how many characters it takes, and what they are.
pub struct Step {
    pub len: nat,
    pub what: Lexed,
}

/// The kind of the token that the single character `c` is, if it is one.
pub open spec fn single_char_kind(c: char) -> Option<KindView> {
    if c == '@' {
        Some(KindView::At)
    } else if c == '\n' {
        Some(KindView::LineBreak)
    } else if c == '(' {
        Some(KindView::LeftParen)
    } else if c == ')' {
        Some(KindView::RightParen)
    } else if c == '=' {
        Some(KindView::Equal)
    } else if c == ';' {
        Some(KindView::Semicolon)
    } else if c == '!' {
        Some(KindView::Bang)
    } else if c == '-' {
        Some(KindView::Minus)
    } else if c == '+' {
        Some(KindView::Plus)
    } else if c == '&' {
        Some(KindView::Ampersand)
    } else if c == '|' {
        Some(KindView::Pipe)
    } else {
        None
    }
}

/// The step that the scanner takes at `pos`, a place inside `src`. It takes
/// the longest text that it can: a whole comment, all the digits of a number,
/// all the characters of an identifier.
pub open spec fn step_at(src: Seq<char>, pos: int) -> Step {
    let c = src[pos];
    if single_char_kind(c) is Some {
        Step { len: 1, what: Lexed::Emit(single_char_kind(c)->0) }
    } else if c == '/' {
        if pos + 1 < src.len() && src[pos + 1] == '/' {
            Step { len: 1 + run_len(src, pos + 1, CharClass::NotLineFeed), what: Lexed::Skip }
        } else {
            Step { len: 1, what: Lexed::Fail("unexpected character"@) }
        }
    } else if is_digit(c) {
        let len = 1 + run_len(src, pos + 1, CharClass::Digit);
        let value = decimal_value(src.subrange(pos, pos + len));
        if value <= u16::MAX {
            Step { len, what: Lexed::Emit(KindView::Number(value as u16)) }
        } else {
            Step { len, what: Lexed::Fail("invalid number"@) }
        }
    } else if is_letter(c) {
        let len = 1 + run_len(src, pos + 1, CharClass::SymbolChar);
        Step { len, what: Lexed::Emit(KindView::Identifier(src.subrange(pos, pos + len))) }
    } else if c == ' ' || c == '\r' || c == '\t' {
        Step { len: 1, what: Lexed::Skip }
    } else {
        Step { len: 1, what: Lexed::Fail("unexpected character"@) }
    }
}

/// The line after `line`. The count stops at the largest number.
pub open spec fn next_line(line: usize) -> usize {
    if line < usize::MAX {
        (line + 1) as usize
    } else {
        line
    }
}

/// The tokens of `src` from `pos` on, where `pos` is on line `line`: the
/// tokens in order and then one `Eof`, or the first error.
pub open spec fn scan_from(src: Seq<char>, pos: int, line: usize) -> Result<
    Seq<TokenView>,
    ErrorView,
>
    decreases
        (if pos <= src.len() {
            src.len() - pos
        } else {
            0
        }),
{
    if pos < 0 || pos >= src.len() {
        Ok(seq![TokenView { kind: KindView::Eof, line, lexeme: Seq::empty() }])
    } else {
        let step = step_at(src, pos);
        let lexeme = src.subrange(pos, pos + step.len);
        match step.what {
            Lexed::Fail(message) => Err(ErrorView::Scan { line, lexeme, message }),
            Lexed::Skip => scan_from(src, pos + step.len, line),
            Lexed::Emit(kind) => {
                let after = if kind is LineBreak {
                    next_line(line)
                } else {
                    line
                };
                match scan_from(src, pos + step.len, after) {
                    Ok(rest) => Ok(seq![TokenView { kind, line, lexeme }] + rest),
                    Err(e) => Err(e),
                }
            },
        }
    }
}

/// The tokens of the source text `src`, or the first error in it.
pub open spec fn scan_spec(src: Seq<char>) -> Result<Seq<TokenView>, ErrorView> {
    scan_from(src, 0, 1)
}

/// `rest` behind the tokens `done`.
pub open spec fn after_tokens(
    done: Seq<TokenView>,
    rest: Result<Seq<TokenView>, ErrorView>,
) -> Result<Seq<TokenView>, ErrorView> {
    match rest {
        Ok(tokens) => Ok(done + tokens),
        Err(e) => Err(e),
    }
}

/// A step stays inside the text.
pub proof fn lemma_step_bound(src: Seq<char>, pos: int)
    requires
        0 <= pos < src.len(),
    ensures
        1 <= step_at(src, pos).len,
        pos + step_at(src, pos).len <= src.len(),
{
    lemma_run_len_bound(src, pos + 1, CharClass::NotLineFeed);
    lemma_run_len_bound(src, pos + 1, CharClass::Digit);
    lemma_run_len_bound(src, pos + 1, CharClass::SymbolChar);
}

/// A scanner over one source text. It holds the tokens read so far.
pub struct Scanner {
    source: Vec<char>,
    current: usize,
    start: usize,
    line: usize,
    tokens: Vec<Token>,
}

impl Scanner {
    /// The scanner's place is inside its source or at its end.
    pub closed spec fn wf(&self) -> bool {
        self.current <= self.source.len()
    }

    /// The tokens read so far.
    pub closed spec fn emitted(&self) -> Seq<TokenView> {
        token_views(self.tokens@)
    }

    /// What is left to read: the tokens of the rest of the source and the
    /// closing `Eof`, or the first error.
    pub closed spec fn pending(&self) -> Result<Seq<TokenView>, ErrorView> {
        scan_from(self.source@, self.current as int, self.line)
    }

    /// A scanner at the start of `source`, on line 1.
    pub fn new(source: &str) -> (scanner: Self)
        ensures
            scanner.wf(),
            scanner.emitted() == Seq::<TokenView>::empty(),
            scanner.pending() == scan_spec(source@),
    {
        let scanner = Self { source: chars_of(source), current: 0, start: 0, line: 1, tokens: vec![] };
        assert(token_views(scanner.tokens@) =~= Seq::<TokenView>::empty());
        scanner
    }

    /// Reads the rest of the source. On success the result is every token
    /// read so far, closed by one `Eof`; else it is the first error. After a
    /// success nothing but one more `Eof` is left to read.
    pub fn scan_tokens(&mut self) -> (r: Result<&[Token], Error>)
        requires
            old(self).wf(),
        ensures
            final(self).wf(),
            r matches Ok(found) ==> ends_with_eof(token_views(found@)),
            match after_tokens(old(self).emitted(), old(self).pending()) {
                Ok(tokens) => {
                    &&& r matches Ok(found) && token_views(found@) == tokens
                    &&& final(self).emitted() == tokens
                    &&& final(self).pending() == Ok::<Seq<TokenView>, ErrorView>(
                        seq![tokens.last()],
                    )
                },
                Err(e) => r matches Err(found) && found@ == e,
            },
    {
        while !self.is_at_end()
            invariant
                self.wf(),
                self.source == old(self).source,
                after_tokens(self.emitted(), self.pending()) == after_tokens(
                    old(self).emitted(),
                    old(self).pending(),
                ),
            decreases self.source.len() - self.current,
        {
            self.start = self.current;
            proof {
                lemma_step_bound(self.source@, self.current as int);
            }
            let ghost before = *self;
            match self.scan_token() {
                Ok(()) => {
                    proof {
                        let step = step_at(before.source@, before.current as int);
                        if let Lexed::Emit(kind) = step.what {
                            let lexeme = before.source@.subrange(
                                before.current as int,
                                before.current + step.len,
                            );
                            let token = TokenView { kind, line: before.line, lexeme };
                            if let Ok(rest) = self.pending() {
                                assert(before.emitted() + (seq![token] + rest) =~= before.emitted().push(
                                    token,
                                ) + rest);
                            }
                        }
                    }
                },
                Err(e) => {
                    return Err(e);
                },
            }
        }
        let eof = Token::new(Kind::Eof, self.line, String::new());
        let ghost before = *self;
        self.tokens.push(eof);
        proof {
            assert(token_views(self.tokens@) =~= before.emitted().push(eof@));
            assert(before.emitted().push(eof@) =~= before.emitted() + seq![eof@]);
        }
        Ok(self.tokens.as_slice())
    }

    /// Reads what stands at the current place: a token, which it adds, or
    /// white space or a comment, which it passes over.
    fn scan_token(&mut self) -> (r: Result<(), Error>)
        requires
            old(self).current < old(self).source.len(),
            old(self).start == old(self).current,
        ensures
            final(self).source == old(self).source,
            final(self).wf(),
            ({
                let src = old(self).source@;
                let pos = old(self).current as int;
                let step = step_at(src, pos);
                let lexeme = src.subrange(pos, pos + step.len);
                match step.what {
                    Lexed::Fail(message) => r matches Err(e) && e@ == (ErrorView::Scan {
                        line: old(self).line,
                        lexeme,
                        message,
                    }),
                    Lexed::Skip => {
                        &&& r is Ok
                        &&& final(self).current == pos + step.len
                        &&& final(self).line == old(self).line
                        &&& final(self).tokens == old(self).tokens
                    },
                    Lexed::Emit(kind) => {
                        &&& r is Ok
                        &&& final(self).current == pos + step.len
                        &&& final(self).line == if kind is LineBreak {
                            next_line(old(self).line)
                        } else {
                            old(self).line
                        }
                        &&& token_views(final(self).tokens@) == token_views(old(self).tokens@).push(
                            TokenView { kind, line: old(self).line, lexeme },
                        )
                    },
                }
            }),
    {
        proof {
            lemma_step_bound(self.source@, self.current as int);
        }
        let c = self.advance();
        match c {
            '@' => self.add_token(Kind::At),
            '\n' => {
                self.add_token(Kind::LineBreak);
                self.line = self.line.saturating_add(1);
            },
            '(' => self.add_token(Kind::LeftParen),
            ')' => self.add_token(Kind::RightParen),
            '=' => self.add_token(Kind::Equal),
            ';' => self.add_token(Kind::Semicolon),
            '!' => self.add_token(Kind::Bang),
            '-' => self.add_token(Kind::Minus),
            '+' => self.add_token(Kind::Plus),
            '&' => self.add_token(Kind::Ampersand),
            '|' => self.add_token(Kind::Pipe),
            '/' => {
                if self.peek() == Some('/') {
                    self.current = run_end(&self.source, self.current, CharClass::NotLineFeed);
                } else {
                    return Err(Error::scan(self.line, self.lexeme(), "unexpected character"));
                }
            },
            ' ' | '\r' | '\t' => {},
            _ => {
                if CharClass::Digit.contains(c) {
                    return self.number();
                } else if CharClass::Letter.contains(c) {
                    self.identifier();
                } else {
                    return Err(Error::scan(self.line, self.lexeme(), "unexpected character"));
                }
            },
        }
        Ok(())
    }

    /// Reads the rest of a number whose first digit has been passed.
    fn number(&mut self) -> (r: Result<(), Error>)
        requires
            old(self).start < old(self).current <= old(self).source.len(),
            old(self).current == old(self).start + 1,
            is_digit(old(self).source@[old(self).start as int]),
        ensures
            final(self).source == old(self).source,
            final(self).start == old(self).start,
            final(self).line == old(self).line,
            final(self).wf(),
            ({
                let src = old(self).source@;
                let start = old(self).start as int;
                let len = 1 + run_len(src, start + 1, CharClass::Digit);
                let lexeme = src.subrange(start, start + len);
                if decimal_value(lexeme) <= u16::MAX {
                    &&& r is Ok
                    &&& final(self).current == start + len
                    &&& token_views(final(self).tokens@) == token_views(old(self).tokens@).push(
                        TokenView {
                            kind: KindView::Number(decimal_value(lexeme) as u16),
                            line: old(self).line,
                            lexeme,
                        },
                    )
                } else {
                    r matches Err(e) && e@ == (ErrorView::Scan {
                        line: old(self).line,
                        lexeme,
                        message: "invalid number"@,
                    })
                }
            }),
    {
        self.current = run_end(&self.source, self.current, CharClass::Digit);
        proof {
            lemma_run_len_chars(self.source@, self.start + 1, CharClass::Digit);
            let lexeme = self.source@.subrange(self.start as int, self.current as int);
            assert forall|i: int| 0 <= i < lexeme.len() implies is_digit(#[trigger] lexeme[i]) by {
                assert(lexeme[i] == self.source@[self.start + i]);
            }
        }
        match parse_u16(&self.source, self.start, self.current) {
            Some(n) => {
                self.add_token(Kind::Number(n));
                Ok(())
            },
            None => Err(Error::scan(self.line, self.lexeme(), "invalid number")),
        }
    }

    /// Reads the rest of an identifier whose first letter has been passed.
    fn identifier(&mut self)
        requires
            old(self).start < old(self).current <= old(self).source.len(),
            old(self).current == old(self).start + 1,
        ensures
            final(self).source == old(self).source,
            final(self).start == old(self).start,
            final(self).line == old(self).line,
            final(self).wf(),
            ({
                let src = old(self).source@;
                let start = old(self).start as int;
                let len = 1 + run_len(src, start + 1, CharClass::SymbolChar);
                let lexeme = src.subrange(start, start + len);
                &&& final(self).current == start + len
                &&& token_views(final(self).tokens@) == token_views(old(self).tokens@).push(
                    TokenView { kind: KindView::Identifier(lexeme), line: old(self).line, lexeme },
                )
            }),
    {
        self.current = run_end(&self.source, self.current, CharClass::SymbolChar);
        let name = self.lexeme();
        self.add_token(Kind::Identifier(name));
    }

    /// Adds a token of the given kind, with the text between `start` and the
    /// current place and on the current line.
    fn add_token(&mut self, kind: Kind)
        requires
            old(self).start <= old(self).current <= old(self).source.len(),
        ensures
            final(self).source == old(self).source,
            final(self).start == old(self).start,
            final(self).current == old(self).current,
            final(self).line == old(self).line,
            token_views(final(self).tokens@) == token_views(old(self).tokens@).push(
                TokenView {
                    kind: kind@,
                    line: old(self).line,
                    lexeme: old(self).source@.subrange(
                        old(self).start as int,
                        old(self).current as int,
                    ),
                },
            ),
    {
        let token = Token::new(kind, self.line, self.lexeme());
        self.tokens.push(token);
        assert(token_views(self.tokens@) =~= token_views(old(self).tokens@).push(token@));
    }

    /// Passes over one character and returns it.
    fn advance(&mut self) -> (c: char)
        requires
            old(self).current < old(self).source.len(),
        ensures
            c == old(self).source@[old(self).current as int],
            final(self).current == old(self).current + 1,
            final(self).source == old(self).source,
            final(self).start == old(self).start,
            final(self).line == old(self).line,
            final(self).tokens == old(self).tokens,
    {
        let c = self.source[self.current];
        self.current += 1;
        c
    }

    /// The text between `start` and the current place.
    fn lexeme(&self) -> (text: String)
        requires
            self.start <= self.current <= self.source.len(),
        ensures
            text@ == self.source@.subrange(self.start as int, self.current as int),
    {
        string_of(&self.source, self.start, self.current)
    }

    /// The character at the current place, if the source has not ended.
    fn peek(&self) -> (c: Option<char>)
        requires
            self.wf(),
        ensures
            c == if self.current < self.source.len() {
                Some(self.source@[self.current as int])
            } else {
                None
            },
    {
        if self.current < self.source.len() {
            Some(self.source[self.current])
        } else {
            None
        }
    }

    fn is_at_end(&self) -> (b: bool)
        ensures
            b == (self.current >= self.source.len()),
    {
        self.current >= self.source.len()
    }
}

} // verus!
