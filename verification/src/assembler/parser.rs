//! The parser: tokens to instructions.

use crate::assembler::error::{Error, ErrorView};
use crate::assembler::instruction::{
    destination_named, instruction_views, jump_named, Computation, Destination, Instruction,
    InstructionView, Jump,
};
use crate::assembler::token::{
    ends_with_eof, token_views, Kind, KindView, Token, TokenView,
};
use crate::text::chars_of;
use vstd::prelude::*;

verus! {

/// One of the three registers that a computation can name.
#[derive(Clone, Copy, Debug, PartialEq, Eq, Structural)]
pub enum Register {
    A,
    D,
    M,
}

/// The register that `name` names, if it names one.
pub open spec fn register_named(name: Seq<char>) -> Option<Register> {
    if name == seq!['A'] {
        Some(Register::A)
    } else if name == seq!['D'] {
        Some(Register::D)
    } else if name == seq!['M'] {
        Some(Register::M)
    } else {
        None
    }
}

/// The register that an identifier token names, if it is one and names one.
pub open spec fn register_of(kind: KindView) -> Option<Register> {
    match kind {
        KindView::Identifier(name) => register_named(name),
        _ => None,
    }
}

/// The computation that is the value of a register.
pub open spec fn plain(register: Register) -> Computation {
    match register {
        Register::A => Computation::A,
        Register::D => Computation::D,
        Register::M => Computation::M,
    }
}

/// The computation written as `-` and then the operand, if there is one.
pub open spec fn negated(operand: KindView) -> Option<Computation> {
    if operand == KindView::Number(1) {
        Some(Computation::NegativeOne)
    } else {
        match register_of(operand) {
            Some(Register::A) => Some(Computation::NegativeA),
            Some(Register::D) => Some(Computation::NegativeD),
            Some(Register::M) => Some(Computation::NegativeM),
            None => None,
        }
    }
}

/// The computation written as `!` and then the operand, if there is one.
pub open spec fn inverted(operand: KindView) -> Option<Computation> {
    match register_of(operand) {
        Some(Register::A) => Some(Computation::NotA),
        Some(Register::D) => Some(Computation::NotD),
        Some(Register::M) => Some(Computation::NotM),
        None => None,
    }
}

/// The computation written as a register, an operator and an operand, if
/// the three make one: `A+1 A-1 A-D M+1 M-1 M-D D+1 D+A D+M D-1 D-A D-M D&A
/// D&M D|A D|M`.
pub open spec fn combined(left: Register, operator: KindView, right: KindView) -> Option<
    Computation,
> {
    let one = right == KindView::Number(1);
    let other = register_of(right);
    match left {
        Register::A => match operator {
            KindView::Plus if one => Some(Computation::APlusOne),
            KindView::Minus if one => Some(Computation::AMinusOne),
            KindView::Minus if other == Some(Register::D) => Some(Computation::AMinusD),
            _ => None,
        },
        Register::M => match operator {
            KindView::Plus if one => Some(Computation::MPlusOne),
            KindView::Minus if one => Some(Computation::MMinusOne),
            KindView::Minus if other == Some(Register::D) => Some(Computation::MMinusD),
            _ => None,
        },
        Register::D => match operator {
            KindView::Plus if one => Some(Computation::DPlusOne),
            KindView::Plus if other == Some(Register::A) => Some(Computation::DPlusA),
            KindView::Plus if other == Some(Register::M) => Some(Computation::DPlusM),
            KindView::Minus if one => Some(Computation::DMinusOne),
            KindView::Minus if other == Some(Register::A) => Some(Computation::DMinusA),
            KindView::Minus if other == Some(Register::M) => Some(Computation::DMinusM),
            KindView::Ampersand if other == Some(Register::A) => Some(Computation::DAndA),
            KindView::Ampersand if other == Some(Register::M) => Some(Computation::DAndM),
            KindView::Pipe if other == Some(Register::A) => Some(Computation::DOrA),
            KindView::Pipe if other == Some(Register::M) => Some(Computation::DOrM),
            _ => None,
        },
    }
}

/// The place after the token at `pos`. The parser never passes an `Eof`.
pub open spec fn advance_from(tokens: Seq<TokenView>, pos: int) -> int {
    if tokens[pos].kind is Eof {
        pos
    } else {
        pos + 1
    }
}

/// A parse error at `token`.
pub open spec fn parse_error(token: TokenView, message: Seq<char>) -> ErrorView {
    ErrorView::Parse { token, message }
}

/// Whether a token of this kind may follow a computation.
pub open spec fn ends_computation(kind: KindView) -> bool {
    kind is LineBreak || kind is Eof || kind is Semicolon
}

/// The end of an instruction at `pos`: a line break or the `Eof`. The
/// result is the place after it.
pub open spec fn end_at(tokens: Seq<TokenView>, pos: int) -> Result<int, ErrorView> {
    let token = tokens[pos];
    if token.kind is LineBreak || token.kind is Eof {
        Ok(advance_from(tokens, pos))
    } else {
        Err(parse_error(token, "expect end of instruction"@))
    }
}

/// A label declaration whose `(` is at `pos`: the instruction and the place
/// after its line.
pub open spec fn label_at(tokens: Seq<TokenView>, pos: int) -> Result<
    (InstructionView, int),
    ErrorView,
> {
    let name_at = advance_from(tokens, pos);
    let name = tokens[name_at];
    let close_at = advance_from(tokens, name_at);
    let close = tokens[close_at];
    if !(name.kind is Identifier) {
        Err(parse_error(name, "expect label name"@))
    } else if !(close.kind is RightParen) {
        Err(parse_error(close, "expect ')' after label name"@))
    } else {
        match end_at(tokens, advance_from(tokens, close_at)) {
            Ok(next) => Ok((InstructionView::Label(name), next)),
            Err(e) => Err(e),
        }
    }
}

/// An A-instruction whose `@` is at `pos`: the instruction and the place
/// after its line.
pub open spec fn a_instruction_at(tokens: Seq<TokenView>, pos: int) -> Result<
    (InstructionView, int),
    ErrorView,
> {
    let operand_at = advance_from(tokens, pos);
    let operand = tokens[operand_at];
    if operand.kind is Number || operand.kind is Identifier {
        match end_at(tokens, advance_from(tokens, operand_at)) {
            Ok(next) => Ok((InstructionView::A(operand), next)),
            Err(e) => Err(e),
        }
    } else {
        Err(parse_error(operand, "expect number or identifier after '@'"@))
    }
}

/// The destination at `pos` and the place after it. An identifier followed
/// by `=` is a destination; anything else is none, and nothing is passed.
pub open spec fn destination_at(tokens: Seq<TokenView>, pos: int) -> Result<
    (Destination, int),
    ErrorView,
> {
    if pos + 1 < tokens.len() && tokens[pos].kind is Identifier && tokens[pos + 1].kind is Equal {
        match destination_named(tokens[pos].kind->Identifier_0) {
            Some(dest) => Ok((dest, advance_from(tokens, pos + 1))),
            None => Err(parse_error(tokens[pos], "unknown destination"@)),
        }
    } else {
        Ok((Destination::Null, pos))
    }
}

/// The operand expression at `pos` and the place after it, before the check
/// of what follows.
pub open spec fn operand_at(tokens: Seq<TokenView>, pos: int) -> Result<
    (Computation, int),
    ErrorView,
> {
    let first = tokens[pos];
    let second_at = advance_from(tokens, pos);
    let second = tokens[second_at];
    match first.kind {
        KindView::Number(n) => if n == 0 {
            Ok((Computation::Zero, second_at))
        } else if n == 1 {
            Ok((Computation::One, second_at))
        } else {
            Err(parse_error(first, "expect 0 or 1"@))
        },
        KindView::Minus => match negated(second.kind) {
            Some(comp) => Ok((comp, advance_from(tokens, second_at))),
            None => Err(parse_error(second, "expect 1, A, D, or M"@)),
        },
        KindView::Bang => match inverted(second.kind) {
            Some(comp) => Ok((comp, advance_from(tokens, second_at))),
            None => Err(parse_error(second, "expect A, D, or M"@)),
        },
        KindView::Identifier(name) => match register_named(name) {
            Some(register) => if ends_computation(second.kind) {
                Ok((plain(register), second_at))
            } else if second_at + 1 < tokens.len() {
                let third_at = advance_from(tokens, second_at);
                let third = tokens[second_at + 1];
                match combined(register, second.kind, third.kind) {
                    Some(comp) => Ok((comp, advance_from(tokens, third_at))),
                    None => Err(parse_error(third, "unknown computation"@)),
                }
            } else {
                Err(parse_error(second, "unknown computation"@))
            },
            None => Err(parse_error(first, "expect A, D, or M"@)),
        },
        _ => Err(parse_error(first, "unknown computation"@)),
    }
}

/// The computation at `pos` and the place after it. A `;`, a line break or
/// the `Eof` must follow.
pub open spec fn computation_at(tokens: Seq<TokenView>, pos: int) -> Result<
    (Computation, int),
    ErrorView,
> {
    match operand_at(tokens, pos) {
        Ok((comp, next)) => if ends_computation(tokens[next].kind) {
            Ok((comp, next))
        } else {
            Err(parse_error(tokens[next], "expect ';' or end of instruction"@))
        },
        Err(e) => Err(e),
    }
}

/// The jump at `pos` and the place after it. A `;` opens a jump; anything
/// else is none, and nothing is passed.
pub open spec fn jump_at(tokens: Seq<TokenView>, pos: int) -> Result<(Jump, int), ErrorView> {
    if tokens[pos].kind is Semicolon {
        let name_at = advance_from(tokens, pos);
        let name = tokens[name_at];
        match name.kind {
            KindView::Identifier(text) => match jump_named(text) {
                Some(jump) => Ok((jump, advance_from(tokens, name_at))),
                None => Err(parse_error(name, "unknown jump"@)),
            },
            _ => Err(parse_error(name, "expect jump"@)),
        }
    } else {
        Ok((Jump::Null, pos))
    }
}

/// A C-instruction that starts at `pos`: the instruction and the place after
/// its line.
pub open spec fn c_instruction_at(tokens: Seq<TokenView>, pos: int) -> Result<
    (InstructionView, int),
    ErrorView,
> {
    match destination_at(tokens, pos) {
        Err(e) => Err(e),
        Ok((dest, comp_at)) => match computation_at(tokens, comp_at) {
            Err(e) => Err(e),
            Ok((comp, jump_at)) => match self::jump_at(tokens, jump_at) {
                Err(e) => Err(e),
                Ok((jump, end)) => match end_at(tokens, end) {
                    Err(e) => Err(e),
                    Ok(next) => Ok((InstructionView::C { comp, dest, jump }, next)),
                },
            },
        },
    }
}

/// The instruction that starts at `pos` and the place after its line.
pub open spec fn instruction_at(tokens: Seq<TokenView>, pos: int) -> Result<
    (InstructionView, int),
    ErrorView,
> {
    match tokens[pos].kind {
        KindView::LeftParen => label_at(tokens, pos),
        KindView::At => a_instruction_at(tokens, pos),
        _ => c_instruction_at(tokens, pos),
    }
}

/// The first place from `pos` on that holds no line break.
pub open spec fn skip_breaks(tokens: Seq<TokenView>, pos: int) -> int
    decreases tokens.len() - pos,
{
    if 0 <= pos < tokens.len() && tokens[pos].kind is LineBreak {
        skip_breaks(tokens, pos + 1)
    } else {
        pos
    }
}

/// The instructions from `pos` on, up to the first `Eof`, or the first error.
/// Blank lines between instructions are passed over.
pub open spec fn parse_from(tokens: Seq<TokenView>, pos: int) -> Result<
    Seq<InstructionView>,
    ErrorView,
>
    decreases tokens.len() - pos,
    when ends_with_eof(tokens) && 0 <= pos < tokens.len()
{
    let start = skip_breaks(tokens, pos);
    if tokens[start].kind is Eof {
        Ok(Seq::empty())
    } else {
        match instruction_at(tokens, start) {
            Err(e) => Err(e),
            Ok((instruction, next)) => {
                proof {
                    lemma_skip_breaks(tokens, pos);
                    lemma_instruction_progress(tokens, start);
                }
                match parse_from(tokens, next) {
                    Ok(rest) => Ok(seq![instruction] + rest),
                    Err(e) => Err(e),
                }
            },
        }
    }
}

/// The instructions that the tokens write, or the first error.
pub open spec fn parse_spec(tokens: Seq<TokenView>) -> Result<Seq<InstructionView>, ErrorView> {
    parse_from(tokens, 0)
}

/// `rest` behind the instructions `done`.
pub open spec fn after_instructions(
    done: Seq<InstructionView>,
    rest: Result<Seq<InstructionView>, ErrorView>,
) -> Result<Seq<InstructionView>, ErrorView> {
    match rest {
        Ok(instructions) => Ok(done + instructions),
        Err(e) => Err(e),
    }
}

/// Passing over line breaks stays inside the tokens and stops at a token
/// that is no line break.
pub proof fn lemma_skip_breaks(tokens: Seq<TokenView>, pos: int)
    requires
        ends_with_eof(tokens),
        0 <= pos < tokens.len(),
    ensures
        pos <= skip_breaks(tokens, pos) < tokens.len(),
        !(tokens[skip_breaks(tokens, pos)].kind is LineBreak),
        forall|i: int| pos <= i < skip_breaks(tokens, pos) ==> (#[trigger] tokens[i]).kind is LineBreak,
    decreases tokens.len() - pos,
{
    if tokens[pos].kind is LineBreak {
        lemma_skip_breaks(tokens, pos + 1);
    }
}

/// An instruction that does not start at the `Eof` takes at least one token
/// and ends inside the tokens.
pub proof fn lemma_instruction_progress(tokens: Seq<TokenView>, pos: int)
    requires
        ends_with_eof(tokens),
        0 <= pos < tokens.len(),
        !(tokens[pos].kind is Eof),
    ensures
        instruction_at(tokens, pos) matches Ok((_, next)) ==> pos < next < tokens.len(),
{
}

/// A parser over one token list.
pub struct Parser<'s> {
    tokens: &'s [Token],
    current: usize,
}

impl<'s> Parser<'s> {
    /// The models of the parser's tokens.
    pub closed spec fn tokens(&self) -> Seq<TokenView> {
        token_views(self.tokens@)
    }

    /// The parser's place in its tokens.
    pub closed spec fn position(&self) -> int {
        self.current as int
    }

    /// The tokens are closed by an `Eof` and the parser's place is inside them.
    pub open spec fn wf(&self) -> bool {
        ends_with_eof(self.tokens()) && 0 <= self.position() < self.tokens().len()
    }

    /// A parser at the start of `tokens`, which an `Eof` must close.
    pub fn new(tokens: &'s [Token]) -> (parser: Self)
        requires
            ends_with_eof(token_views(tokens@)),
        ensures
            parser.wf(),
            parser.tokens() == token_views(tokens@),
            parser.position() == 0,
    {
        Self { tokens, current: 0 }
    }

    /// Reads the instructions from the parser's place up to the `Eof`.
    pub fn parse(&mut self) -> (r: Result<Vec<Instruction>, Error>)
        requires
            old(self).wf(),
        ensures
            final(self).wf(),
            final(self).tokens() == old(self).tokens(),
            match parse_from(old(self).tokens(), old(self).position()) {
                Ok(instructions) => {
                    &&& r matches Ok(found) && instruction_views(found@) == instructions
                    &&& final(self).tokens()[final(self).position()].kind is Eof
                },
                Err(e) => r matches Err(found) && found@ == e,
            },
    {
        let mut instructions: Vec<Instruction> = vec![];
        let ghost all = parse_from(self.tokens(), self.position());
        assert(instruction_views(instructions@) =~= Seq::<InstructionView>::empty());
        loop
            invariant
                self.wf(),
                self.tokens() == old(self).tokens(),
                all == parse_from(old(self).tokens(), old(self).position()),
                after_instructions(
                    instruction_views(instructions@),
                    parse_from(self.tokens(), self.position()),
                ) == all,
            ensures
                all == Ok::<Seq<InstructionView>, ErrorView>(instruction_views(instructions@)),
                self.tokens()[self.position()].kind is Eof,
            decreases self.tokens().len() - self.position(),
        {
            let ghost begin = self.position();
            proof {
                lemma_skip_breaks(self.tokens(), begin);
            }
            while matches!(self.peek().kind, Kind::LineBreak)
                invariant
                    self.wf(),
                    self.tokens() == old(self).tokens(),
                    begin <= self.position(),
                    skip_breaks(self.tokens(), self.position()) == skip_breaks(
                        self.tokens(),
                        begin,
                    ),
                decreases self.tokens().len() - self.position(),
            {
                self.advance();
            }
            if self.is_at_end() {
                assert(instruction_views(instructions@) + Seq::<InstructionView>::empty()
                    =~= instruction_views(instructions@));
                break ;
            }
            let ghost start = self.position();
            proof {
                lemma_instruction_progress(self.tokens(), start);
            }
            match self.instruction() {
                Ok(instruction) => {
                    let ghost done = instruction_views(instructions@);
                    instructions.push(instruction);
                    proof {
                        assert(instruction_views(instructions@) =~= done.push(instruction@));
                        if let Ok(rest) = parse_from(self.tokens(), self.position()) {
                            assert(done + (seq![instruction@] + rest) =~= done.push(instruction@)
                                + rest);
                        }
                    }
                },
                Err(e) => {
                    return Err(e);
                },
            }
        }
        Ok(instructions)
    }

    fn instruction(&mut self) -> (r: Result<Instruction, Error>)
        requires
            old(self).wf(),
        ensures
            final(self).wf(),
            final(self).tokens() == old(self).tokens(),
            match instruction_at(old(self).tokens(), old(self).position()) {
                Ok((instruction, next)) => r matches Ok(found) && found@ == instruction && final(
                    self
                ).position() == next,
                Err(e) => r matches Err(found) && found@ == e,
            },
    {
        match self.peek().kind {
            Kind::LeftParen => self.label(),
            Kind::At => self.a_instruction(),
            _ => self.c_instruction(),
        }
    }

    fn label(&mut self) -> (r: Result<Instruction, Error>)
        requires
            old(self).wf(),
        ensures
            final(self).wf(),
            final(self).tokens() == old(self).tokens(),
            match label_at(old(self).tokens(), old(self).position()) {
                Ok((instruction, next)) => r matches Ok(found) && found@ == instruction && final(
                    self
                ).position() == next,
                Err(e) => r matches Err(found) && found@ == e,
            },
    {
        self.advance();  // The left paren
        let token = self.advance();
        let instruction = match token.kind {
            Kind::Identifier(_) => Instruction::Label(token.clone()),
            _ => return Err(Error::parse(token, "expect label name")),
        };
        let token = self.advance();
        match token.kind {
            Kind::RightParen => match self.end_of_instruction() {
                Ok(()) => {},
                Err(e) => return Err(e),
            },
            _ => return Err(Error::parse(token, "expect ')' after label name")),
        };
        Ok(instruction)
    }

    fn a_instruction(&mut self) -> (r: Result<Instruction, Error>)
        requires
            old(self).wf(),
        ensures
            final(self).wf(),
            final(self).tokens() == old(self).tokens(),
            match a_instruction_at(old(self).tokens(), old(self).position()) {
                Ok((instruction, next)) => r matches Ok(found) && found@ == instruction && final(
                    self
                ).position() == next,
                Err(e) => r matches Err(found) && found@ == e,
            },
    {
        self.advance();  // The @ sign
        let token = self.peek();
        let instruction = match token.kind {
            Kind::Number(_) | Kind::Identifier(_) => Instruction::A(self.advance().clone()),
            _ => return Err(Error::parse(token, "expect number or identifier after '@'")),
        };
        match self.end_of_instruction() {
            Ok(()) => Ok(instruction),
            Err(e) => Err(e),
        }
    }

    fn c_instruction(&mut self) -> (r: Result<Instruction, Error>)
        requires
            old(self).wf(),
        ensures
            final(self).wf(),
            final(self).tokens() == old(self).tokens(),
            match c_instruction_at(old(self).tokens(), old(self).position()) {
                Ok((instruction, next)) => r matches Ok(found) && found@ == instruction && final(
                    self
                ).position() == next,
                Err(e) => r matches Err(found) && found@ == e,
            },
    {
        let dest = match self.destination() {
            Ok(dest) => dest,
            Err(e) => return Err(e),
        };
        let comp = match self.computation() {
            Ok(comp) => comp,
            Err(e) => return Err(e),
        };
        let jump = match self.jump() {
            Ok(jump) => jump,
            Err(e) => return Err(e),
        };
        let instruction = Instruction::C { dest, comp, jump };
        match self.end_of_instruction() {
            Ok(()) => Ok(instruction),
            Err(e) => Err(e),
        }
    }

    fn destination(&mut self) -> (r: Result<Destination, Error>)
        requires
            old(self).wf(),
        ensures
            final(self).wf(),
            final(self).tokens() == old(self).tokens(),
            match destination_at(old(self).tokens(), old(self).position()) {
                Ok((dest, next)) => r matches Ok(found) && found == dest && final(self).position()
                    == next,
                Err(e) => r matches Err(found) && found@ == e,
            },
    {
        if let Some(next_token) = self.peek_next() {
            match (&self.peek().kind, &next_token.kind) {
                (Kind::Identifier(ident), Kind::Equal) => {
                    let token = self.advance();  // Identifier
                    self.advance();  // Equals sign
                    match Destination::from_str(ident.as_str()) {
                        Ok(dest) => Ok(dest),
                        Err(_) => Err(Error::parse(token, "unknown destination")),
                    }
                },
                _ => Ok(Destination::Null),
            }
        } else {
            Ok(Destination::Null)
        }
    }

    fn computation(&mut self) -> (r: Result<Computation, Error>)
        requires
            old(self).wf(),
        ensures
            final(self).wf(),
            final(self).tokens() == old(self).tokens(),
            match computation_at(old(self).tokens(), old(self).position()) {
                Ok((comp, next)) => r matches Ok(found) && found == comp && final(self).position()
                    == next,
                Err(e) => r matches Err(found) && found@ == e,
            },
    {
        let token = self.advance();
        let comp = match &token.kind {
            Kind::Number(0) => Computation::Zero,
            Kind::Number(1) => Computation::One,
            Kind::Number(_) => return Err(Error::parse(token, "expect 0 or 1")),
            Kind::Minus => {
                let token = self.advance();
                match operand_of(&token.kind) {
                    Operand::One => Computation::NegativeOne,
                    Operand::Register(Register::A) => Computation::NegativeA,
                    Operand::Register(Register::D) => Computation::NegativeD,
                    Operand::Register(Register::M) => Computation::NegativeM,
                    Operand::Other => return Err(Error::parse(token, "expect 1, A, D, or M")),
                }
            },
            Kind::Bang => {
                let token = self.advance();
                match operand_of(&token.kind) {
                    Operand::Register(Register::A) => Computation::NotA,
                    Operand::Register(Register::D) => Computation::NotD,
                    Operand::Register(Register::M) => Computation::NotM,
                    _ => return Err(Error::parse(token, "expect A, D, or M")),
                }
            },
            Kind::Identifier(_) => {
                let register = match operand_of(&token.kind) {
                    Operand::Register(register) => register,
                    _ => return Err(Error::parse(token, "expect A, D, or M")),
                };
                let token = self.peek();
                if matches!(token.kind, Kind::LineBreak | Kind::Eof | Kind::Semicolon) {
                    match register {
                        Register::A => Computation::A,
                        Register::D => Computation::D,
                        Register::M => Computation::M,
                    }
                } else if let Some(next_token) = self.peek_next() {
                    self.advance();  // Second token of computation
                    self.advance();  // Third token of computation
                    let operand = operand_of(&next_token.kind);
                    let one = matches!(operand, Operand::One);
                    let a = matches!(operand, Operand::Register(Register::A));
                    let d = matches!(operand, Operand::Register(Register::D));
                    let m = matches!(operand, Operand::Register(Register::M));
                    match (register, &token.kind) {
                        (Register::A, Kind::Plus) if one => Computation::APlusOne,
                        (Register::A, Kind::Minus) if one => Computation::AMinusOne,
                        (Register::A, Kind::Minus) if d => Computation::AMinusD,
                        (Register::M, Kind::Plus) if one => Computation::MPlusOne,
                        (Register::M, Kind::Minus) if one => Computation::MMinusOne,
                        (Register::M, Kind::Minus) if d => Computation::MMinusD,
                        (Register::D, Kind::Plus) if one => Computation::DPlusOne,
                        (Register::D, Kind::Plus) if a => Computation::DPlusA,
                        (Register::D, Kind::Plus) if m => Computation::DPlusM,
                        (Register::D, Kind::Minus) if one => Computation::DMinusOne,
                        (Register::D, Kind::Minus) if a => Computation::DMinusA,
                        (Register::D, Kind::Minus) if m => Computation::DMinusM,
                        (Register::D, Kind::Ampersand) if a => Computation::DAndA,
                        (Register::D, Kind::Ampersand) if m => Computation::DAndM,
                        (Register::D, Kind::Pipe) if a => Computation::DOrA,
                        (Register::D, Kind::Pipe) if m => Computation::DOrM,
                        _ => return Err(Error::parse(next_token, "unknown computation")),
                    }
                } else {
                    return Err(Error::parse(token, "unknown computation"));
                }
            },
            _ => return Err(Error::parse(token, "unknown computation")),
        };

        // Ensure end of computation.
        let token = self.peek();
        match token.kind {
            Kind::LineBreak | Kind::Eof | Kind::Semicolon => Ok(comp),
            _ => Err(Error::parse(token, "expect ';' or end of instruction")),
        }
    }

    fn jump(&mut self) -> (r: Result<Jump, Error>)
        requires
            old(self).wf(),
        ensures
            final(self).wf(),
            final(self).tokens() == old(self).tokens(),
            match jump_at(old(self).tokens(), old(self).position()) {
                Ok((jump, next)) => r matches Ok(found) && found == jump && final(self).position()
                    == next,
                Err(e) => r matches Err(found) && found@ == e,
            },
    {
        let token = self.peek();
        match token.kind {
            Kind::Semicolon => {
                self.advance();  // The semicolon
                let jump_token = self.advance();
                match &jump_token.kind {
                    Kind::Identifier(ident) => match Jump::from_str(ident.as_str()) {
                        Ok(jump) => Ok(jump),
                        Err(_) => Err(Error::parse(jump_token, "unknown jump")),
                    },
                    _ => Err(Error::parse(jump_token, "expect jump")),
                }
            },
            _ => Ok(Jump::Null),
        }
    }

    fn end_of_instruction(&mut self) -> (r: Result<(), Error>)
        requires
            old(self).wf(),
        ensures
            final(self).wf(),
            final(self).tokens() == old(self).tokens(),
            match end_at(old(self).tokens(), old(self).position()) {
                Ok(next) => r is Ok && final(self).position() == next,
                Err(e) => r matches Err(found) && found@ == e,
            },
    {
        let token = self.advance();
        match token.kind {
            Kind::LineBreak | Kind::Eof => Ok(()),
            _ => Err(Error::parse(token, "expect end of instruction")),
        }
    }

    fn is_at_end(&self) -> (b: bool)
        requires
            self.wf(),
        ensures
            b == (self.tokens()[self.position()].kind is Eof),
    {
        matches!(self.peek().kind, Kind::Eof)
    }

    /// Returns the token at the parser's place and passes it, unless it is
    /// the `Eof`.
    fn advance(&mut self) -> (token: &'s Token)
        requires
            old(self).wf(),
        ensures
            final(self).wf(),
            final(self).tokens() == old(self).tokens(),
            token@ == old(self).tokens()[old(self).position()],
            final(self).position() == advance_from(old(self).tokens(), old(self).position()),
    {
        if self.is_at_end() {
            self.peek()
        } else {
            assert(self.current < self.tokens@.len());
            let len = self.tokens.len();
            self.current += 1;
            self.previous()
        }
    }

    fn previous(&self) -> (token: &'s Token)
        requires
            0 < self.position() <= self.tokens().len(),
        ensures
            token@ == self.tokens()[self.position() - 1],
    {
        &self.tokens[self.current - 1]
    }

    fn peek(&self) -> (token: &'s Token)
        requires
            self.wf(),
        ensures
            token@ == self.tokens()[self.position()],
    {
        &self.tokens[self.current]
    }

    fn peek_next(&self) -> (token: Option<&'s Token>)
        requires
            self.wf(),
        ensures
            match token {
                Some(t) => self.position() + 1 < self.tokens().len() && t@ == self.tokens()[
                    self.position() + 1],
                None => self.position() + 1 >= self.tokens().len(),
            },
    {
        let len = self.tokens.len();
        if self.current < len - 1 {
            Some(&self.tokens[self.current + 1])
        } else {
            None
        }
    }
}

/// What an operand token stands for.
enum Operand {
    One,
    Register(Register),
    Other,
}

/// Reads an operand token: the number 1, a register, or anything else.
fn operand_of(kind: &Kind) -> (operand: Operand)
    ensures
        operand is One <==> kind@ == KindView::Number(1),
        match operand {
            Operand::Register(register) => register_of(kind@) == Some(register),
            _ => register_of(kind@) is None,
        },
{
    match kind {
        Kind::Number(1) => Operand::One,
        Kind::Identifier(name) => {
            let text = chars_of(name.as_str());
            if text.len() == 1 && text[0] == 'A' {
                assert(name@ =~= seq!['A']);
                Operand::Register(Register::A)
            } else if text.len() == 1 && text[0] == 'D' {
                assert(name@ =~= seq!['D']);
                Operand::Register(Register::D)
            } else if text.len() == 1 && text[0] == 'M' {
                assert(name@ =~= seq!['M']);
                Operand::Register(Register::M)
            } else {
                Operand::Other
            }
        },
        _ => Operand::Other,
    }
}

} // verus!
