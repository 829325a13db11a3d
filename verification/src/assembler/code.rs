//! The code generator: instructions to 16-bit words, in two passes. The first
//! binds every label to the address of the instruction that follows it; the
//! second translates, and gives each new symbol the next free address from 16
//! upwards.

use crate::assembler::error::{Error, ErrorView};
use crate::assembler::instruction::{
    instruction_views, Computation, Destination, Instruction, InstructionView, Jump,
};
use crate::assembler::token::{Kind, KindView, Token, TokenView};
use vstd::hash_map::StringHashMap;
use vstd::prelude::*;
use vstd::string::StringExecFns;

verus! {

/// The three bits of a jump.
pub open spec fn jump_code(jump: Jump) -> u16 {
    match jump {
        Jump::Null => 0b000,
        Jump::Greater => 0b001,
        Jump::Equal => 0b010,
        Jump::GreaterEqual => 0b011,
        Jump::Less => 0b100,
        Jump::NotEqual => 0b101,
        Jump::LessEqual => 0b110,
        Jump::Unconditional => 0b111,
    }
}

/// The three bits of a destination: 4 for `A`, 2 for `D`, 1 for `M`.
pub open spec fn dest_code(dest: Destination) -> u16 {
    match dest {
        Destination::Null => 0b000,
        Destination::M => 0b001,
        Destination::D => 0b010,
        Destination::Md => 0b011,
        Destination::A => 0b100,
        Destination::Am => 0b101,
        Destination::Ad => 0b110,
        Destination::Amd => 0b111,
    }
}

/// The seven bits of a computation. The highest is set where the
/// computation reads `M` in place of `A`.
pub open spec fn comp_code(comp: Computation) -> u16 {
    match comp {
        Computation::Zero => 0b0101010,
        Computation::One => 0b0111111,
        Computation::NegativeOne => 0b0111010,
        Computation::D => 0b0001100,
        Computation::A => 0b0110000,
        Computation::M => 0b1110000,
        Computation::NotD => 0b0001101,
        Computation::NotA => 0b0110001,
        Computation::NotM => 0b1110001,
        Computation::NegativeD => 0b0001111,
        Computation::NegativeA => 0b0110011,
        Computation::NegativeM => 0b1110011,
        Computation::DPlusOne => 0b0011111,
        Computation::APlusOne => 0b0110111,
        Computation::MPlusOne => 0b1110111,
        Computation::DMinusOne => 0b0001110,
        Computation::AMinusOne => 0b0110010,
        Computation::MMinusOne => 0b1110010,
        Computation::DPlusA => 0b0000010,
        Computation::DPlusM => 0b1000010,
        Computation::DMinusA => 0b0010011,
        Computation::DMinusM => 0b1010011,
        Computation::AMinusD => 0b0000111,
        Computation::MMinusD => 0b1000111,
        Computation::DAndA => 0b0000000,
        Computation::DAndM => 0b1000000,
        Computation::DOrA => 0b0010101,
        Computation::DOrM => 0b1010101,
    }
}

/// The word of an A-instruction that loads `n`: the low fifteen bits of `n`.
pub open spec fn a_word(n: u16) -> u16 {
    n & 0x7FFF
}

/// The word of a C-instruction: three set bits, then the seven bits of the
/// computation, the three of the destination and the three of the jump.
pub open spec fn c_word(dest: Destination, comp: Computation, jump: Jump) -> u16 {
    0xE000 | (comp_code(comp) << 6) | (dest_code(dest) << 3) | jump_code(jump)
}

/// The symbol table: the address that each known name stands for.
pub type Symbols = Map<Seq<char>, u16>;

/// The symbols that every program starts with.
pub open spec fn predefined_symbols() -> Symbols {
    Map::<Seq<char>, u16>::empty().insert("R0"@, 0).insert("R1"@, 1).insert("R2"@, 2).insert(
        "R3"@,
        3,
    ).insert("R4"@, 4).insert("R5"@, 5).insert("R6"@, 6).insert("R7"@, 7).insert(
        "R8"@,
        8,
    ).insert("R9"@, 9).insert("R10"@, 10).insert("R11"@, 11).insert("R12"@, 12).insert(
        "R13"@,
        13,
    ).insert("R14"@, 14).insert("R15"@, 15).insert("SCREEN"@, 16384).insert(
        "KBD"@,
        24576,
    ).insert("SP"@, 0).insert("LCL"@, 1).insert("ARG"@, 2).insert("THIS"@, 3).insert("THAT"@, 4)
}

/// The name that an identifier token carries.
pub open spec fn name_of(token: TokenView) -> Seq<char> {
    token.kind->Identifier_0
}

/// A code generation error at `token`.
pub open spec fn code_error(token: TokenView, message: Seq<char>) -> ErrorView {
    ErrorView::Code { token, message }
}

/// The state of the first pass: the symbols bound so far, the labels that
/// wait for the next instruction, and the address that it will have.
pub struct LabelPass {
    pub symbols: Symbols,
    pub pending: Seq<TokenView>,
    pub address: nat,
}

/// `symbols` with every label of `pending` bound to `address`.
pub open spec fn bind_all(symbols: Symbols, pending: Seq<TokenView>, address: u16) -> Symbols
    decreases pending.len(),
{
    if pending.len() == 0 {
        symbols
    } else {
        bind_all(symbols.insert(name_of(pending.last()), address), pending.drop_last(), address)
    }
}

/// One step of the first pass. A label waits; any other instruction binds
/// the waiting labels to its own address and takes that address. A label
/// whose token is no identifier is an error, and so is a label for an
/// address above 65535.
pub open spec fn label_step(state: LabelPass, instruction: InstructionView) -> Result<
    LabelPass,
    ErrorView,
> {
    match instruction {
        InstructionView::Label(token) => if token.kind is Identifier {
            Ok(LabelPass { pending: state.pending.push(token), ..state })
        } else {
            Err(code_error(token, "expect label identifier"@))
        },
        _ => if state.pending.len() > 0 && state.address > u16::MAX {
            Err(code_error(state.pending.last(), "label address out of range"@))
        } else {
            Ok(
                LabelPass {
                    symbols: bind_all(state.symbols, state.pending, state.address as u16),
                    pending: Seq::empty(),
                    address: state.address + 1,
                },
            )
        },
    }
}

/// The first pass over `instructions[from..]`, begun in `state`.
pub open spec fn label_pass(
    instructions: Seq<InstructionView>,
    from: int,
    state: LabelPass,
) -> Result<LabelPass, ErrorView>
    decreases instructions.len() - from,
{
    if from < 0 || from >= instructions.len() {
        Ok(state)
    } else {
        match label_step(state, instructions[from]) {
            Ok(next) => label_pass(instructions, from + 1, next),
            Err(e) => Err(e),
        }
    }
}

/// The symbols after the first pass over `instructions`, begun with
/// `symbols`. Labels behind the last instruction stay unbound.
pub open spec fn register_spec(instructions: Seq<InstructionView>, symbols: Symbols) -> Result<
    Symbols,
    ErrorView,
> {
    match label_pass(instructions, 0, LabelPass { symbols, pending: Seq::empty(), address: 0 }) {
        Ok(state) => Ok(state.symbols),
        Err(e) => Err(e),
    }
}

/// The state of the second pass: the symbols and the next free address for
/// a variable.
pub struct Allocation {
    pub symbols: Symbols,
    pub next_variable: u16,
}

/// The word of one instruction and the state after it. A name that the
/// table does not hold is a new variable: it takes the next free address. A
/// label has no word, and an A-instruction needs a number or an identifier.
pub open spec fn translate_spec(state: Allocation, instruction: InstructionView) -> Result<
    (u16, Allocation),
    ErrorView,
> {
    match instruction {
        InstructionView::A(token) => match token.kind {
            KindView::Number(n) => Ok((a_word(n), state)),
            KindView::Identifier(name) => if state.symbols.contains_key(name) {
                Ok((a_word(state.symbols[name]), state))
            } else if state.next_variable < u16::MAX {
                Ok(
                    (
                        a_word(state.next_variable),
                        Allocation {
                            symbols: state.symbols.insert(name, state.next_variable),
                            next_variable: (state.next_variable + 1) as u16,
                        },
                    ),
                )
            } else {
                Err(code_error(token, "out of variable addresses"@))
            },
            _ => Err(code_error(token, "expect number or identifier"@)),
        },
        InstructionView::C { dest, comp, jump } => Ok((c_word(dest, comp, jump), state)),
        InstructionView::Label(token) => Err(code_error(token, "can't translate a label"@)),
    }
}

/// The first place from `pos` on that holds no label.
pub open spec fn skip_labels(instructions: Seq<InstructionView>, pos: int) -> int
    decreases instructions.len() - pos,
{
    if 0 <= pos < instructions.len() && instructions[pos] is Label {
        skip_labels(instructions, pos + 1)
    } else {
        pos
    }
}

/// The words of `instructions[pos..]`, one for each instruction that is no
/// label, in order, or the first error.
pub open spec fn emit_from(instructions: Seq<InstructionView>, pos: int, state: Allocation) -> Result<
    Seq<u16>,
    ErrorView,
>
    decreases instructions.len() - pos,
{
    if pos < 0 || pos >= instructions.len() {
        Ok(Seq::empty())
    } else if instructions[pos] is Label {
        emit_from(instructions, pos + 1, state)
    } else {
        match translate_spec(state, instructions[pos]) {
            Err(e) => Err(e),
            Ok((word, next)) => match emit_from(instructions, pos + 1, next) {
                Ok(rest) => Ok(seq![word] + rest),
                Err(e) => Err(e),
            },
        }
    }
}

/// `rest` behind the words `done`.
pub open spec fn after_words(done: Seq<u16>, rest: Result<Seq<u16>, ErrorView>) -> Result<
    Seq<u16>,
    ErrorView,
> {
    match rest {
        Ok(words) => Ok(done + words),
        Err(e) => Err(e),
    }
}

/// The words of a program: the first pass from the predefined symbols, then
/// the second with the variables from 16 upwards.
pub open spec fn generate_spec(instructions: Seq<InstructionView>) -> Result<Seq<u16>, ErrorView> {
    match register_spec(instructions, predefined_symbols()) {
        Ok(symbols) => emit_from(instructions, 0, Allocation { symbols, next_variable: 16 }),
        Err(e) => Err(e),
    }
}

/// Passing over labels stays inside the instructions or stops at their end.
pub proof fn lemma_skip_labels(instructions: Seq<InstructionView>, pos: int)
    requires
        0 <= pos <= instructions.len(),
    ensures
        pos <= skip_labels(instructions, pos) <= instructions.len(),
        skip_labels(instructions, pos) < instructions.len() ==> !(instructions[skip_labels(
            instructions,
            pos,
        )] is Label),
        forall|state: Allocation|
            #![trigger emit_from(instructions, pos, state)]
            emit_from(instructions, pos, state) == emit_from(
                instructions,
                skip_labels(instructions, pos),
                state,
            ),
    decreases instructions.len() - pos,
{
    if pos < instructions.len() && instructions[pos] is Label {
        lemma_skip_labels(instructions, pos + 1);
        assert forall|state: Allocation|
            #![trigger emit_from(instructions, pos, state)]
            emit_from(instructions, pos, state) == emit_from(
                instructions,
                skip_labels(instructions, pos),
                state,
            ) by {
            assert(emit_from(instructions, pos, state) == emit_from(instructions, pos + 1, state));
        }
    }
}

/// A code generator over one list of instructions.
pub struct Generator<'s> {
    current: usize,
    next_variable: u16,
    instructions: &'s [Instruction],
    symbols: StringHashMap<u16>,
}

impl<'s> Generator<'s> {
    /// The models of the generator's instructions.
    pub closed spec fn instructions(&self) -> Seq<InstructionView> {
        instruction_views(self.instructions@)
    }

    /// The generator's place in its instructions.
    pub closed spec fn position(&self) -> int {
        self.current as int
    }

    /// The symbols and the next free variable address.
    pub closed spec fn allocation(&self) -> Allocation {
        Allocation { symbols: self.symbols@, next_variable: self.next_variable }
    }

    /// The generator's place is inside its instructions or at their end.
    pub open spec fn wf(&self) -> bool {
        0 <= self.position() <= self.instructions().len()
    }

    /// A generator at the start of `instructions`, with the predefined
    /// symbols and the variables from 16 upwards.
    pub fn new(instructions: &'s [Instruction]) -> (generator: Self)
        ensures
            generator.wf(),
            generator.instructions() == instruction_views(instructions@),
            generator.position() == 0,
            generator.allocation() == (Allocation {
                symbols: predefined_symbols(),
                next_variable: 16,
            }),
    {
        let mut symbols: StringHashMap<u16> = StringHashMap::new();
        symbols.insert(String::from_str("R0"), 0);
        symbols.insert(String::from_str("R1"), 1);
        symbols.insert(String::from_str("R2"), 2);
        symbols.insert(String::from_str("R3"), 3);
        symbols.insert(String::from_str("R4"), 4);
        symbols.insert(String::from_str("R5"), 5);
        symbols.insert(String::from_str("R6"), 6);
        symbols.insert(String::from_str("R7"), 7);
        symbols.insert(String::from_str("R8"), 8);
        symbols.insert(String::from_str("R9"), 9);
        symbols.insert(String::from_str("R10"), 10);
        symbols.insert(String::from_str("R11"), 11);
        symbols.insert(String::from_str("R12"), 12);
        symbols.insert(String::from_str("R13"), 13);
        symbols.insert(String::from_str("R14"), 14);
        symbols.insert(String::from_str("R15"), 15);
        symbols.insert(String::from_str("SCREEN"), 16384);
        symbols.insert(String::from_str("KBD"), 24576);
        symbols.insert(String::from_str("SP"), 0);
        symbols.insert(String::from_str("LCL"), 1);
        symbols.insert(String::from_str("ARG"), 2);
        symbols.insert(String::from_str("THIS"), 3);
        symbols.insert(String::from_str("THAT"), 4);
        Self { instructions, symbols, current: 0, next_variable: 16 }
    }

    /// The first pass: binds each label to the address of the instruction
    /// that follows it. A label behind the last instruction stays unbound.
    pub fn register_labels(&mut self) -> (r: Result<(), Error>)
        requires
            old(self).wf(),
        ensures
            final(self).wf(),
            final(self).instructions() == old(self).instructions(),
            final(self).position() == old(self).position(),
            final(self).allocation().next_variable == old(self).allocation().next_variable,
            match register_spec(old(self).instructions(), old(self).allocation().symbols) {
                Ok(symbols) => r is Ok && final(self).allocation().symbols == symbols,
                Err(e) => r matches Err(found) && found@ == e,
            },
    {
        let instructions = self.instructions;
        let mut pending: Vec<&Token> = vec![];
        let mut i: usize = 0;
        let mut k: usize = 0;
        let ghost start = LabelPass {
            symbols: self.symbols@,
            pending: Seq::<TokenView>::empty(),
            address: 0,
        };
        let ghost all = label_pass(self.instructions(), 0, start);
        assert(pending@.map_values(|t: &Token| t@) =~= Seq::<TokenView>::empty());
        while k < instructions.len()
            invariant
                instructions == self.instructions,
                self.instructions == old(self).instructions,
                self.current == old(self).current,
                self.next_variable == old(self).next_variable,
                k <= instructions.len(),
                i <= k,
                self.wf(),
                forall|j: int|
                    0 <= j < pending.len() ==> (#[trigger] pending@[j])@.kind is Identifier,
                all == label_pass(old(self).instructions(), 0, start),
                start == (LabelPass {
                    symbols: old(self).allocation().symbols,
                    pending: Seq::<TokenView>::empty(),
                    address: 0,
                }),
                label_pass(
                    self.instructions(),
                    k as int,
                    LabelPass {
                        symbols: self.symbols@,
                        pending: pending@.map_values(|t: &Token| t@),
                        address: i as nat,
                    },
                ) == all,
            decreases instructions.len() - k,
        {
            let ghost waiting = pending@.map_values(|t: &Token| t@);
            match &instructions[k] {
                Instruction::Label(token) => match token.kind {
                    Kind::Identifier(_) => {
                        pending.push(token);
                        assert(pending@.map_values(|t: &Token| t@) =~= waiting.push(token@));
                    },
                    _ => {
                        return Err(Error::code(token, "expect label identifier"));
                    },
                },
                _ => {
                    if pending.len() > 0 && i > 65535 {
                        let token = pending[pending.len() - 1];
                        return Err(Error::code(token, "label address out of range"));
                    }
                    let ghost before = self.symbols@;
                    while pending.len() > 0
                        invariant
                            self.wf(),
                            self.instructions == old(self).instructions,
                            self.current == old(self).current,
                            self.next_variable == old(self).next_variable,
                            pending.len() > 0 ==> i <= 65535,
                            forall|j: int|
                                0 <= j < pending.len() ==> (#[trigger] pending@[j])@.kind is Identifier,
                            bind_all(
                                self.symbols@,
                                pending@.map_values(|t: &Token| t@),
                                i as u16,
                            ) == bind_all(before, waiting, i as u16),
                        decreases pending.len(),
                    {
                        let ghost left = pending@.map_values(|t: &Token| t@);
                        let token = pending.pop().unwrap();
                        assert(pending@.map_values(|t: &Token| t@) =~= left.drop_last());
                        assert(left.last() == token@);
                        match &token.kind {
                            Kind::Identifier(label) => {
                                self.symbols.insert(label.clone(), i as u16);
                            },
                            _ => {},
                        }
                    }
                    assert(pending@.map_values(|t: &Token| t@) =~= Seq::<TokenView>::empty());
                    i += 1;
                },
            }
            k += 1;
        }
        Ok(())
    }

    /// The second pass for one instruction: its word. A new symbol takes the
    /// next free variable address.
    pub fn translate(&mut self, instruction: &Instruction) -> (r: Result<u16, Error>)
        ensures
            final(self).instructions() == old(self).instructions(),
            final(self).position() == old(self).position(),
            match translate_spec(old(self).allocation(), instruction@) {
                Ok((word, next)) => r == Ok::<u16, Error>(word) && final(self).allocation()
                    == next,
                Err(e) => r matches Err(found) && found@ == e && final(self).allocation() == old(self).allocation(),
            },
    {
        match instruction {
            Instruction::A(token) => match &token.kind {
                Kind::Number(n) => Ok(translate_a_number(*n)),
                Kind::Identifier(label) => match self.translate_a_label(label) {
                    Some(word) => Ok(word),
                    None => Err(Error::code(token, "out of variable addresses")),
                },
                _ => Err(Error::code(token, "expect number or identifier")),
            },
            Instruction::C { dest, comp, jump } => Ok(translate_c(*dest, *comp, *jump)),
            Instruction::Label(token) => Err(Error::code(token, "can't translate a label")),
        }
    }

    /// The word that loads the address of `label`. An unknown label is a new
    /// variable; `None` if no address is left for it.
    fn translate_a_label(&mut self, label: &String) -> (r: Option<u16>)
        ensures
            final(self).instructions == old(self).instructions,
            final(self).current == old(self).current,
            ({
                let state = old(self).allocation();
                if state.symbols.contains_key(label@) {
                    r == Some(a_word(state.symbols[label@])) && final(self).allocation() == state
                } else if state.next_variable < u16::MAX {
                    r == Some(a_word(state.next_variable)) && final(self).allocation()
                        == (Allocation {
                        symbols: state.symbols.insert(label@, state.next_variable),
                        next_variable: (state.next_variable + 1) as u16,
                    })
                } else {
                    r is None && final(self).allocation() == state
                }
            }),
    {
        let n = match self.symbols.get(label.as_str()) {
            Some(n) => *n,
            None => {
                if self.next_variable == u16::MAX {
                    return None;
                }
                let n = self.next_variable;
                self.next_variable += 1;
                self.symbols.insert(label.clone(), n);
                n
            },
        };
        Some(translate_a_number(n))
    }

    /// The word of the next instruction that is no label, or the error that
    /// it gives; `None` behind the last one. The place moves behind it.
    pub fn next(&mut self) -> (r: Option<Result<u16, Error>>)
        requires
            old(self).wf(),
        ensures
            final(self).wf(),
            final(self).instructions() == old(self).instructions(),
            ({
                let at = skip_labels(old(self).instructions(), old(self).position());
                if at >= old(self).instructions().len() {
                    &&& r is None
                    &&& final(self).position() == at
                    &&& final(self).allocation() == old(self).allocation()
                } else {
                    &&& final(self).position() == at + 1
                    &&& match translate_spec(
                        old(self).allocation(),
                        old(self).instructions()[at],
                    ) {
                        Ok((word, next)) => r == Some(Ok::<u16, Error>(word)) && final(self).allocation() == next,
                        Err(e) => r matches Some(Err(found)) && found@ == e && final(self).allocation() == old(self).allocation(),
                    }
                }
            }),
    {
        let instructions = self.instructions;
        while self.current < instructions.len() && matches!(
            instructions[self.current],
            Instruction::Label(_)
        )
            invariant
                instructions == self.instructions,
                self.instructions == old(self).instructions,
                self.symbols == old(self).symbols,
                self.next_variable == old(self).next_variable,
                old(self).current <= self.current <= instructions.len(),
                skip_labels(self.instructions(), self.position()) == skip_labels(
                    old(self).instructions(),
                    old(self).position(),
                ),
            decreases instructions.len() - self.current,
        {
            self.current += 1;
        }
        if self.current < instructions.len() {
            let instruction = &instructions[self.current];
            self.current += 1;
            Some(self.translate(instruction))
        } else {
            None
        }
    }

    /// The second pass: the words of the instructions from the generator's
    /// place on, or the first error.
    pub fn generate(&mut self) -> (r: Result<Vec<u16>, Error>)
        requires
            old(self).wf(),
        ensures
            final(self).wf(),
            final(self).instructions() == old(self).instructions(),
            match emit_from(old(self).instructions(), old(self).position(), old(self).allocation()) {
                Ok(words) => {
                    &&& r matches Ok(found) && found@ == words
                    &&& final(self).position() == final(self).instructions().len()
                },
                Err(e) => r matches Err(found) && found@ == e,
            },
    {
        let mut words: Vec<u16> = vec![];
        let ghost all = emit_from(self.instructions(), self.position(), self.allocation());
        loop
            invariant
                self.wf(),
                self.instructions() == old(self).instructions(),
                all == emit_from(
                    old(self).instructions(),
                    old(self).position(),
                    old(self).allocation(),
                ),
                after_words(
                    words@,
                    emit_from(self.instructions(), self.position(), self.allocation()),
                ) == all,
            ensures
                all == Ok::<Seq<u16>, ErrorView>(words@),
                self.position() == self.instructions().len(),
            decreases self.instructions().len() - self.position(),
        {
            proof {
                lemma_skip_labels(self.instructions(), self.position());
            }
            let ghost done = words@;
            match self.next() {
                None => {
                    assert(done + Seq::<u16>::empty() =~= done);
                    break ;
                },
                Some(Ok(word)) => {
                    words.push(word);
                    proof {
                        if let Ok(rest) = emit_from(
                            self.instructions(),
                            self.position(),
                            self.allocation(),
                        ) {
                            assert(done + (seq![word] + rest) =~= done.push(word) + rest);
                        }
                    }
                },
                Some(Err(e)) => {
                    return Err(e);
                },
            }
        }
        Ok(words)
    }
}

/// The word of `@n`.
pub fn translate_a_number(n: u16) -> (word: u16)
    ensures
        word == a_word(n),
{
    n & 0b0111111111111111
}

/// The word of a C-instruction.
pub fn translate_c(dest: Destination, comp: Computation, jump: Jump) -> (word: u16)
    ensures
        word == c_word(dest, comp, jump),
{
    let j = translate_jump(jump);
    let c = translate_comp(comp);
    let d = translate_dest(dest);
    let n = j | c | d;
    let word = n | 0b1110000000000000;
    assert(word == 0xE000u16 | c | d | j) by (bit_vector)
        requires
            word == (j | c | d) | 0b1110000000000000u16,
    ;
    word
}

/// The bits of a jump, in their place in the word: bits 0 to 2.
pub fn translate_jump(jump: Jump) -> (bits: u16)
    ensures
        bits == jump_code(jump),
{
    match jump {
        Jump::Null => 0b000,
        Jump::Greater => 0b001,
        Jump::Equal => 0b010,
        Jump::GreaterEqual => 0b011,
        Jump::Less => 0b100,
        Jump::NotEqual => 0b101,
        Jump::LessEqual => 0b110,
        Jump::Unconditional => 0b111,
    }
}

/// The bits of a computation, in their place in the word: bits 6 to 12.
pub fn translate_comp(comp: Computation) -> (bits: u16)
    ensures
        bits == comp_code(comp) << 6,
{
    let n: u16 = match comp {
        Computation::Zero => 0b0101010,
        Computation::One => 0b0111111,
        Computation::NegativeOne => 0b0111010,
        Computation::D => 0b0001100,
        Computation::A => 0b0110000,
        Computation::M => 0b1110000,
        Computation::NotD => 0b0001101,
        Computation::NotA => 0b0110001,
        Computation::NotM => 0b1110001,
        Computation::NegativeD => 0b0001111,
        Computation::NegativeA => 0b0110011,
        Computation::NegativeM => 0b1110011,
        Computation::DPlusOne => 0b0011111,
        Computation::APlusOne => 0b0110111,
        Computation::MPlusOne => 0b1110111,
        Computation::DMinusOne => 0b0001110,
        Computation::AMinusOne => 0b0110010,
        Computation::MMinusOne => 0b1110010,
        Computation::DPlusA => 0b0000010,
        Computation::DPlusM => 0b1000010,
        Computation::DMinusA => 0b0010011,
        Computation::DMinusM => 0b1010011,
        Computation::AMinusD => 0b0000111,
        Computation::MMinusD => 0b1000111,
        Computation::DAndA => 0b0000000,
        Computation::DAndM => 0b1000000,
        Computation::DOrA => 0b0010101,
        Computation::DOrM => 0b1010101,
    };
    assert(n < 128);
    assert(n << 6 <= 0xFFFFu16) by (bit_vector)
        requires
            n < 128,
    ;
    n << 6
}

/// The bits of a destination, in their place in the word: bits 3 to 5.
pub fn translate_dest(dest: Destination) -> (bits: u16)
    ensures
        bits == dest_code(dest) << 3,
{
    let n: u16 = match dest {
        Destination::Null => 0b000,
        Destination::M => 0b001,
        Destination::D => 0b010,
        Destination::Md => 0b011,
        Destination::A => 0b100,
        Destination::Am => 0b101,
        Destination::Ad => 0b110,
        Destination::Amd => 0b111,
    };
    n << 3
}

} // verus!
