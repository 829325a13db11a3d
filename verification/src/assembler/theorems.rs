//! What holds of every source text that the assembler reads and of every
//! program that it translates.

use crate::assembler::code::{
    a_word, bind_all, c_word, comp_code, dest_code, emit_from, generate_spec, jump_code,
    label_pass, label_step, name_of, predefined_symbols, register_spec, translate_spec,
    Allocation, LabelPass, Symbols,
};
use crate::assembler::error::ErrorView;
use crate::assembler::hack_text;
use crate::assembler::instruction::{Computation, Destination, InstructionView, Jump};
use crate::assembler::parser::{
    instruction_at, lemma_instruction_progress, lemma_skip_breaks, parse_from, skip_breaks,
};
use crate::assembler::scanner::{lemma_step_bound, next_line, scan_from, step_at, Lexed};
use crate::assembler::token::{ends_with_eof, KindView, TokenView};
use crate::text::{binary16, decimal};
use vstd::prelude::*;

verus! {

/// How many of `instructions[from..to]` are no labels: the address of the
/// instruction at `to` where `from` has address 0.
pub open spec fn rank(instructions: Seq<InstructionView>, from: int, to: int) -> nat
    decreases to - from,
{
    if to <= from {
        0
    } else {
        rank(instructions, from, to - 1) + if instructions[to - 1] is Label {
            0nat
        } else {
            1nat
        }
    }
}

/// The state of the second pass before the instruction at `to`, where the
/// pass began at `from` in `state`.
pub open spec fn state_before(
    instructions: Seq<InstructionView>,
    from: int,
    state: Allocation,
    to: int,
) -> Allocation
    decreases to - from,
{
    if to <= from {
        state
    } else {
        let before = state_before(instructions, from, state, to - 1);
        if instructions[to - 1] is Label {
            before
        } else {
            match translate_spec(before, instructions[to - 1]) {
                Ok((_, next)) => next,
                Err(_) => before,
            }
        }
    }
}

/// The name that the A-instruction `instruction` refers to, if it is one
/// with a name.
pub open spec fn referred(instruction: InstructionView) -> Option<Seq<char>> {
    match instruction {
        InstructionView::A(token) => match token.kind {
            KindView::Identifier(name) => Some(name),
            _ => None,
        },
        _ => None,
    }
}

/// The words come in the order of the instructions: the word at place
/// `rank(from, to)` is that of the instruction at `to`, translated in the
/// state that the instructions before it have left; and the words from
/// there on are those of `instructions[to..]`.
pub proof fn lemma_words_follow_instructions(
    instructions: Seq<InstructionView>,
    from: int,
    state: Allocation,
    to: int,
)
    requires
        0 <= from <= to <= instructions.len(),
        emit_from(instructions, from, state) is Ok,
    ensures
        ({
            let words = emit_from(instructions, from, state)->Ok_0;
            let before = state_before(instructions, from, state, to);
            &&& rank(instructions, from, to) <= words.len()
            &&& emit_from(instructions, to, before) == Ok::<Seq<u16>, ErrorView>(
                words.skip(rank(instructions, from, to) as int),
            )
            &&& to < instructions.len() && !(instructions[to] is Label) ==> {
                &&& rank(instructions, from, to) < words.len()
                &&& translate_spec(before, instructions[to]) matches Ok((word, _))
                &&& words[rank(instructions, from, to) as int] == translate_spec(
                    before,
                    instructions[to],
                )->Ok_0.0
            }
        }),
    decreases to - from,
{
    let words = emit_from(instructions, from, state)->Ok_0;
    if to == from {
        assert(words.skip(0) =~= words);
    } else {
        lemma_words_follow_instructions(instructions, from, state, to - 1);
        let before = state_before(instructions, from, state, to - 1);
        let r = rank(instructions, from, to - 1) as int;
        if !(instructions[to - 1] is Label) {
            let rest = emit_from(
                instructions,
                to,
                translate_spec(before, instructions[to - 1])->Ok_0.1,
            )->Ok_0;
            assert(words.skip(r + 1) =~= words.skip(r).skip(1));
            assert((seq![words[r]] + rest).skip(1) =~= rest);
        }
    }
    if to < instructions.len() && !(instructions[to] is Label) {
        let before = state_before(instructions, from, state, to);
        let r = rank(instructions, from, to) as int;
        let tail = emit_from(instructions, to, before)->Ok_0;
        let word = translate_spec(before, instructions[to])->Ok_0.0;
        let next = translate_spec(before, instructions[to])->Ok_0.1;
        assert(tail == seq![word] + emit_from(instructions, to + 1, next)->Ok_0);
        assert(tail.len() >= 1 && tail[0] == word);
        assert(words.skip(r).len() == words.len() - r);
        assert(words.skip(r)[0] == words[r]);
    }
}

/// There is exactly one word for each instruction that is no label.
pub proof fn lemma_one_word_per_instruction(instructions: Seq<InstructionView>, state: Allocation)
    requires
        emit_from(instructions, 0, state) is Ok,
    ensures
        emit_from(instructions, 0, state)->Ok_0.len() == rank(
            instructions,
            0,
            instructions.len() as int,
        ),
{
    lemma_words_follow_instructions(instructions, 0, state, instructions.len() as int);
}

/// The text of the words has one line of seventeen characters for each
/// word, in order: its sixteen binary digits and a line feed.
pub proof fn lemma_one_line_per_word(words: Seq<u16>, i: int)
    requires
        0 <= i < words.len(),
    ensures
        hack_text(words).len() == 17 * words.len(),
        hack_text(words).subrange(17 * i, 17 * i + 17) == binary16(words[i]) + seq!['\n'],
    decreases words.len(),
{
    let front = words.drop_last();
    lemma_hack_text_len(front);
    lemma_hack_text_len(words);
    if i < words.len() - 1 {
        lemma_one_line_per_word(front, i);
        assert(hack_text(words).subrange(17 * i, 17 * i + 17) =~= hack_text(front).subrange(
            17 * i,
            17 * i + 17,
        ));
    } else {
        assert(hack_text(words).subrange(17 * i, 17 * i + 17) =~= binary16(words[i]) + seq!['\n']);
    }
}

/// The text of the words has seventeen characters for each word.
pub proof fn lemma_hack_text_len(words: Seq<u16>)
    ensures
        hack_text(words).len() == 17 * words.len(),
    decreases words.len(),
{
    if words.len() > 0 {
        lemma_hack_text_len(words.drop_last());
    }
}

/// In the second pass a symbol keeps its address: what is bound before one
/// instruction is bound to the same address before every later one.
pub proof fn lemma_symbols_stay(
    instructions: Seq<InstructionView>,
    from: int,
    state: Allocation,
    earlier: int,
    later: int,
    name: Seq<char>,
)
    requires
        0 <= from <= earlier <= later <= instructions.len(),
        state_before(instructions, from, state, earlier).symbols.contains_key(name),
    ensures
        state_before(instructions, from, state, later).symbols.contains_key(name),
        state_before(instructions, from, state, later).symbols[name] == state_before(
            instructions,
            from,
            state,
            earlier,
        ).symbols[name],
    decreases later - earlier,
{
    if later > earlier {
        lemma_symbols_stay(instructions, from, state, earlier, later - 1, name);
    }
}

/// Every occurrence of a name in an A-instruction gives the same word.
pub proof fn lemma_symbol_stability(
    instructions: Seq<InstructionView>,
    state: Allocation,
    first: int,
    second: int,
)
    requires
        0 <= first <= second < instructions.len(),
        emit_from(instructions, 0, state) is Ok,
        referred(instructions[first]) is Some,
        referred(instructions[first]) == referred(instructions[second]),
    ensures
        ({
            let words = emit_from(instructions, 0, state)->Ok_0;
            words[rank(instructions, 0, first) as int] == words[rank(instructions, 0, second) as int]
        }),
{
    if first < second {
        let name = referred(instructions[first])->0;
        lemma_words_follow_instructions(instructions, 0, state, first);
        lemma_words_follow_instructions(instructions, 0, state, second);
        // Behind the first occurrence the name is bound, to the address
        // that its word carries.
        let after = state_before(instructions, 0, state, first + 1);
        assert(after.symbols.contains_key(name));
        lemma_symbols_stay(instructions, 0, state, first + 1, second, name);
    }
}

/// Whether the instruction at `at` refers to a name that no instruction
/// before it has bound: a new variable.
pub open spec fn allocates(
    instructions: Seq<InstructionView>,
    from: int,
    state: Allocation,
    at: int,
) -> bool {
    referred(instructions[at]) matches Some(name) && !state_before(
        instructions,
        from,
        state,
        at,
    ).symbols.contains_key(name)
}

/// How many of `instructions[from..to]` refer to a new variable.
pub open spec fn allocations(
    instructions: Seq<InstructionView>,
    from: int,
    state: Allocation,
    to: int,
) -> nat
    decreases to - from,
{
    if to <= from {
        0
    } else {
        allocations(instructions, from, state, to - 1) + if allocates(
            instructions,
            from,
            state,
            to - 1,
        ) {
            1nat
        } else {
            0nat
        }
    }
}

/// Variables take the free addresses in the order in which they first
/// occur: the next free address before an instruction is the first free
/// address and the number of new variables before it, and a new variable at
/// that instruction is bound to it.
pub proof fn lemma_variables_in_order(
    instructions: Seq<InstructionView>,
    from: int,
    state: Allocation,
    to: int,
)
    requires
        0 <= from <= to <= instructions.len(),
        emit_from(instructions, from, state) is Ok,
    ensures
        state_before(instructions, from, state, to).next_variable == state.next_variable
            + allocations(instructions, from, state, to),
        to < instructions.len() && allocates(instructions, from, state, to) ==> {
            let address = state.next_variable + allocations(instructions, from, state, to);
            let name = referred(instructions[to])->0;
            let words = emit_from(instructions, from, state)->Ok_0;
            &&& address < u16::MAX
            &&& state_before(instructions, from, state, to + 1).symbols.contains_key(name)
            &&& state_before(instructions, from, state, to + 1).symbols[name] == address
            &&& words[rank(instructions, from, to) as int] == a_word(address as u16)
        },
    decreases to - from,
{
    if to > from {
        lemma_variables_in_order(instructions, from, state, to - 1);
        lemma_words_follow_instructions(instructions, from, state, to - 1);
    }
    lemma_words_follow_instructions(instructions, from, state, to);
}

/// In a program the first new variable has the address 16, and the `n`-th
/// the address `15 + n`: a variable before which `n - 1` others were new.
pub proof fn lemma_variable_addresses(instructions: Seq<InstructionView>, at: int)
    requires
        generate_spec(instructions) is Ok,
        0 <= at < instructions.len(),
        allocates(instructions, 0, program_start(instructions), at),
    ensures
        ({
            let start = program_start(instructions);
            let n = allocations(instructions, 0, start, at) + 1;
            let name = referred(instructions[at])->0;
            let words = generate_spec(instructions)->Ok_0;
            &&& state_before(instructions, 0, start, at + 1).symbols[name] == 15 + n
            &&& words[rank(instructions, 0, at) as int] == a_word((15 + n) as u16)
        }),
{
    lemma_variables_in_order(instructions, 0, program_start(instructions), at);
}

/// The state in which the second pass over a program begins: the symbols
/// that the first pass has left, and 16 as the next free address.
pub open spec fn program_start(instructions: Seq<InstructionView>) -> Allocation {
    Allocation {
        symbols: register_spec(instructions, predefined_symbols())->Ok_0,
        next_variable: 16,
    }
}

/// In a program every occurrence of a name in an A-instruction gives the
/// same word.
pub proof fn lemma_program_symbol_stability(
    instructions: Seq<InstructionView>,
    first: int,
    second: int,
)
    requires
        generate_spec(instructions) is Ok,
        0 <= first <= second < instructions.len(),
        referred(instructions[first]) is Some,
        referred(instructions[first]) == referred(instructions[second]),
    ensures
        ({
            let words = generate_spec(instructions)->Ok_0;
            words[rank(instructions, 0, first) as int] == words[rank(instructions, 0, second) as int]
        }),
{
    lemma_symbol_stability(instructions, program_start(instructions), first, second);
}

/// A program has exactly one word for each instruction that is no label.
pub proof fn lemma_program_length(instructions: Seq<InstructionView>)
    requires
        generate_spec(instructions) is Ok,
    ensures
        generate_spec(instructions)->Ok_0.len() == rank(
            instructions,
            0,
            instructions.len() as int,
        ),
{
    lemma_one_word_per_instruction(instructions, program_start(instructions));
}

/// The name that the label declaration `instruction` declares, if it is one.
pub open spec fn declared(instruction: InstructionView) -> Option<Seq<char>> {
    match instruction {
        InstructionView::Label(token) => match token.kind {
            KindView::Identifier(name) => Some(name),
            _ => None,
        },
        _ => None,
    }
}

/// Whether one of `instructions[from..]` declares the label `name`.
pub open spec fn declares(instructions: Seq<InstructionView>, from: int, name: Seq<char>) -> bool {
    exists|i: int| from <= i < instructions.len() && declared(#[trigger] instructions[i]) == Some(name)
}

/// Whether the two tables agree on `name`: both hold it, with one address,
/// or neither does.
pub open spec fn agree_on(a: Symbols, b: Symbols, name: Seq<char>) -> bool {
    a.contains_key(name) == b.contains_key(name) && (a.contains_key(name) ==> a[name] == b[name])
}

/// Binding labels changes nothing for a name that is none of them.
pub proof fn lemma_bind_all_keeps(
    symbols: Symbols,
    pending: Seq<TokenView>,
    address: u16,
    name: Seq<char>,
)
    requires
        forall|i: int| 0 <= i < pending.len() ==> name_of(#[trigger] pending[i]) != name,
    ensures
        agree_on(bind_all(symbols, pending, address), symbols, name),
    decreases pending.len(),
{
    if pending.len() > 0 {
        lemma_bind_all_keeps(
            symbols.insert(name_of(pending.last()), address),
            pending.drop_last(),
            address,
            name,
        );
    }
}

/// The first pass changes nothing for a name that no label declares.
pub proof fn lemma_label_pass_keeps(
    instructions: Seq<InstructionView>,
    from: int,
    state: LabelPass,
    name: Seq<char>,
)
    requires
        0 <= from <= instructions.len(),
        !declares(instructions, from, name),
        forall|i: int| 0 <= i < state.pending.len() ==> name_of(#[trigger] state.pending[i]) != name,
        label_pass(instructions, from, state) is Ok,
    ensures
        agree_on(label_pass(instructions, from, state)->Ok_0.symbols, state.symbols, name),
    decreases instructions.len() - from,
{
    if from < instructions.len() {
        let next = label_step(state, instructions[from])->Ok_0;
        assert(declared(instructions[from]) != Some(name));
        assert(!declares(instructions, from + 1, name)) by {
            if declares(instructions, from + 1, name) {
                let i = choose|i: int|
                    from + 1 <= i < instructions.len() && declared(#[trigger] instructions[i])
                        == Some(name);
                assert(from <= i < instructions.len() && declared(instructions[i]) == Some(name));
            }
        }
        match instructions[from] {
            InstructionView::Label(token) => {
                assert forall|i: int| 0 <= i < next.pending.len() implies name_of(
                    #[trigger] next.pending[i],
                ) != name by {
                    if i < state.pending.len() {
                        assert(next.pending[i] == state.pending[i]);
                    }
                }
            },
            _ => {
                lemma_bind_all_keeps(state.symbols, state.pending, state.address as u16, name);
            },
        }
        lemma_label_pass_keeps(instructions, from + 1, next, name);
    }
}

/// A predefined symbol that no label of the program declares gives the word
/// of its predefined address wherever an A-instruction refers to it.
pub proof fn lemma_predefined_symbols_stay(
    instructions: Seq<InstructionView>,
    at: int,
    name: Seq<char>,
)
    requires
        generate_spec(instructions) is Ok,
        0 <= at < instructions.len(),
        referred(instructions[at]) == Some(name),
        predefined_symbols().contains_key(name),
        !declares(instructions, 0, name),
    ensures
        generate_spec(instructions)->Ok_0[rank(instructions, 0, at) as int] == a_word(
            predefined_symbols()[name],
        ),
{
    let start = program_start(instructions);
    lemma_label_pass_keeps(
        instructions,
        0,
        LabelPass { symbols: predefined_symbols(), pending: Seq::empty(), address: 0 },
        name,
    );
    lemma_symbols_stay(instructions, 0, start, 0, at, name);
    lemma_words_follow_instructions(instructions, 0, start, at);
}

/// The length of a name, its second and its last character: enough to tell
/// the predefined names apart.
spec fn signature(name: Seq<char>) -> (nat, char, char) {
    (name.len(), name[1], name[name.len() - 1])
}

/// The name of the register `i`: `R` and the decimal numeral of `i`.
pub open spec fn register_name(i: nat) -> Seq<char> {
    "R"@ + decimal(i)
}

/// The predefined addresses: `R0` to `R15` stand for 0 to 15, `SCREEN` for
/// 16384, `KBD` for 24576, and `SP`, `LCL`, `ARG`, `THIS`, `THAT` for 0 to 4.
/// Each fits in fifteen bits, so its word is the address itself.
pub proof fn lemma_predefined_addresses()
    ensures
        forall|i: nat|
            i < 16 ==> predefined_symbols().contains_key(#[trigger] register_name(i))
                && predefined_symbols()[register_name(i)] == i,
        predefined_symbols().contains_key("SCREEN"@) && predefined_symbols()["SCREEN"@] == 16384,
        predefined_symbols().contains_key("KBD"@) && predefined_symbols()["KBD"@] == 24576,
        predefined_symbols().contains_key("SP"@) && predefined_symbols()["SP"@] == 0,
        predefined_symbols().contains_key("LCL"@) && predefined_symbols()["LCL"@] == 1,
        predefined_symbols().contains_key("ARG"@) && predefined_symbols()["ARG"@] == 2,
        predefined_symbols().contains_key("THIS"@) && predefined_symbols()["THIS"@] == 3,
        predefined_symbols().contains_key("THAT"@) && predefined_symbols()["THAT"@] == 4,
        forall|name: Seq<char>| #[trigger]
            predefined_symbols().contains_key(name) ==> a_word(predefined_symbols()[name])
                == predefined_symbols()[name],
{
    reveal_strlit("R");
    reveal_strlit("R0");
    reveal_strlit("R1");
    reveal_strlit("R2");
    reveal_strlit("R3");
    reveal_strlit("R4");
    reveal_strlit("R5");
    reveal_strlit("R6");
    reveal_strlit("R7");
    reveal_strlit("R8");
    reveal_strlit("R9");
    reveal_strlit("R10");
    reveal_strlit("R11");
    reveal_strlit("R12");
    reveal_strlit("R13");
    reveal_strlit("R14");
    reveal_strlit("R15");
    reveal_strlit("SCREEN");
    reveal_strlit("KBD");
    reveal_strlit("SP");
    reveal_strlit("LCL");
    reveal_strlit("ARG");
    reveal_strlit("THIS");
    reveal_strlit("THAT");
    reveal_with_fuel(decimal, 2);
    assert(register_name(0) =~= "R0"@);
    assert(register_name(1) =~= "R1"@);
    assert(register_name(2) =~= "R2"@);
    assert(register_name(3) =~= "R3"@);
    assert(register_name(4) =~= "R4"@);
    assert(register_name(5) =~= "R5"@);
    assert(register_name(6) =~= "R6"@);
    assert(register_name(7) =~= "R7"@);
    assert(register_name(8) =~= "R8"@);
    assert(register_name(9) =~= "R9"@);
    assert(register_name(10) =~= "R10"@);
    assert(register_name(11) =~= "R11"@);
    assert(register_name(12) =~= "R12"@);
    assert(register_name(13) =~= "R13"@);
    assert(register_name(14) =~= "R14"@);
    assert(register_name(15) =~= "R15"@);
    assert(signature("R0"@) == (2nat, '0', '0'));
    assert(signature("R1"@) == (2nat, '1', '1'));
    assert(signature("R2"@) == (2nat, '2', '2'));
    assert(signature("R3"@) == (2nat, '3', '3'));
    assert(signature("R4"@) == (2nat, '4', '4'));
    assert(signature("R5"@) == (2nat, '5', '5'));
    assert(signature("R6"@) == (2nat, '6', '6'));
    assert(signature("R7"@) == (2nat, '7', '7'));
    assert(signature("R8"@) == (2nat, '8', '8'));
    assert(signature("R9"@) == (2nat, '9', '9'));
    assert(signature("R10"@) == (3nat, '1', '0'));
    assert(signature("R11"@) == (3nat, '1', '1'));
    assert(signature("R12"@) == (3nat, '1', '2'));
    assert(signature("R13"@) == (3nat, '1', '3'));
    assert(signature("R14"@) == (3nat, '1', '4'));
    assert(signature("R15"@) == (3nat, '1', '5'));
    assert(signature("SCREEN"@) == (6nat, 'C', 'N'));
    assert(signature("KBD"@) == (3nat, 'B', 'D'));
    assert(signature("SP"@) == (2nat, 'P', 'P'));
    assert(signature("LCL"@) == (3nat, 'C', 'L'));
    assert(signature("ARG"@) == (3nat, 'R', 'G'));
    assert(signature("THIS"@) == (4nat, 'H', 'S'));
    assert(signature("THAT"@) == (4nat, 'H', 'T'));
    assert(a_word(0) == 0 && a_word(1) == 1 && a_word(2) == 2 && a_word(3) == 3 && a_word(4) == 4
        && a_word(5) == 5 && a_word(6) == 6 && a_word(7) == 7 && a_word(8) == 8 && a_word(9) == 9
        && a_word(10) == 10 && a_word(11) == 11 && a_word(12) == 12 && a_word(13) == 13 && a_word(
        14,
    ) == 14 && a_word(15) == 15 && a_word(16384) == 16384 && a_word(24576) == 24576)
        by (bit_vector);
}

/// The instructions of `instructions[from..]` that are no labels, in order:
/// what takes a place in the program.
pub open spec fn placed(instructions: Seq<InstructionView>, from: int) -> Seq<InstructionView>
    decreases instructions.len() - from,
{
    if from < 0 || from >= instructions.len() {
        Seq::empty()
    } else if instructions[from] is Label {
        placed(instructions, from + 1)
    } else {
        seq![instructions[from]] + placed(instructions, from + 1)
    }
}

/// Whether an A-instruction among `instructions[from..]` refers to `name`.
pub open spec fn refers(instructions: Seq<InstructionView>, from: int, name: Seq<char>) -> bool {
    exists|i: int| from <= i < instructions.len() && referred(#[trigger] instructions[i]) == Some(name)
}

/// The words of a list behind one more instruction in front of it are the
/// words of the list.
proof fn lemma_emit_shift(
    first: InstructionView,
    rest: Seq<InstructionView>,
    pos: int,
    state: Allocation,
)
    requires
        0 <= pos,
    ensures
        emit_from(seq![first] + rest, pos + 1, state) == emit_from(rest, pos, state),
    decreases rest.len() - pos,
{
    let whole = seq![first] + rest;
    if pos < rest.len() {
        assert(whole[pos + 1] == rest[pos]);
        if rest[pos] is Label {
            lemma_emit_shift(first, rest, pos + 1, state);
        } else {
            match translate_spec(state, rest[pos]) {
                Ok((_, next)) => lemma_emit_shift(first, rest, pos + 1, next),
                Err(_) => {},
            }
        }
    }
}

/// The words of a list are the words of its instructions that are no labels.
pub proof fn lemma_emit_placed(instructions: Seq<InstructionView>, from: int, state: Allocation)
    requires
        0 <= from,
    ensures
        emit_from(instructions, from, state) == emit_from(placed(instructions, from), 0, state),
    decreases instructions.len() - from,
{
    if from < instructions.len() {
        if instructions[from] is Label {
            lemma_emit_placed(instructions, from + 1, state);
        } else {
            let rest = placed(instructions, from + 1);
            match translate_spec(state, instructions[from]) {
                Ok((_, next)) => {
                    lemma_emit_placed(instructions, from + 1, next);
                    lemma_emit_shift(instructions[from], rest, 0, next);
                },
                Err(_) => {},
            }
        }
    }
}

/// The second pass reads of the symbol table only the names that the
/// A-instructions refer to: two tables that agree on them, with one next free
/// address, give the same words.
pub proof fn lemma_emit_reads_referred_names(
    instructions: Seq<InstructionView>,
    from: int,
    a: Allocation,
    b: Allocation,
)
    requires
        0 <= from,
        a.next_variable == b.next_variable,
        forall|name: Seq<char>| #[trigger]
            refers(instructions, from, name) ==> agree_on(a.symbols, b.symbols, name),
    ensures
        emit_from(instructions, from, a) == emit_from(instructions, from, b),
    decreases instructions.len() - from,
{
    if from < instructions.len() {
        assert forall|name: Seq<char>| #[trigger]
            refers(instructions, from + 1, name) implies refers(instructions, from, name) by {
            let i = choose|i: int|
                from + 1 <= i < instructions.len() && referred(#[trigger] instructions[i]) == Some(
                    name,
                );
            assert(from <= i < instructions.len() && referred(instructions[i]) == Some(name));
        }
        if instructions[from] is Label {
            lemma_emit_reads_referred_names(instructions, from + 1, a, b);
        } else {
            if let Some(name) = referred(instructions[from]) {
                assert(refers(instructions, from, name));
            }
            match translate_spec(a, instructions[from]) {
                Ok((_, next_a)) => {
                    let next_b = translate_spec(b, instructions[from])->Ok_0.1;
                    assert forall|name: Seq<char>| #[trigger]
                        refers(instructions, from + 1, name) implies agree_on(
                        next_a.symbols,
                        next_b.symbols,
                        name,
                    ) by {
                        assert(refers(instructions, from, name));
                    }
                    lemma_emit_reads_referred_names(instructions, from + 1, next_a, next_b);
                },
                Err(_) => {},
            }
        }
    }
}

/// What the instructions that are no labels refer to, the list refers to.
pub proof fn lemma_placed_refers(instructions: Seq<InstructionView>, from: int, name: Seq<char>)
    requires
        0 <= from,
        refers(placed(instructions, from), 0, name),
    ensures
        refers(instructions, from, name),
    decreases instructions.len() - from,
{
    let kept = placed(instructions, from);
    let i = choose|i: int| 0 <= i < kept.len() && referred(#[trigger] kept[i]) == Some(name);
    if from < instructions.len() {
        if instructions[from] is Label {
            lemma_placed_refers(instructions, from + 1, name);
            let j = choose|j: int|
                from + 1 <= j < instructions.len() && referred(#[trigger] instructions[j]) == Some(
                    name,
                );
            assert(from <= j < instructions.len() && referred(instructions[j]) == Some(name));
        } else if i == 0 {
            assert(referred(instructions[from]) == Some(name));
        } else {
            let rest = placed(instructions, from + 1);
            assert(kept[i] == rest[i - 1]);
            assert(refers(rest, 0, name));
            lemma_placed_refers(instructions, from + 1, name);
            let j = choose|j: int|
                from + 1 <= j < instructions.len() && referred(#[trigger] instructions[j]) == Some(
                    name,
                );
            assert(from <= j < instructions.len() && referred(instructions[j]) == Some(name));
        }
    }
}

/// Label declarations take no place in the program. Two lists of
/// instructions that differ only in their label declarations give the same
/// words, so long as every name that an A-instruction refers to stands for
/// the same address in both.
pub proof fn lemma_labels_are_transparent(
    one: Seq<InstructionView>,
    other: Seq<InstructionView>,
    a: Allocation,
    b: Allocation,
)
    requires
        placed(one, 0) == placed(other, 0),
        a.next_variable == b.next_variable,
        forall|name: Seq<char>| #[trigger]
            refers(one, 0, name) ==> agree_on(a.symbols, b.symbols, name),
    ensures
        emit_from(one, 0, a) == emit_from(other, 0, b),
{
    let kept = placed(one, 0);
    lemma_emit_placed(one, 0, a);
    lemma_emit_placed(other, 0, b);
    assert forall|name: Seq<char>| #[trigger] refers(kept, 0, name) implies agree_on(
        a.symbols,
        b.symbols,
        name,
    ) by {
        lemma_placed_refers(one, 0, name);
    }
    lemma_emit_reads_referred_names(kept, 0, a, b);
}

/// Two programs that differ only in their label declarations have the same
/// words, so long as every name that an A-instruction refers to stands for
/// the same address behind the first pass of both.
pub proof fn lemma_program_labels_are_transparent(
    one: Seq<InstructionView>,
    other: Seq<InstructionView>,
)
    requires
        placed(one, 0) == placed(other, 0),
        register_spec(one, predefined_symbols()) is Ok,
        register_spec(other, predefined_symbols()) is Ok,
        forall|name: Seq<char>| #[trigger]
            refers(one, 0, name) ==> agree_on(
                program_start(one).symbols,
                program_start(other).symbols,
                name,
            ),
    ensures
        generate_spec(one) == generate_spec(other),
{
    lemma_labels_are_transparent(one, other, program_start(one), program_start(other));
}

/// Whether one of the waiting labels is `name`.
pub open spec fn waits(pending: Seq<TokenView>, name: Seq<char>) -> bool {
    exists|i: int| 0 <= i < pending.len() && name_of(#[trigger] pending[i]) == name
}

/// Binding labels binds each of them to the address.
pub proof fn lemma_bind_all_binds(
    symbols: Symbols,
    pending: Seq<TokenView>,
    address: u16,
    name: Seq<char>,
)
    requires
        waits(pending, name),
    ensures
        bind_all(symbols, pending, address).contains_key(name),
        bind_all(symbols, pending, address)[name] == address,
    decreases pending.len(),
{
    let i = choose|i: int| 0 <= i < pending.len() && name_of(#[trigger] pending[i]) == name;
    let next = symbols.insert(name_of(pending.last()), address);
    let front = pending.drop_last();
    if waits(front, name) {
        lemma_bind_all_binds(next, front, address, name);
    } else {
        if i < pending.len() - 1 {
            assert(front[i] == pending[i]);
            assert(false);
        }
        assert forall|j: int| 0 <= j < front.len() implies name_of(#[trigger] front[j])
            != name by {
            if name_of(front[j]) == name {
                assert(waits(front, name));
            }
        }
        lemma_bind_all_keeps(next, front, address, name);
    }
}

/// The first pass over a list behind other instructions is the first pass
/// over the list.
proof fn lemma_label_pass_shift(
    front: Seq<InstructionView>,
    back: Seq<InstructionView>,
    pos: int,
    state: LabelPass,
)
    requires
        0 <= pos,
    ensures
        label_pass(front + back, front.len() + pos, state) == label_pass(back, pos, state),
    decreases back.len() - pos,
{
    if pos < back.len() {
        assert((front + back)[front.len() + pos] == back[pos]);
        match label_step(state, back[pos]) {
            Ok(next) => lemma_label_pass_shift(front, back, pos + 1, next),
            Err(_) => {},
        }
    }
}

/// The first pass over two lists in a row is the first pass over the first
/// and then, from the state that it leaves, over the second.
proof fn lemma_label_pass_concat(
    front: Seq<InstructionView>,
    back: Seq<InstructionView>,
    from: int,
    state: LabelPass,
)
    requires
        0 <= from <= front.len(),
    ensures
        label_pass(front + back, from, state) == match label_pass(front, from, state) {
            Ok(middle) => label_pass(back, 0, middle),
            Err(e) => Err(e),
        },
    decreases front.len() - from,
{
    if from < front.len() {
        assert((front + back)[from] == front[from]);
        match label_step(state, front[from]) {
            Ok(next) => lemma_label_pass_concat(front, back, from + 1, next),
            Err(_) => {},
        }
    } else {
        lemma_label_pass_shift(front, back, 0, state);
    }
}

/// The placed instructions of a list behind other instructions.
proof fn lemma_placed_shift(front: Seq<InstructionView>, back: Seq<InstructionView>, pos: int)
    requires
        0 <= pos,
    ensures
        placed(front + back, front.len() + pos) == placed(back, pos),
    decreases back.len() - pos,
{
    if pos < back.len() {
        assert((front + back)[front.len() + pos] == back[pos]);
        lemma_placed_shift(front, back, pos + 1);
    }
}

/// The placed instructions of two lists in a row.
proof fn lemma_placed_concat(front: Seq<InstructionView>, back: Seq<InstructionView>, from: int)
    requires
        0 <= from <= front.len(),
    ensures
        placed(front + back, from) == placed(front, from) + placed(back, 0),
    decreases front.len() - from,
{
    if from < front.len() {
        assert((front + back)[from] == front[from]);
        lemma_placed_concat(front, back, from + 1);
        assert(placed(front + back, from) =~= placed(front, from) + placed(back, 0));
    } else {
        lemma_placed_shift(front, back, 0);
        assert(placed(front + back, from) =~= placed(front, from) + placed(back, 0));
    }
}

/// Two states of the first pass that differ at most in what they say of
/// `label`: one address, tables that agree on every other name, and the same
/// other names waiting.
pub open spec fn alike_but_for(a: LabelPass, b: LabelPass, label: Seq<char>) -> bool {
    &&& a.address == b.address
    &&& forall|name: Seq<char>|
        name != label ==> #[trigger] agree_on(a.symbols, b.symbols, name)
    &&& forall|name: Seq<char>|
        name != label ==> (#[trigger] waits(a.pending, name) <==> waits(b.pending, name))
}

/// The first pass keeps two such states alike.
proof fn lemma_label_pass_alike(
    instructions: Seq<InstructionView>,
    from: int,
    a: LabelPass,
    b: LabelPass,
    label: Seq<char>,
)
    requires
        0 <= from,
        alike_but_for(a, b, label),
        label_pass(instructions, from, a) is Ok,
        label_pass(instructions, from, b) is Ok,
    ensures
        forall|name: Seq<char>|
            name != label ==> #[trigger] agree_on(
                label_pass(instructions, from, a)->Ok_0.symbols,
                label_pass(instructions, from, b)->Ok_0.symbols,
                name,
            ),
    decreases instructions.len() - from,
{
    if from < instructions.len() {
        let next_a = label_step(a, instructions[from])->Ok_0;
        let next_b = label_step(b, instructions[from])->Ok_0;
        match instructions[from] {
            InstructionView::Label(token) => {
                assert forall|name: Seq<char>| name != label implies (#[trigger] waits(
                    next_a.pending,
                    name,
                ) <==> waits(next_b.pending, name)) by {
                    lemma_waits_push(a.pending, token, name);
                    lemma_waits_push(b.pending, token, name);
                }
            },
            _ => {
                assert forall|name: Seq<char>| name != label implies #[trigger] agree_on(
                    next_a.symbols,
                    next_b.symbols,
                    name,
                ) by {
                    assert(agree_on(a.symbols, b.symbols, name));
                    assert(waits(a.pending, name) <==> waits(b.pending, name));
                    lemma_bind_all_either(a.symbols, a.pending, a.address as u16, name);
                    lemma_bind_all_either(b.symbols, b.pending, b.address as u16, name);
                }
                assert forall|name: Seq<char>| name != label implies (#[trigger] waits(
                    next_a.pending,
                    name,
                ) <==> waits(next_b.pending, name)) by {
                    assert(!waits(next_a.pending, name));
                    assert(!waits(next_b.pending, name));
                }
            },
        }
        lemma_label_pass_alike(instructions, from + 1, next_a, next_b, label);
    }
}

/// A name waits behind one more label if it waited before or is that label.
proof fn lemma_waits_push(pending: Seq<TokenView>, token: TokenView, name: Seq<char>)
    ensures
        waits(pending.push(token), name) <==> (waits(pending, name) || name_of(token) == name),
{
    let more = pending.push(token);
    if waits(pending, name) {
        let i = choose|i: int| 0 <= i < pending.len() && name_of(#[trigger] pending[i]) == name;
        assert(more[i] == pending[i]);
    }
    if name_of(token) == name {
        assert(more[pending.len() as int] == token);
    }
    if waits(more, name) {
        let i = choose|i: int| 0 <= i < more.len() && name_of(#[trigger] more[i]) == name;
        if i < pending.len() {
            assert(more[i] == pending[i]);
        }
    }
}

/// Binding labels gives a waiting name the address and leaves any other
/// name as it was.
proof fn lemma_bind_all_either(
    symbols: Symbols,
    pending: Seq<TokenView>,
    address: u16,
    name: Seq<char>,
)
    ensures
        waits(pending, name) ==> bind_all(symbols, pending, address).contains_key(name)
            && bind_all(symbols, pending, address)[name] == address,
        !waits(pending, name) ==> agree_on(bind_all(symbols, pending, address), symbols, name),
{
    if waits(pending, name) {
        lemma_bind_all_binds(symbols, pending, address, name);
    } else {
        assert forall|j: int| 0 <= j < pending.len() implies name_of(#[trigger] pending[j])
            != name by {
            if name_of(pending[j]) == name {
                assert(waits(pending, name));
            }
        }
        lemma_bind_all_keeps(symbols, pending, address, name);
    }
}

/// `instructions` with the declaration of the label `token` put in before
/// the instruction at `at`.
pub open spec fn with_label(
    instructions: Seq<InstructionView>,
    at: int,
    token: TokenView,
) -> Seq<InstructionView> {
    instructions.take(at) + (seq![InstructionView::Label(token)] + instructions.skip(at))
}

/// Putting in a label declaration, or taking it out, changes the address of
/// no other name.
pub proof fn lemma_label_moves_no_other(
    instructions: Seq<InstructionView>,
    at: int,
    token: TokenView,
    symbols: Symbols,
)
    requires
        0 <= at <= instructions.len(),
        token.kind is Identifier,
        register_spec(instructions, symbols) is Ok,
        register_spec(with_label(instructions, at, token), symbols) is Ok,
    ensures
        forall|name: Seq<char>|
            name != name_of(token) ==> #[trigger] agree_on(
                register_spec(instructions, symbols)->Ok_0,
                register_spec(with_label(instructions, at, token), symbols)->Ok_0,
                name,
            ),
{
    let front = instructions.take(at);
    let back = instructions.skip(at);
    let line = InstructionView::Label(token);
    let start = LabelPass { symbols, pending: Seq::empty(), address: 0 };
    assert(instructions =~= front + back);
    lemma_label_pass_concat(front, back, 0, start);
    lemma_label_pass_concat(front, seq![line] + back, 0, start);
    let middle = label_pass(front, 0, start)->Ok_0;
    let waiting = LabelPass { pending: middle.pending.push(token), ..middle };
    lemma_label_pass_shift(seq![line], back, 0, waiting);
    assert((seq![line] + back)[0] == line);
    assert(label_pass(seq![line] + back, 0, middle) == label_pass(back, 0, waiting));
    assert forall|name: Seq<char>| name != name_of(token) implies (#[trigger] waits(
        middle.pending,
        name,
    ) <==> waits(waiting.pending, name)) by {
        lemma_waits_push(middle.pending, token, name);
    }
    lemma_label_pass_alike(back, 0, middle, waiting, name_of(token));
}

/// A label declaration takes no place in the program: putting in the
/// declaration of a label that no A-instruction refers to, or taking it
/// out, leaves every word as it was.
pub proof fn lemma_unused_label_changes_nothing(
    instructions: Seq<InstructionView>,
    at: int,
    token: TokenView,
)
    requires
        0 <= at <= instructions.len(),
        token.kind is Identifier,
        !refers(instructions, 0, name_of(token)),
        register_spec(instructions, predefined_symbols()) is Ok,
        register_spec(with_label(instructions, at, token), predefined_symbols()) is Ok,
    ensures
        generate_spec(with_label(instructions, at, token)) == generate_spec(instructions),
{
    let front = instructions.take(at);
    let back = instructions.skip(at);
    let line = InstructionView::Label(token);
    assert(instructions =~= front + back);
    lemma_placed_concat(front, back, 0);
    lemma_placed_concat(front, seq![line] + back, 0);
    lemma_placed_shift(seq![line], back, 0);
    assert((seq![line] + back)[0] == line);
    assert(placed(seq![line] + back, 0) == placed(back, 0));
    lemma_label_moves_no_other(instructions, at, token, predefined_symbols());
    lemma_program_labels_are_transparent(instructions, with_label(instructions, at, token));
}

/// The word of a C-instruction holds its fields side by side: three set
/// bits on top, then the seven bits of the computation, the three of the
/// destination and the three of the jump. The word of an A-instruction has
/// its top bit clear.
pub proof fn lemma_word_fields(dest: Destination, comp: Computation, jump: Jump, n: u16)
    ensures
        c_word(dest, comp, jump) >> 13 == 0b111,
        (c_word(dest, comp, jump) >> 6) & 0x7F == comp_code(comp),
        (c_word(dest, comp, jump) >> 3) & 0x7 == dest_code(dest),
        c_word(dest, comp, jump) & 0x7 == jump_code(jump),
        a_word(n) >> 15 == 0,
        a_word(n) == n % 0x8000,
{
    let c = comp_code(comp);
    let d = dest_code(dest);
    let j = jump_code(jump);
    let word = c_word(dest, comp, jump);
    assert(c < 128 && d < 8 && j < 8);
    assert(word >> 13 == 0b111 && (word >> 6) & 0x7F == c && (word >> 3) & 0x7 == d && word & 0x7
        == j) by (bit_vector)
        requires
            word == 0xE000u16 | (c << 6) | (d << 3) | j,
            c < 128,
            d < 8,
            j < 8,
    ;
    assert((n & 0x7FFF) >> 15 == 0 && n & 0x7FFF == n % 0x8000) by (bit_vector);
}

/// Whether every A-instruction carries a number or an identifier, and every
/// label declaration an identifier: what the parser makes.
pub open spec fn well_formed(instructions: Seq<InstructionView>) -> bool {
    forall|i: int|
        0 <= i < instructions.len() ==> match #[trigger] instructions[i] {
            InstructionView::A(token) => token.kind is Number || token.kind is Identifier,
            InstructionView::Label(token) => token.kind is Identifier,
            InstructionView::C { .. } => true,
        }
}

/// The instructions that the parser makes are well formed.
pub proof fn lemma_parser_makes_well_formed(tokens: Seq<TokenView>, pos: int)
    requires
        ends_with_eof(tokens),
        0 <= pos < tokens.len(),
        parse_from(tokens, pos) is Ok,
    ensures
        well_formed(parse_from(tokens, pos)->Ok_0),
    decreases tokens.len() - pos,
{
    let start = skip_breaks(tokens, pos);
    lemma_skip_breaks(tokens, pos);
    if !(tokens[start].kind is Eof) {
        lemma_instruction_progress(tokens, start);
        let (first, next) = instruction_at(tokens, start)->Ok_0;
        lemma_parser_makes_well_formed(tokens, next);
        let rest = parse_from(tokens, next)->Ok_0;
        let all = parse_from(tokens, pos)->Ok_0;
        assert(all == seq![first] + rest);
        assert forall|i: int| 0 <= i < all.len() implies match #[trigger] all[i] {
            InstructionView::A(token) => token.kind is Number || token.kind is Identifier,
            InstructionView::Label(token) => token.kind is Identifier,
            InstructionView::C { .. } => true,
        } by {
            if i > 0 {
                assert(all[i] == rest[i - 1]);
            }
        }
    }
}

/// Whether the error tells that the program is too large: a label beyond
/// the last address, or no address left for a variable.
pub open spec fn is_size_error(e: ErrorView) -> bool {
    e matches ErrorView::Code { message, .. } && (message == "label address out of range"@
        || message == "out of variable addresses"@)
}

/// The first pass over well-formed instructions fails only on a label
/// beyond the last address.
proof fn lemma_label_pass_errors(instructions: Seq<InstructionView>, from: int, state: LabelPass)
    requires
        0 <= from,
        well_formed(instructions),
        label_pass(instructions, from, state) is Err,
    ensures
        is_size_error(label_pass(instructions, from, state)->Err_0),
    decreases instructions.len() - from,
{
    if from < instructions.len() {
        match label_step(state, instructions[from]) {
            Ok(next) => lemma_label_pass_errors(instructions, from + 1, next),
            Err(_) => {},
        }
    }
}

/// The second pass over well-formed instructions fails only where no address
/// is left for a variable.
proof fn lemma_emit_errors(instructions: Seq<InstructionView>, from: int, state: Allocation)
    requires
        0 <= from,
        well_formed(instructions),
        emit_from(instructions, from, state) is Err,
    ensures
        is_size_error(emit_from(instructions, from, state)->Err_0),
    decreases instructions.len() - from,
{
    if from < instructions.len() {
        if instructions[from] is Label {
            lemma_emit_errors(instructions, from + 1, state);
        } else {
            match translate_spec(state, instructions[from]) {
                Ok((_, next)) => lemma_emit_errors(instructions, from + 1, next),
                Err(_) => {},
            }
        }
    }
}

/// Code generation fails on what the parser makes only where the program is
/// too large. Every other error of the code generator needs instructions
/// that no source text gives.
pub proof fn lemma_parsed_programs_translate(instructions: Seq<InstructionView>)
    requires
        well_formed(instructions),
        generate_spec(instructions) is Err,
    ensures
        is_size_error(generate_spec(instructions)->Err_0),
{
    let start = LabelPass { symbols: predefined_symbols(), pending: Seq::empty(), address: 0 };
    if label_pass(instructions, 0, start) is Err {
        lemma_label_pass_errors(instructions, 0, start);
    } else {
        lemma_emit_errors(instructions, 0, program_start(instructions));
    }
}

/// The tokens of a source are closed by an `Eof`.
pub proof fn lemma_scan_ends_with_eof(source: Seq<char>, pos: int, line: usize)
    requires
        0 <= pos,
    ensures
        scan_from(source, pos, line) matches Ok(tokens) ==> ends_with_eof(tokens),
    decreases source.len() - pos,
{
    if pos < source.len() {
        lemma_step_bound(source, pos);
        let step = step_at(source, pos);
        match step.what {
            Lexed::Fail(_) => {},
            Lexed::Skip => {
                lemma_scan_ends_with_eof(source, pos + step.len, line);
            },
            Lexed::Emit(kind) => {
                lemma_scan_ends_with_eof(source, pos + step.len, line);
                lemma_scan_ends_with_eof(source, pos + step.len, next_line(line));
            },
        }
    }
}

} // verus!
