//! A model of the Hack computer.
//!
//! The computer has two registers, `A` and `D`, a program counter, and a
//! memory of 16-bit words. `M` is the memory word that `A` points at. The
//! model gives every 16-bit address a word of its own.

use crate::assembler::code::a_word;
use crate::assembler::instruction::{Computation, Destination, Jump};
use crate::vm::lines::LineView;
use vstd::prelude::*;

verus! {

/// The sum of two words, as sixteen bits hold it.
pub open spec fn add16(x: u16, y: u16) -> u16 {
    if x + y < 0x10000 {
        (x + y) as u16
    } else {
        (x + y - 0x10000) as u16
    }
}

/// The difference of two words, as sixteen bits hold it.
pub open spec fn sub16(x: u16, y: u16) -> u16 {
    if x >= y {
        (x - y) as u16
    } else {
        (x - y + 0x10000) as u16
    }
}

/// Every bit of the word turned over.
pub open spec fn not16(x: u16) -> u16 {
    (0xFFFF - x) as u16
}

/// What the ALU puts out for a computation, where `a` and `d` are the
/// registers and `m` is the memory word that `A` points at.
pub open spec fn compute(comp: Computation, a: u16, d: u16, m: u16) -> u16 {
    match comp {
        Computation::Zero => 0,
        Computation::One => 1,
        Computation::NegativeOne => 0xFFFF,
        Computation::D => d,
        Computation::A => a,
        Computation::M => m,
        Computation::NotD => not16(d),
        Computation::NotA => not16(a),
        Computation::NotM => not16(m),
        Computation::NegativeD => sub16(0, d),
        Computation::NegativeA => sub16(0, a),
        Computation::NegativeM => sub16(0, m),
        Computation::DPlusOne => add16(d, 1),
        Computation::APlusOne => add16(a, 1),
        Computation::MPlusOne => add16(m, 1),
        Computation::DMinusOne => sub16(d, 1),
        Computation::AMinusOne => sub16(a, 1),
        Computation::MMinusOne => sub16(m, 1),
        Computation::DPlusA => add16(d, a),
        Computation::DPlusM => add16(d, m),
        Computation::DMinusA => sub16(d, a),
        Computation::DMinusM => sub16(d, m),
        Computation::AMinusD => sub16(a, d),
        Computation::MMinusD => sub16(m, d),
        Computation::DAndA => d & a,
        Computation::DAndM => d & m,
        Computation::DOrA => d | a,
        Computation::DOrM => d | m,
    }
}

/// Whether the destination takes in `A`.
pub open spec fn stores_a(dest: Destination) -> bool {
    dest == Destination::A || dest == Destination::Am || dest == Destination::Ad || dest
        == Destination::Amd
}

/// Whether the destination takes in `D`.
pub open spec fn stores_d(dest: Destination) -> bool {
    dest == Destination::D || dest == Destination::Md || dest == Destination::Ad || dest
        == Destination::Amd
}

/// Whether the destination takes in `M`.
pub open spec fn stores_m(dest: Destination) -> bool {
    dest == Destination::M || dest == Destination::Md || dest == Destination::Am || dest
        == Destination::Amd
}

/// Whether the jump is taken on the value `value`, read as a number in
/// two's complement.
pub open spec fn taken(jump: Jump, value: u16) -> bool {
    let negative = value >= 0x8000;
    let zero = value == 0;
    let positive = !negative && !zero;
    match jump {
        Jump::Null => false,
        Jump::Unconditional => true,
        Jump::Greater => positive,
        Jump::GreaterEqual => !negative,
        Jump::Less => negative,
        Jump::LessEqual => !positive,
        Jump::Equal => zero,
        Jump::NotEqual => !zero,
    }
}

/// An instruction of the computer: `@value`, or a computation with its
/// destination and its jump.
pub enum Op {
    Load(u16),
    Compute { dest: Destination, comp: Computation, jump: Jump },
}

/// The state of the computer.
pub struct Machine {
    pub a: u16,
    pub d: u16,
    pub pc: int,
    pub ram: Seq<u16>,
}

impl Machine {
    /// The memory has a word for every 16-bit address.
    pub open spec fn wf(self) -> bool {
        self.ram.len() == 0x10000
    }

    /// The memory word at `address`.
    pub open spec fn at(self, address: int) -> u16 {
        self.ram[address]
    }
}

/// The state after one instruction. A computation reads `M` at the address
/// in `A`, writes `M` there, and jumps to the address in `A`, all as `A` is
/// before the instruction.
pub open spec fn step(m: Machine, op: Op) -> Machine {
    match op {
        Op::Load(value) => Machine { a: value, pc: m.pc + 1, ..m },
        Op::Compute { dest, comp, jump } => {
            let value = compute(comp, m.a, m.d, m.ram[m.a as int]);
            Machine {
                a: if stores_a(dest) {
                    value
                } else {
                    m.a
                },
                d: if stores_d(dest) {
                    value
                } else {
                    m.d
                },
                ram: if stores_m(dest) {
                    m.ram.update(m.a as int, value)
                } else {
                    m.ram
                },
                pc: if taken(jump, value) {
                    m.a as int
                } else {
                    m.pc + 1
                },
            }
        },
    }
}

/// The state after `steps` instructions of `program`. The computer stands
/// still where the program counter leaves the program.
pub open spec fn run(program: Seq<Op>, m: Machine, steps: nat) -> Machine
    decreases steps,
{
    if steps == 0 || m.pc < 0 || m.pc >= program.len() {
        m
    } else {
        run(program, step(m, program[m.pc]), (steps - 1) as nat)
    }
}

/// The addresses that the symbols of a program stand for.
pub type Addresses = Map<Seq<char>, u16>;

/// The instruction that the assembler makes of a line that is no label
/// declaration, where `addresses` resolves the symbols.
pub open spec fn op_of(line: LineView, addresses: Addresses) -> Op {
    match line {
        LineView::Number(n) => Op::Load(a_word(n)),
        LineView::Symbol(name) => Op::Load(a_word(addresses[name])),
        LineView::Compute { dest, comp, jump } => Op::Compute { dest, comp, jump },
        LineView::Label(_) => Op::Load(0),
    }
}

/// The instructions of lines that hold no label declaration.
pub open spec fn ops_of(lines: Seq<LineView>, addresses: Addresses) -> Seq<Op> {
    lines.map_values(|line: LineView| op_of(line, addresses))
}

/// Whether the instructions `ops` stand in `program` from `at` on.
pub open spec fn stands_at(program: Seq<Op>, at: int, ops: Seq<Op>) -> bool {
    &&& 0 <= at
    &&& at + ops.len() <= program.len()
    &&& forall|i: int| 0 <= i < ops.len() ==> program[at + i] == #[trigger] ops[i]
}

/// The pointers of the stack machine and the scratch registers are at
/// their places: `SP`, `LCL`, `ARG`, `THIS`, `THAT` at 0 to 4, and `R13`,
/// `R14`, `R15` at 13 to 15.
pub open spec fn wired(addresses: Addresses) -> bool {
    &&& addresses["SP"@] == 0
    &&& addresses["LCL"@] == 1
    &&& addresses["ARG"@] == 2
    &&& addresses["THIS"@] == 3
    &&& addresses["THAT"@] == 4
    &&& addresses["R13"@] == 13
    &&& addresses["R14"@] == 14
    &&& addresses["R15"@] == 15
}

/// A word of fifteen bits is loaded as it is.
pub proof fn lemma_a_word_small(value: u16)
    requires
        value < 0x8000,
    ensures
        a_word(value) == value,
{
    assert(value & 0x7FFF == value) by (bit_vector)
        requires
            value < 0x8000,
    ;
}

/// Running `first + then` steps is running `first` and then `then`.
pub proof fn lemma_run_split(program: Seq<Op>, m: Machine, first: nat, then: nat)
    ensures
        run(program, m, first + then) == run(program, run(program, m, first), then),
    decreases first,
{
    if first == 0 {
    } else if m.pc < 0 || m.pc >= program.len() {
        lemma_run_halted(program, m, then);
    } else {
        lemma_run_split(program, step(m, program[m.pc]), (first - 1) as nat, then);
    }
}

/// Outside the program the computer stands still.
pub proof fn lemma_run_halted(program: Seq<Op>, m: Machine, steps: nat)
    requires
        m.pc < 0 || m.pc >= program.len(),
    ensures
        run(program, m, steps) == m,
{
}

/// Where two lists of instructions stand in a row, each of them stands.
pub proof fn lemma_stands_split(program: Seq<Op>, at: int, first: Seq<Op>, then: Seq<Op>)
    requires
        stands_at(program, at, first + then),
    ensures
        stands_at(program, at, first),
        stands_at(program, at + first.len(), then),
{
    assert forall|i: int| 0 <= i < first.len() implies program[at + i] == #[trigger] first[i] by {
        assert((first + then)[i] == first[i]);
    }
    assert forall|i: int| 0 <= i < then.len() implies program[at + first.len() + i]
        == #[trigger] then[i] by {
        assert((first + then)[first.len() + i] == then[i]);
    }
}

/// The instructions of two lists of lines in a row.
pub proof fn lemma_ops_concat(first: Seq<LineView>, then: Seq<LineView>, addresses: Addresses)
    ensures
        ops_of(first + then, addresses) == ops_of(first, addresses) + ops_of(then, addresses),
{
    assert(ops_of(first + then, addresses) =~= ops_of(first, addresses) + ops_of(then, addresses));
}

} // verus!
