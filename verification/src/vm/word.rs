//! The computer as it reads instruction words, and the proof that the word
//! which the assembler makes of an instruction does what the model of the
//! computer says of the instruction.
//!
//! A word with a clear top bit loads itself into `A`. Any other word is a
//! computation: bit 12 chooses `M` over `A` as the second input of the ALU,
//! bits 6 to 11 control the ALU, bits 3 to 5 choose where the output goes,
//! and bits 0 to 2 when to jump.

use crate::assembler::code::{a_word, c_word, comp_code, dest_code, jump_code};
use crate::assembler::instruction::{Computation, Destination, Jump};
use crate::vm::machine::{compute, step, stores_a, stores_d, stores_m, taken, Machine, Op};
use vstd::prelude::*;

verus! {

/// The output of the ALU for the inputs `x` and `y` under the six control
/// bits: zero `x`, turn `x` over, zero `y`, turn `y` over, add in place of
/// and, turn the output over.
pub open spec fn alu(x: u16, y: u16, control: u16) -> u16 {
    let x = if control & 0x20 != 0 {
        0u16
    } else {
        x
    };
    let x = if control & 0x10 != 0 {
        !x
    } else {
        x
    };
    let y = if control & 0x08 != 0 {
        0u16
    } else {
        y
    };
    let y = if control & 0x04 != 0 {
        !y
    } else {
        y
    };
    let out = if control & 0x02 != 0 {
        (x + y) as u16
    } else {
        x & y
    };
    if control & 0x01 != 0 {
        !out
    } else {
        out
    }
}

/// Whether the three jump bits ask for a jump on `value`: bit 2 where it is
/// below zero, bit 1 where it is zero, bit 0 where it is above.
pub open spec fn jumps(bits: u16, value: u16) -> bool {
    ||| bits & 4 != 0 && value >= 0x8000
    ||| bits & 2 != 0 && value == 0
    ||| bits & 1 != 0 && 0 < value < 0x8000
}

/// The state after the computer has run the instruction word `word`.
pub open spec fn word_step(m: Machine, word: u16) -> Machine {
    if word & 0x8000 == 0 {
        Machine { a: word, pc: m.pc + 1, ..m }
    } else {
        let y = if (word >> 12) & 1 == 1 {
            m.ram[m.a as int]
        } else {
            m.a
        };
        let value = alu(m.d, y, (word >> 6) & 0x3F);
        Machine {
            a: if word & 0x20 != 0 {
                value
            } else {
                m.a
            },
            d: if word & 0x10 != 0 {
                value
            } else {
                m.d
            },
            ram: if word & 0x08 != 0 {
                m.ram.update(m.a as int, value)
            } else {
                m.ram
            },
            pc: if jumps(word & 7, value) {
                m.a as int
            } else {
                m.pc + 1
            },
        }
    }
}

/// The word of an instruction.
pub open spec fn word_of(op: Op) -> u16 {
    match op {
        Op::Load(value) => a_word(value),
        Op::Compute { dest, comp, jump } => c_word(dest, comp, jump),
    }
}

/// What the ALU puts out under the control bits of each computation.
proof fn lemma_alu(x: u16, y: u16)
    ensures
        alu(x, y, 0b101010) == 0,
        alu(x, y, 0b111111) == 1,
        alu(x, y, 0b111010) == 0xFFFF,
        alu(x, y, 0b001100) == x,
        alu(x, y, 0b110000) == y,
        alu(x, y, 0b001101) == crate::vm::machine::not16(x),
        alu(x, y, 0b110001) == crate::vm::machine::not16(y),
        alu(x, y, 0b001111) == crate::vm::machine::sub16(0, x),
        alu(x, y, 0b110011) == crate::vm::machine::sub16(0, y),
        alu(x, y, 0b011111) == crate::vm::machine::add16(x, 1),
        alu(x, y, 0b110111) == crate::vm::machine::add16(y, 1),
        alu(x, y, 0b001110) == crate::vm::machine::sub16(x, 1),
        alu(x, y, 0b110010) == crate::vm::machine::sub16(y, 1),
        alu(x, y, 0b000010) == crate::vm::machine::add16(x, y),
        alu(x, y, 0b010011) == crate::vm::machine::sub16(x, y),
        alu(x, y, 0b000111) == crate::vm::machine::sub16(y, x),
        alu(x, y, 0b000000) == x & y,
        alu(x, y, 0b010101) == x | y,
{
    assert(alu(x, y, 0b101010) == 0 && alu(x, y, 0b111111) == 1 && alu(x, y, 0b111010) == 0xFFFF
        && alu(x, y, 0b001100) == x && alu(x, y, 0b110000) == y && alu(x, y, 0b000000) == x & y
        && alu(x, y, 0b010101) == x | y) by (bit_vector);
    assert(alu(x, y, 0b001101) == crate::vm::machine::not16(x) && alu(x, y, 0b110001)
        == crate::vm::machine::not16(y) && alu(x, y, 0b001111) == crate::vm::machine::sub16(0, x)
        && alu(x, y, 0b110011) == crate::vm::machine::sub16(0, y)) by (bit_vector);
    assert(alu(x, y, 0b011111) == crate::vm::machine::add16(x, 1) && alu(x, y, 0b110111)
        == crate::vm::machine::add16(y, 1) && alu(x, y, 0b001110) == crate::vm::machine::sub16(
        x,
        1,
    ) && alu(x, y, 0b110010) == crate::vm::machine::sub16(y, 1)) by (bit_vector);
    assert(alu(x, y, 0b000010) == crate::vm::machine::add16(x, y) && alu(x, y, 0b010011)
        == crate::vm::machine::sub16(x, y) && alu(x, y, 0b000111) == crate::vm::machine::sub16(
        y,
        x,
    )) by (bit_vector);
}

/// The seven bits of a computation make the ALU put out what the
/// computation means: the top bit chooses `M` over `A`, and the six below
/// control the ALU.
pub proof fn lemma_comp_code_means(comp: Computation, a: u16, d: u16, m: u16)
    ensures
        comp_code(comp) < 128,
        alu(
            d,
            if comp_code(comp) >> 6 == 1 {
                m
            } else {
                a
            },
            comp_code(comp) & 0x3F,
        ) == compute(comp, a, d, m),
{
    let code = comp_code(comp);
    assert(code < 128);
    lemma_alu(d, a);
    lemma_alu(d, m);
    assert(0b0101010u16 >> 6 == 0 && 0b0101010u16 & 0x3F == 0b101010 && 0b0111111u16 >> 6 == 0
        && 0b0111111u16 & 0x3F == 0b111111 && 0b0111010u16 >> 6 == 0 && 0b0111010u16 & 0x3F
        == 0b111010 && 0b0001100u16 >> 6 == 0 && 0b0001100u16 & 0x3F == 0b001100 && 0b0110000u16
        >> 6 == 0 && 0b0110000u16 & 0x3F == 0b110000 && 0b1110000u16 >> 6 == 1 && 0b1110000u16
        & 0x3F == 0b110000 && 0b0001101u16 >> 6 == 0 && 0b0001101u16 & 0x3F == 0b001101
        && 0b0110001u16 >> 6 == 0 && 0b0110001u16 & 0x3F == 0b110001 && 0b1110001u16 >> 6 == 1
        && 0b1110001u16 & 0x3F == 0b110001 && 0b0001111u16 >> 6 == 0 && 0b0001111u16 & 0x3F
        == 0b001111 && 0b0110011u16 >> 6 == 0 && 0b0110011u16 & 0x3F == 0b110011 && 0b1110011u16
        >> 6 == 1 && 0b1110011u16 & 0x3F == 0b110011) by (bit_vector);
    assert(0b0011111u16 >> 6 == 0 && 0b0011111u16 & 0x3F == 0b011111 && 0b0110111u16 >> 6 == 0
        && 0b0110111u16 & 0x3F == 0b110111 && 0b1110111u16 >> 6 == 1 && 0b1110111u16 & 0x3F
        == 0b110111 && 0b0001110u16 >> 6 == 0 && 0b0001110u16 & 0x3F == 0b001110 && 0b0110010u16
        >> 6 == 0 && 0b0110010u16 & 0x3F == 0b110010 && 0b1110010u16 >> 6 == 1 && 0b1110010u16
        & 0x3F == 0b110010 && 0b0000010u16 >> 6 == 0 && 0b0000010u16 & 0x3F == 0b000010
        && 0b1000010u16 >> 6 == 1 && 0b1000010u16 & 0x3F == 0b000010 && 0b0010011u16 >> 6 == 0
        && 0b0010011u16 & 0x3F == 0b010011 && 0b1010011u16 >> 6 == 1 && 0b1010011u16 & 0x3F
        == 0b010011 && 0b0000111u16 >> 6 == 0 && 0b0000111u16 & 0x3F == 0b000111 && 0b1000111u16
        >> 6 == 1 && 0b1000111u16 & 0x3F == 0b000111 && 0b0000000u16 >> 6 == 0 && 0b0000000u16
        & 0x3F == 0b000000 && 0b1000000u16 >> 6 == 1 && 0b1000000u16 & 0x3F == 0b000000
        && 0b0010101u16 >> 6 == 0 && 0b0010101u16 & 0x3F == 0b010101 && 0b1010101u16 >> 6 == 1
        && 0b1010101u16 & 0x3F == 0b010101) by (bit_vector);
}

/// The three bits of a destination choose `A`, `D` and `M` as the
/// destination names them.
pub proof fn lemma_dest_code_means(dest: Destination)
    ensures
        dest_code(dest) < 8,
        (dest_code(dest) & 4 != 0) == stores_a(dest),
        (dest_code(dest) & 2 != 0) == stores_d(dest),
        (dest_code(dest) & 1 != 0) == stores_m(dest),
{
    assert(0u16 & 4 == 0 && 0u16 & 2 == 0 && 0u16 & 1 == 0 && 1u16 & 4 == 0 && 1u16 & 2 == 0 && 1u16
        & 1 != 0 && 2u16 & 4 == 0 && 2u16 & 2 != 0 && 2u16 & 1 == 0 && 3u16 & 4 == 0 && 3u16 & 2
        != 0 && 3u16 & 1 != 0 && 4u16 & 4 != 0 && 4u16 & 2 == 0 && 4u16 & 1 == 0 && 5u16 & 4 != 0
        && 5u16 & 2 == 0 && 5u16 & 1 != 0 && 6u16 & 4 != 0 && 6u16 & 2 != 0 && 6u16 & 1 == 0 && 7u16
        & 4 != 0 && 7u16 & 2 != 0 && 7u16 & 1 != 0) by (bit_vector);
}

/// The three bits of a jump ask for the jump where the jump is taken.
pub proof fn lemma_jump_code_means(jump: Jump, value: u16)
    ensures
        jump_code(jump) < 8,
        jumps(jump_code(jump), value) == taken(jump, value),
{
    assert(0u16 & 4 == 0 && 0u16 & 2 == 0 && 0u16 & 1 == 0 && 1u16 & 4 == 0 && 1u16 & 2 == 0 && 1u16
        & 1 != 0 && 2u16 & 4 == 0 && 2u16 & 2 != 0 && 2u16 & 1 == 0 && 3u16 & 4 == 0 && 3u16 & 2
        != 0 && 3u16 & 1 != 0 && 4u16 & 4 != 0 && 4u16 & 2 == 0 && 4u16 & 1 == 0 && 5u16 & 4 != 0
        && 5u16 & 2 == 0 && 5u16 & 1 != 0 && 6u16 & 4 != 0 && 6u16 & 2 != 0 && 6u16 & 1 == 0 && 7u16
        & 4 != 0 && 7u16 & 2 != 0 && 7u16 & 1 != 0) by (bit_vector);
}

/// The word that the assembler makes of an instruction does on the
/// computer what the instruction means.
pub proof fn lemma_word_means_instruction(m: Machine, op: Op)
    requires
        op matches Op::Load(value) ==> value < 0x8000,
    ensures
        word_step(m, word_of(op)) == step(m, op),
{
    match op {
        Op::Load(value) => {
            assert(value & 0x7FFF == value && (value & 0x7FFF) & 0x8000 == 0) by (bit_vector)
                requires
                    value < 0x8000,
            ;
        },
        Op::Compute { dest, comp, jump } => {
            let word = c_word(dest, comp, jump);
            let c = comp_code(comp);
            let d = dest_code(dest);
            let j = jump_code(jump);
            let value = compute(comp, m.a, m.d, m.ram[m.a as int]);
            lemma_comp_code_means(comp, m.a, m.d, m.ram[m.a as int]);
            lemma_dest_code_means(dest);
            lemma_jump_code_means(jump, value);
            assert(word & 0x8000 != 0 && (word >> 12) & 1 == c >> 6 && (word >> 6) & 0x3F == c
                & 0x3F && word & 7 == j && (word & 0x20 != 0) == (d & 4 != 0) && (word & 0x10 != 0)
                == (d & 2 != 0) && (word & 0x08 != 0) == (d & 1 != 0)) by (bit_vector)
                requires
                    word == 0xE000u16 | (c << 6) | (d << 3) | j,
                    c < 128,
                    d < 8,
                    j < 8,
            ;
        },
    }
}

} // verus!
