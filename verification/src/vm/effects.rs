//! What the code of each command does when the computer runs it. `SP`
//! points at the first free word above the stack; `x` is the second word
//! from the top and `y` is the top.

use crate::assembler::code::a_word;
use crate::assembler::instruction::{Computation, Destination};
use crate::vm::code::{
    arithmetic_lines, base_name, compare_lines, cond_label, goto_lines, if_goto_lines, jump_of,
    pointer_name, pop_i_lines, pop_pointer_lines, pop_static_lines, pop_temp_lines,
    push_constant_lines, push_d_lines, push_i_lines, push_pointer_lines, push_static_lines,
    push_symbol_lines, push_temp_lines, static_name, take_one_lines, take_two_lines,
};
use crate::vm::lines::{assign, at};
use crate::vm::machine::{
    add16, lemma_a_word_small, lemma_ops_concat, lemma_run_split, lemma_stands_split,
    not16, ops_of, run, stands_at, sub16, taken, wired, Addresses, Machine, Op,
};
use crate::vm::parser::{CommandView, Segment};
use vstd::prelude::*;

verus! {

/// Pushing `D`: the word goes to the top of the stack, and the stack
/// pointer goes up by one.
pub proof fn lemma_push_d(program: Seq<Op>, addresses: Addresses, m: Machine)
    requires
        m.wf(),
        wired(addresses),
        stands_at(program, m.pc, ops_of(push_d_lines(), addresses)),
        0 < m.at(0) < 0xFFFF,
    ensures
        run(program, m, 5) == (Machine {
            a: 0,
            d: m.d,
            pc: m.pc + 5,
            ram: m.ram.update(m.at(0) as int, m.d).update(0, add16(m.at(0), 1)),
        }),
{
    let ops = ops_of(push_d_lines(), addresses);
    lemma_a_word_small(0);
    assert(program[m.pc + 0] == ops[0]);
    assert(program[m.pc + 1] == ops[1]);
    assert(program[m.pc + 2] == ops[2]);
    assert(program[m.pc + 3] == ops[3]);
    assert(program[m.pc + 4] == ops[4]);
    reveal_with_fuel(run, 6);
}

/// Popping into `D`: the stack pointer goes down by one, and `A` points at
/// the word that was the top.
pub proof fn lemma_take_one(program: Seq<Op>, addresses: Addresses, m: Machine)
    requires
        m.wf(),
        wired(addresses),
        stands_at(program, m.pc, ops_of(take_one_lines(), addresses)),
        m.at(0) >= 2,
    ensures
        run(program, m, 3) == (Machine {
            a: (m.at(0) - 1) as u16,
            d: m.at(m.at(0) - 1),
            pc: m.pc + 3,
            ram: m.ram.update(0, (m.at(0) - 1) as u16),
        }),
{
    let ops = ops_of(take_one_lines(), addresses);
    lemma_a_word_small(0);
    assert(program[m.pc + 0] == ops[0]);
    assert(program[m.pc + 1] == ops[1]);
    assert(program[m.pc + 2] == ops[2]);
    reveal_with_fuel(run, 4);
}

/// Popping `y` into `D` and pointing `A` at `x`.
pub proof fn lemma_take_two(program: Seq<Op>, addresses: Addresses, m: Machine)
    requires
        m.wf(),
        wired(addresses),
        stands_at(program, m.pc, ops_of(take_two_lines(), addresses)),
        m.at(0) >= 3,
    ensures
        run(program, m, 5) == (Machine {
            a: (m.at(0) - 2) as u16,
            d: m.at(m.at(0) - 1),
            pc: m.pc + 5,
            ram: m.ram.update(0, (m.at(0) - 1) as u16),
        }),
{
    let ops = ops_of(take_two_lines(), addresses);
    lemma_a_word_small(0);
    assert(program[m.pc + 0] == ops[0]);
    assert(program[m.pc + 1] == ops[1]);
    assert(program[m.pc + 2] == ops[2]);
    assert(program[m.pc + 3] == ops[3]);
    assert(program[m.pc + 4] == ops[4]);
    reveal_with_fuel(run, 6);
}

/// Pushing the value of a symbol: the word that the symbol stands for goes
/// to the top of the stack.
pub proof fn lemma_push_symbol(
    program: Seq<Op>,
    addresses: Addresses,
    m: Machine,
    name: Seq<char>,
)
    requires
        m.wf(),
        wired(addresses),
        addresses[name] < 0x8000,
        stands_at(program, m.pc, ops_of(push_symbol_lines(name), addresses)),
        0 < m.at(0) < 0xFFFF,
    ensures
        run(program, m, 7) == (Machine {
            a: 0,
            d: m.at(addresses[name] as int),
            pc: m.pc + 7,
            ram: m.ram.update(m.at(0) as int, m.at(addresses[name] as int)).update(
                0,
                add16(m.at(0), 1),
            ),
        }),
{
    let ops = ops_of(push_symbol_lines(name), addresses);
    lemma_a_word_small(0);
    lemma_a_word_small(addresses[name]);
    assert(program[m.pc + 0] == ops[0]);
    assert(program[m.pc + 1] == ops[1]);
    assert(program[m.pc + 2] == ops[2]);
    assert(program[m.pc + 3] == ops[3]);
    assert(program[m.pc + 4] == ops[4]);
    assert(program[m.pc + 5] == ops[5]);
    assert(program[m.pc + 6] == ops[6]);
    reveal_with_fuel(run, 8);
}

/// `push constant index`: the number, as fifteen bits hold it, goes to the
/// top of the stack.
pub proof fn lemma_push_constant(program: Seq<Op>, addresses: Addresses, m: Machine, index: u16)
    requires
        m.wf(),
        wired(addresses),
        stands_at(program, m.pc, ops_of(push_constant_lines(index), addresses)),
        0 < m.at(0) < 0xFFFF,
    ensures
        run(program, m, 7) == (Machine {
            a: 0,
            d: a_word(index),
            pc: m.pc + 7,
            ram: m.ram.update(m.at(0) as int, a_word(index)).update(0, add16(m.at(0), 1)),
        }),
{
    let ops = ops_of(push_constant_lines(index), addresses);
    lemma_a_word_small(0);
    assert(program[m.pc + 0] == ops[0]);
    assert(program[m.pc + 1] == ops[1]);
    assert(program[m.pc + 2] == ops[2]);
    assert(program[m.pc + 3] == ops[3]);
    assert(program[m.pc + 4] == ops[4]);
    assert(program[m.pc + 5] == ops[5]);
    assert(program[m.pc + 6] == ops[6]);
    reveal_with_fuel(run, 8);
}

/// `push segment index` for `local`, `argument`, `this` and `that`: the
/// word at the segment's base and the index goes to the top of the stack.
pub proof fn lemma_push_indirect(
    program: Seq<Op>,
    addresses: Addresses,
    m: Machine,
    segment: Segment,
    index: u16,
)
    requires
        m.wf(),
        wired(addresses),
        segment == Segment::Local || segment == Segment::Argument || segment == Segment::This
            || segment == Segment::That,
        stands_at(program, m.pc, ops_of(push_i_lines(base_name(segment), index), addresses)),
        0 < m.at(0) < 0xFFFF,
    ensures
        ({
            let base = m.at(addresses[base_name(segment)] as int);
            let source = add16(a_word(index), base);
            &&& 1 <= addresses[base_name(segment)] <= 4
            &&& run(program, m, 10) == (Machine {
                a: 0,
                d: m.at(source as int),
                pc: m.pc + 10,
                ram: m.ram.update(m.at(0) as int, m.at(source as int)).update(
                    0,
                    add16(m.at(0), 1),
                ),
            })
        }),
{
    let ops = ops_of(push_i_lines(base_name(segment), index), addresses);
    lemma_a_word_small(0);
    lemma_a_word_small(1);
    lemma_a_word_small(2);
    lemma_a_word_small(3);
    lemma_a_word_small(4);
    assert(program[m.pc + 0] == ops[0]);
    assert(program[m.pc + 1] == ops[1]);
    assert(program[m.pc + 2] == ops[2]);
    assert(program[m.pc + 3] == ops[3]);
    assert(program[m.pc + 4] == ops[4]);
    let base = m.at(addresses[base_name(segment)] as int);
    let source = add16(a_word(index), base);
    let m5 = run(program, m, 5);
    assert(m5 == (Machine { a: source, d: m.at(source as int), pc: m.pc + 5, ram: m.ram })) by {
        reveal_with_fuel(run, 6);
    }
    assert(program[m5.pc + 0] == ops[5]);
    assert(program[m5.pc + 1] == ops[6]);
    assert(program[m5.pc + 2] == ops[7]);
    assert(program[m5.pc + 3] == ops[8]);
    assert(program[m5.pc + 4] == ops[9]);
    assert(run(program, m5, 5) == (Machine {
        a: 0,
        d: m.at(source as int),
        pc: m.pc + 10,
        ram: m.ram.update(m.at(0) as int, m.at(source as int)).update(0, add16(m.at(0), 1)),
    })) by {
        reveal_with_fuel(run, 6);
    }
    lemma_run_split(program, m, 5, 5);
}

/// `push temp index`: the word at 5 and the index goes to the top of the
/// stack.
pub proof fn lemma_push_temp(program: Seq<Op>, addresses: Addresses, m: Machine, index: u16)
    requires
        m.wf(),
        wired(addresses),
        stands_at(program, m.pc, ops_of(push_temp_lines(index), addresses)),
        0 < m.at(0) < 0xFFFF,
    ensures
        ({
            let source = add16(a_word(index), 5);
            run(program, m, 10) == (Machine {
                a: 0,
                d: m.at(source as int),
                pc: m.pc + 10,
                ram: m.ram.update(m.at(0) as int, m.at(source as int)).update(
                    0,
                    add16(m.at(0), 1),
                ),
            })
        }),
{
    let ops = ops_of(push_temp_lines(index), addresses);
    lemma_a_word_small(0);
    lemma_a_word_small(5);
    assert(program[m.pc + 0] == ops[0]);
    assert(program[m.pc + 1] == ops[1]);
    assert(program[m.pc + 2] == ops[2]);
    assert(program[m.pc + 3] == ops[3]);
    assert(program[m.pc + 4] == ops[4]);
    let source = add16(a_word(index), 5);
    let m5 = run(program, m, 5);
    assert(m5 == (Machine { a: source, d: m.at(source as int), pc: m.pc + 5, ram: m.ram })) by {
        reveal_with_fuel(run, 6);
    }
    assert(program[m5.pc + 0] == ops[5]);
    assert(program[m5.pc + 1] == ops[6]);
    assert(program[m5.pc + 2] == ops[7]);
    assert(program[m5.pc + 3] == ops[8]);
    assert(program[m5.pc + 4] == ops[9]);
    assert(run(program, m5, 5) == (Machine {
        a: 0,
        d: m.at(source as int),
        pc: m.pc + 10,
        ram: m.ram.update(m.at(0) as int, m.at(source as int)).update(0, add16(m.at(0), 1)),
    })) by {
        reveal_with_fuel(run, 6);
    }
    lemma_run_split(program, m, 5, 5);
}

/// `push static index` of the file `prefix`: the word of the file's static
/// variable goes to the top of the stack.
pub proof fn lemma_push_static(
    program: Seq<Op>,
    addresses: Addresses,
    m: Machine,
    prefix: Seq<char>,
    index: u16,
)
    requires
        m.wf(),
        wired(addresses),
        addresses[static_name(prefix, index)] < 0x8000,
        stands_at(program, m.pc, ops_of(push_static_lines(prefix, index), addresses)),
        0 < m.at(0) < 0xFFFF,
    ensures
        ({
            let source = addresses[static_name(prefix, index)] as int;
            run(program, m, 7) == (Machine {
                a: 0,
                d: m.at(source),
                pc: m.pc + 7,
                ram: m.ram.update(m.at(0) as int, m.at(source)).update(0, add16(m.at(0), 1)),
            })
        }),
{
    assert(push_static_lines(prefix, index) == push_symbol_lines(static_name(prefix, index)));
    lemma_push_symbol(program, addresses, m, static_name(prefix, index));
}

/// `push pointer index`: `THIS` for 0 and `THAT` for 1 goes to the top of
/// the stack.
pub proof fn lemma_push_pointer(program: Seq<Op>, addresses: Addresses, m: Machine, index: u16)
    requires
        m.wf(),
        wired(addresses),
        index <= 1,
        stands_at(program, m.pc, ops_of(push_pointer_lines(index), addresses)),
        0 < m.at(0) < 0xFFFF,
    ensures
        run(program, m, 7) == (Machine {
            a: 0,
            d: m.at(3 + index),
            pc: m.pc + 7,
            ram: m.ram.update(m.at(0) as int, m.at(3 + index)).update(0, add16(m.at(0), 1)),
        }),
{
    assert(push_pointer_lines(index) == push_symbol_lines(pointer_name(index)));
    lemma_push_symbol(program, addresses, m, pointer_name(index));
}

/// Popping into the word at `target`, which `D` holds, by way of `R13`.
proof fn lemma_pop_to_d(program: Seq<Op>, addresses: Addresses, m: Machine, at: int)
    requires
        m.wf(),
        wired(addresses),
        m.at(0) >= 17,
        stands_at(
            program,
            at,
            ops_of(
                seq![crate::vm::lines::at("R13"@), assign(Destination::M, Computation::D)]
                    + take_one_lines() + seq![
                    crate::vm::lines::at("R13"@),
                    assign(Destination::A, Computation::M),
                    assign(Destination::M, Computation::D),
                ],
                addresses,
            ),
        ),
        m.pc == at,
    ensures
        run(program, m, 8) == (Machine {
            a: m.d,
            d: m.at(m.at(0) - 1),
            pc: m.pc + 8,
            ram: m.ram.update(13, m.d).update(0, (m.at(0) - 1) as u16).update(
                m.d as int,
                m.at(m.at(0) - 1),
            ),
        }),
{
    let ops = ops_of(
        seq![crate::vm::lines::at("R13"@), assign(Destination::M, Computation::D)]
            + take_one_lines() + seq![
            crate::vm::lines::at("R13"@),
            assign(Destination::A, Computation::M),
            assign(Destination::M, Computation::D),
        ],
        addresses,
    );
    lemma_a_word_small(0);
    lemma_a_word_small(13);
    assert(program[m.pc + 0] == ops[0]);
    assert(program[m.pc + 1] == ops[1]);
    assert(program[m.pc + 2] == ops[2]);
    assert(program[m.pc + 3] == ops[3]);
    assert(program[m.pc + 4] == ops[4]);
    assert(program[m.pc + 5] == ops[5]);
    assert(program[m.pc + 6] == ops[6]);
    assert(program[m.pc + 7] == ops[7]);
    reveal_with_fuel(run, 9);
}

/// `pop segment index` for `local`, `argument`, `this` and `that`: the top
/// of the stack goes to the word at the segment's base and the index.
/// `R13` keeps the address of that word.
pub proof fn lemma_pop_indirect(
    program: Seq<Op>,
    addresses: Addresses,
    m: Machine,
    segment: Segment,
    index: u16,
)
    requires
        m.wf(),
        wired(addresses),
        segment == Segment::Local || segment == Segment::Argument || segment == Segment::This
            || segment == Segment::That,
        stands_at(program, m.pc, ops_of(pop_i_lines(base_name(segment), index), addresses)),
        m.at(0) >= 17,
    ensures
        ({
            let base = m.at(addresses[base_name(segment)] as int);
            let target = add16(a_word(index), base);
            let value = m.at(m.at(0) - 1);
            run(program, m, 12) == (Machine {
                a: target,
                d: value,
                pc: m.pc + 12,
                ram: m.ram.update(13, target).update(0, (m.at(0) - 1) as u16).update(
                    target as int,
                    value,
                ),
            })
        }),
{
    let head = seq![
        crate::vm::lines::load(index),
        assign(Destination::D, Computation::A),
        at(base_name(segment)),
        assign(Destination::D, Computation::DPlusM),
    ];
    let tail = seq![crate::vm::lines::at("R13"@), assign(Destination::M, Computation::D)]
        + take_one_lines() + seq![
        crate::vm::lines::at("R13"@),
        assign(Destination::A, Computation::M),
        assign(Destination::M, Computation::D),
    ];
    assert(pop_i_lines(base_name(segment), index) =~= head + tail);
    lemma_ops_concat(head, tail, addresses);
    lemma_stands_split(program, m.pc, ops_of(head, addresses), ops_of(tail, addresses));
    let ops = ops_of(head, addresses);
    lemma_a_word_small(1);
    lemma_a_word_small(2);
    lemma_a_word_small(3);
    lemma_a_word_small(4);
    assert(program[m.pc + 0] == ops[0]);
    assert(program[m.pc + 1] == ops[1]);
    assert(program[m.pc + 2] == ops[2]);
    assert(program[m.pc + 3] == ops[3]);
    let base = m.at(addresses[base_name(segment)] as int);
    let target = add16(a_word(index), base);
    let m4 = run(program, m, 4);
    assert(m4 == (Machine {
        a: addresses[base_name(segment)],
        d: target,
        pc: m.pc + 4,
        ram: m.ram,
    })) by {
        reveal_with_fuel(run, 5);
    }
    lemma_pop_to_d(program, addresses, m4, m.pc + 4);
    lemma_run_split(program, m, 4, 8);
}

/// `pop temp index`: the top of the stack goes to the word at 5 and the
/// index. `R13` keeps the address of that word.
pub proof fn lemma_pop_temp(program: Seq<Op>, addresses: Addresses, m: Machine, index: u16)
    requires
        m.wf(),
        wired(addresses),
        stands_at(program, m.pc, ops_of(pop_temp_lines(index), addresses)),
        m.at(0) >= 17,
    ensures
        ({
            let target = add16(a_word(index), 5);
            let value = m.at(m.at(0) - 1);
            run(program, m, 12) == (Machine {
                a: target,
                d: value,
                pc: m.pc + 12,
                ram: m.ram.update(13, target).update(0, (m.at(0) - 1) as u16).update(
                    target as int,
                    value,
                ),
            })
        }),
{
    let head = seq![
        crate::vm::lines::load(index),
        assign(Destination::D, Computation::A),
        crate::vm::lines::load(5),
        assign(Destination::D, Computation::DPlusA),
    ];
    let tail = seq![crate::vm::lines::at("R13"@), assign(Destination::M, Computation::D)]
        + take_one_lines() + seq![
        crate::vm::lines::at("R13"@),
        assign(Destination::A, Computation::M),
        assign(Destination::M, Computation::D),
    ];
    assert(pop_temp_lines(index) =~= head + tail);
    lemma_ops_concat(head, tail, addresses);
    lemma_stands_split(program, m.pc, ops_of(head, addresses), ops_of(tail, addresses));
    let ops = ops_of(head, addresses);
    lemma_a_word_small(5);
    assert(program[m.pc + 0] == ops[0]);
    assert(program[m.pc + 1] == ops[1]);
    assert(program[m.pc + 2] == ops[2]);
    assert(program[m.pc + 3] == ops[3]);
    let target = add16(a_word(index), 5);
    let m4 = run(program, m, 4);
    assert(m4 == (Machine { a: 5, d: target, pc: m.pc + 4, ram: m.ram })) by {
        reveal_with_fuel(run, 5);
    }
    lemma_pop_to_d(program, addresses, m4, m.pc + 4);
    lemma_run_split(program, m, 4, 8);
}

/// Popping into the word that a symbol stands for.
pub proof fn lemma_pop_symbol(
    program: Seq<Op>,
    addresses: Addresses,
    m: Machine,
    name: Seq<char>,
)
    requires
        m.wf(),
        wired(addresses),
        addresses[name] < 0x8000,
        stands_at(
            program,
            m.pc,
            ops_of(
                take_one_lines() + seq![at(name), assign(Destination::M, Computation::D)],
                addresses,
            ),
        ),
        m.at(0) >= 2,
    ensures
        run(program, m, 5) == (Machine {
            a: addresses[name],
            d: m.at(m.at(0) - 1),
            pc: m.pc + 5,
            ram: m.ram.update(0, (m.at(0) - 1) as u16).update(
                addresses[name] as int,
                m.at(m.at(0) - 1),
            ),
        }),
{
    let ops = ops_of(
        take_one_lines() + seq![at(name), assign(Destination::M, Computation::D)],
        addresses,
    );
    lemma_a_word_small(0);
    lemma_a_word_small(addresses[name]);
    assert(program[m.pc + 0] == ops[0]);
    assert(program[m.pc + 1] == ops[1]);
    assert(program[m.pc + 2] == ops[2]);
    assert(program[m.pc + 3] == ops[3]);
    assert(program[m.pc + 4] == ops[4]);
    reveal_with_fuel(run, 6);
}

/// `pop static index` of the file `prefix`: the top of the stack goes to
/// the file's static variable.
pub proof fn lemma_pop_static(
    program: Seq<Op>,
    addresses: Addresses,
    m: Machine,
    prefix: Seq<char>,
    index: u16,
)
    requires
        m.wf(),
        wired(addresses),
        addresses[static_name(prefix, index)] < 0x8000,
        stands_at(program, m.pc, ops_of(pop_static_lines(prefix, index), addresses)),
        m.at(0) >= 2,
    ensures
        ({
            let target = addresses[static_name(prefix, index)];
            run(program, m, 5) == (Machine {
                a: target,
                d: m.at(m.at(0) - 1),
                pc: m.pc + 5,
                ram: m.ram.update(0, (m.at(0) - 1) as u16).update(
                    target as int,
                    m.at(m.at(0) - 1),
                ),
            })
        }),
{
    lemma_pop_symbol(program, addresses, m, static_name(prefix, index));
}

/// `pop pointer index`: the top of the stack goes to `THIS` for 0 and to
/// `THAT` for 1.
pub proof fn lemma_pop_pointer(program: Seq<Op>, addresses: Addresses, m: Machine, index: u16)
    requires
        m.wf(),
        wired(addresses),
        index <= 1,
        stands_at(program, m.pc, ops_of(pop_pointer_lines(index), addresses)),
        m.at(0) >= 2,
    ensures
        run(program, m, 5) == (Machine {
            a: (3 + index) as u16,
            d: m.at(m.at(0) - 1),
            pc: m.pc + 5,
            ram: m.ram.update(0, (m.at(0) - 1) as u16).update(3 + index, m.at(m.at(0) - 1)),
        }),
{
    lemma_pop_symbol(program, addresses, m, pointer_name(index));
}

/// What `add`, `sub`, `and` and `or` make of `x` and `y`.
pub open spec fn combine(command: CommandView, x: u16, y: u16) -> u16 {
    match command {
        CommandView::Add => add16(x, y),
        CommandView::Sub => sub16(x, y),
        CommandView::And => x & y,
        _ => x | y,
    }
}

/// `add`, `sub`, `and`, `or`: `x` and `y` leave the stack, and what the
/// command makes of them goes to its top.
pub proof fn lemma_arithmetic(
    program: Seq<Op>,
    addresses: Addresses,
    m: Machine,
    command: CommandView,
)
    requires
        m.wf(),
        wired(addresses),
        command is Add || command is Sub || command is And || command is Or,
        stands_at(program, m.pc, ops_of(arithmetic_lines(command), addresses)),
        m.at(0) >= 3,
    ensures
        ({
            let sp = m.at(0) as int;
            let x = m.at(sp - 2);
            let y = m.at(sp - 1);
            run(program, m, 6) == (Machine {
                a: (sp - 2) as u16,
                d: y,
                pc: m.pc + 6,
                ram: m.ram.update(0, (sp - 1) as u16).update(sp - 2, combine(command, x, y)),
            })
        }),
{
    let ops = ops_of(arithmetic_lines(command), addresses);
    let sp = m.at(0) as int;
    let x = m.at(sp - 2);
    let y = m.at(sp - 1);
    lemma_a_word_small(0);
    assert(y & x == x & y && y | x == x | y) by (bit_vector);
    assert(program[m.pc + 0] == ops[0]);
    assert(program[m.pc + 1] == ops[1]);
    assert(program[m.pc + 2] == ops[2]);
    assert(program[m.pc + 3] == ops[3]);
    assert(program[m.pc + 4] == ops[4]);
    assert(program[m.pc + 5] == ops[5]);
    reveal_with_fuel(run, 7);
}

/// `neg` and `not`: the top of the stack becomes its negative, or has every
/// bit turned over.
pub proof fn lemma_unary(program: Seq<Op>, addresses: Addresses, m: Machine, command: CommandView)
    requires
        m.wf(),
        wired(addresses),
        command is Neg || command is Not,
        stands_at(program, m.pc, ops_of(arithmetic_lines(command), addresses)),
        m.at(0) >= 2,
    ensures
        ({
            let sp = m.at(0) as int;
            let y = m.at(sp - 1);
            run(program, m, 3) == (Machine {
                a: (sp - 1) as u16,
                d: m.d,
                pc: m.pc + 3,
                ram: m.ram.update(
                    sp - 1,
                    if command is Neg {
                        sub16(0, y)
                    } else {
                        not16(y)
                    },
                ),
            })
        }),
{
    let ops = ops_of(arithmetic_lines(command), addresses);
    lemma_a_word_small(0);
    assert(program[m.pc + 0] == ops[0]);
    assert(program[m.pc + 1] == ops[1]);
    assert(program[m.pc + 2] == ops[2]);
    reveal_with_fuel(run, 4);
}

/// `eq`, `gt`, `lt`: `x` and `y` leave the stack, and -1 goes to its top
/// where the difference `x - y`, as sixteen bits hold it, is zero, above
/// zero or below zero, and 0 where it is not. The computer goes on at the
/// label, which stands behind the code.
pub proof fn lemma_comparison(
    program: Seq<Op>,
    addresses: Addresses,
    m: Machine,
    command: CommandView,
    prefix: Seq<char>,
    n: nat,
)
    requires
        m.wf(),
        wired(addresses),
        command is Eq || command is Gt || command is Lt,
        stands_at(program, m.pc, ops_of(compare_lines(command, prefix, n), addresses)),
        addresses[cond_label(prefix, n)] == m.pc + 12,
        m.pc + 12 < 0x8000,
        m.at(0) >= 3,
    ensures
        ({
            let sp = m.at(0) as int;
            let x = m.at(sp - 2);
            let y = m.at(sp - 1);
            let holds = taken(jump_of(command), sub16(x, y));
            let end = run(
                program,
                m,
                if holds {
                    9
                } else {
                    12
                },
            );
            &&& end.pc == m.pc + 12
            &&& end.ram == m.ram.update(0, (sp - 1) as u16).update(
                sp - 2,
                if holds {
                    0xFFFFu16
                } else {
                    0u16
                },
            )
        }),
{
    let ops = ops_of(compare_lines(command, prefix, n), addresses);
    let sp = m.at(0) as int;
    let x = m.at(sp - 2);
    let y = m.at(sp - 1);
    let label = addresses[cond_label(prefix, n)];
    lemma_a_word_small(0);
    lemma_a_word_small(label);
    assert(program[m.pc + 0] == ops[0]);
    assert(program[m.pc + 1] == ops[1]);
    assert(program[m.pc + 2] == ops[2]);
    assert(program[m.pc + 3] == ops[3]);
    assert(program[m.pc + 4] == ops[4]);
    assert(program[m.pc + 5] == ops[5]);
    assert(program[m.pc + 6] == ops[6]);
    assert(program[m.pc + 7] == ops[7]);
    assert(program[m.pc + 8] == ops[8]);
    let m8 = run(program, m, 8);
    assert(m8 == (Machine {
        a: label,
        d: sub16(x, y),
        pc: m.pc + 8,
        ram: m.ram.update(0, (sp - 1) as u16).update(sp - 2, 0xFFFF),
    })) by {
        reveal_with_fuel(run, 9);
    }
    if taken(jump_of(command), sub16(x, y)) {
        assert(run(program, m8, 1).pc == label) by {
            reveal_with_fuel(run, 2);
        }
        assert(run(program, m8, 1).ram == m8.ram) by {
            reveal_with_fuel(run, 2);
        }
        lemma_run_split(program, m, 8, 1);
    } else {
        assert(program[m8.pc + 1] == ops[9]);
        assert(program[m8.pc + 2] == ops[10]);
        assert(program[m8.pc + 3] == ops[11]);
        let end = run(program, m8, 4);
        assert(end.pc == m.pc + 12 && end.ram == m8.ram.update(sp - 2, 0)) by {
            reveal_with_fuel(run, 5);
        }
        assert(end.ram =~= m.ram.update(0, (sp - 1) as u16).update(sp - 2, 0));
        lemma_run_split(program, m, 8, 4);
    }
}

/// `goto name`: the computer goes on at the label.
pub proof fn lemma_goto(program: Seq<Op>, addresses: Addresses, m: Machine, name: Seq<char>)
    requires
        m.wf(),
        addresses[name] < 0x8000,
        stands_at(program, m.pc, ops_of(goto_lines(name), addresses)),
    ensures
        run(program, m, 2) == (Machine {
            a: addresses[name],
            d: m.d,
            pc: addresses[name] as int,
            ram: m.ram,
        }),
{
    let ops = ops_of(goto_lines(name), addresses);
    lemma_a_word_small(addresses[name]);
    assert(program[m.pc + 0] == ops[0]);
    assert(program[m.pc + 1] == ops[1]);
    reveal_with_fuel(run, 3);
}

/// `if-goto name`: the top leaves the stack, and the computer goes on at
/// the label where it was not zero, and behind the code where it was.
pub proof fn lemma_if_goto(program: Seq<Op>, addresses: Addresses, m: Machine, name: Seq<char>)
    requires
        m.wf(),
        wired(addresses),
        addresses[name] < 0x8000,
        stands_at(program, m.pc, ops_of(if_goto_lines(name), addresses)),
        m.at(0) >= 2,
    ensures
        run(program, m, 5) == (Machine {
            a: addresses[name],
            d: m.at(m.at(0) - 1),
            pc: if m.at(m.at(0) - 1) != 0 {
                addresses[name] as int
            } else {
                m.pc + 5
            },
            ram: m.ram.update(0, (m.at(0) - 1) as u16),
        }),
{
    let ops = ops_of(if_goto_lines(name), addresses);
    lemma_a_word_small(0);
    lemma_a_word_small(addresses[name]);
    assert(program[m.pc + 0] == ops[0]);
    assert(program[m.pc + 1] == ops[1]);
    assert(program[m.pc + 2] == ops[2]);
    assert(program[m.pc + 3] == ops[3]);
    assert(program[m.pc + 4] == ops[4]);
    reveal_with_fuel(run, 6);
}

} // verus!
