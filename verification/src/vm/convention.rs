//! What the code of the calling convention does when the computer runs
//! it: a call builds a frame, a function clears its locals, and a return
//! gives the caller back what the call has saved.

use crate::assembler::instruction::{Computation, Destination};
use crate::vm::code::{
    call_frame_lines, enter_lines, jump_back_lines, place_result_lines, push_d_lines,
    push_symbol_lines, push_zero_lines, push_zeros_lines, reposition_sp_lines, restore_arg_lines,
    restore_lcl_lines, restore_that_lines, restore_this_lines, return_label, return_lines,
    save_frame_lines, save_return_address_lines,
};
use crate::vm::effects::{lemma_push_d, lemma_push_symbol};
use crate::vm::lines::{assign, at};
use crate::vm::machine::{
    add16, lemma_a_word_small, lemma_ops_concat, lemma_run_split, lemma_stands_split, ops_of, run,
    stands_at, wired, Addresses, Machine, Op,
};
use vstd::prelude::*;

verus! {

/// `R14 = LCL`.
proof fn lemma_save_frame(program: Seq<Op>, addresses: Addresses, m: Machine)
    requires
        m.wf(),
        wired(addresses),
        stands_at(program, m.pc, ops_of(save_frame_lines(), addresses)),
    ensures
        run(program, m, 4) == (Machine {
            a: 14,
            d: m.at(1),
            pc: m.pc + 4,
            ram: m.ram.update(14, m.at(1)),
        }),
{
    let ops = ops_of(save_frame_lines(), addresses);
    lemma_a_word_small(1);
    lemma_a_word_small(14);
    assert(program[m.pc + 0] == ops[0]);
    assert(program[m.pc + 1] == ops[1]);
    assert(program[m.pc + 2] == ops[2]);
    assert(program[m.pc + 3] == ops[3]);
    reveal_with_fuel(run, 5);
}

/// `R15 = *(D - 5)`.
proof fn lemma_save_return_address(program: Seq<Op>, addresses: Addresses, m: Machine)
    requires
        m.wf(),
        wired(addresses),
        stands_at(program, m.pc, ops_of(save_return_address_lines(), addresses)),
        m.d >= 5,
    ensures
        run(program, m, 5) == (Machine {
            a: 15,
            d: m.at(m.d - 5),
            pc: m.pc + 5,
            ram: m.ram.update(15, m.at(m.d - 5)),
        }),
{
    let ops = ops_of(save_return_address_lines(), addresses);
    lemma_a_word_small(5);
    lemma_a_word_small(15);
    assert(program[m.pc + 0] == ops[0]);
    assert(program[m.pc + 1] == ops[1]);
    assert(program[m.pc + 2] == ops[2]);
    assert(program[m.pc + 3] == ops[3]);
    assert(program[m.pc + 4] == ops[4]);
    reveal_with_fuel(run, 6);
}

/// `*ARG = pop()`.
proof fn lemma_place_result(program: Seq<Op>, addresses: Addresses, m: Machine)
    requires
        m.wf(),
        wired(addresses),
        stands_at(program, m.pc, ops_of(place_result_lines(), addresses)),
        m.at(0) > 3,
    ensures
        run(program, m, 6) == (Machine {
            a: m.at(2),
            d: m.at(m.at(0) - 1),
            pc: m.pc + 6,
            ram: m.ram.update(0, (m.at(0) - 1) as u16).update(m.at(2) as int, m.at(m.at(0) - 1)),
        }),
{
    let ops = ops_of(place_result_lines(), addresses);
    lemma_a_word_small(0);
    lemma_a_word_small(2);
    assert(program[m.pc + 0] == ops[0]);
    assert(program[m.pc + 1] == ops[1]);
    assert(program[m.pc + 2] == ops[2]);
    assert(program[m.pc + 3] == ops[3]);
    assert(program[m.pc + 4] == ops[4]);
    assert(program[m.pc + 5] == ops[5]);
    reveal_with_fuel(run, 7);
}

/// `SP = A + 1`.
proof fn lemma_reposition_sp(program: Seq<Op>, addresses: Addresses, m: Machine)
    requires
        m.wf(),
        wired(addresses),
        stands_at(program, m.pc, ops_of(reposition_sp_lines(), addresses)),
    ensures
        run(program, m, 3) == (Machine {
            a: 0,
            d: m.a,
            pc: m.pc + 3,
            ram: m.ram.update(0, add16(m.a, 1)),
        }),
{
    let ops = ops_of(reposition_sp_lines(), addresses);
    lemma_a_word_small(0);
    assert(program[m.pc + 0] == ops[0]);
    assert(program[m.pc + 1] == ops[1]);
    assert(program[m.pc + 2] == ops[2]);
    reveal_with_fuel(run, 4);
}

/// `THAT = *(R14 - 1)`.
proof fn lemma_restore_that(program: Seq<Op>, addresses: Addresses, m: Machine)
    requires
        m.wf(),
        wired(addresses),
        stands_at(program, m.pc, ops_of(restore_that_lines(), addresses)),
        m.at(14) >= 1,
    ensures
        run(program, m, 5) == (Machine {
            a: 4,
            d: m.at(m.at(14) - 1),
            pc: m.pc + 5,
            ram: m.ram.update(4, m.at(m.at(14) - 1)),
        }),
{
    let ops = ops_of(restore_that_lines(), addresses);
    lemma_a_word_small(4);
    lemma_a_word_small(14);
    assert(program[m.pc + 0] == ops[0]);
    assert(program[m.pc + 1] == ops[1]);
    assert(program[m.pc + 2] == ops[2]);
    assert(program[m.pc + 3] == ops[3]);
    assert(program[m.pc + 4] == ops[4]);
    reveal_with_fuel(run, 6);
}

/// `THIS = *(R14 - 2)`.
proof fn lemma_restore_this(program: Seq<Op>, addresses: Addresses, m: Machine)
    requires
        m.wf(),
        wired(addresses),
        stands_at(program, m.pc, ops_of(restore_this_lines(), addresses)),
        m.at(14) >= 2,
    ensures
        run(program, m, 6) == (Machine {
            a: 3,
            d: m.at(m.at(14) - 2),
            pc: m.pc + 6,
            ram: m.ram.update(3, m.at(m.at(14) - 2)),
        }),
{
    let ops = ops_of(restore_this_lines(), addresses);
    lemma_a_word_small(3);
    lemma_a_word_small(14);
    assert(program[m.pc + 0] == ops[0]);
    assert(program[m.pc + 1] == ops[1]);
    assert(program[m.pc + 2] == ops[2]);
    assert(program[m.pc + 3] == ops[3]);
    assert(program[m.pc + 4] == ops[4]);
    assert(program[m.pc + 5] == ops[5]);
    reveal_with_fuel(run, 7);
}

/// `ARG = *(R14 - 3)`.
proof fn lemma_restore_arg(program: Seq<Op>, addresses: Addresses, m: Machine)
    requires
        m.wf(),
        wired(addresses),
        stands_at(program, m.pc, ops_of(restore_arg_lines(), addresses)),
        m.at(14) >= 3,
    ensures
        run(program, m, 7) == (Machine {
            a: 2,
            d: m.at(m.at(14) - 3),
            pc: m.pc + 7,
            ram: m.ram.update(2, m.at(m.at(14) - 3)),
        }),
{
    let ops = ops_of(restore_arg_lines(), addresses);
    lemma_a_word_small(2);
    lemma_a_word_small(14);
    assert(program[m.pc + 0] == ops[0]);
    assert(program[m.pc + 1] == ops[1]);
    assert(program[m.pc + 2] == ops[2]);
    assert(program[m.pc + 3] == ops[3]);
    assert(program[m.pc + 4] == ops[4]);
    assert(program[m.pc + 5] == ops[5]);
    assert(program[m.pc + 6] == ops[6]);
    reveal_with_fuel(run, 8);
}

/// `LCL = *(R14 - 4)`.
proof fn lemma_restore_lcl(program: Seq<Op>, addresses: Addresses, m: Machine)
    requires
        m.wf(),
        wired(addresses),
        stands_at(program, m.pc, ops_of(restore_lcl_lines(), addresses)),
        m.at(14) >= 4,
    ensures
        run(program, m, 8) == (Machine {
            a: 1,
            d: m.at(m.at(14) - 4),
            pc: m.pc + 8,
            ram: m.ram.update(1, m.at(m.at(14) - 4)),
        }),
{
    let ops = ops_of(restore_lcl_lines(), addresses);
    lemma_a_word_small(1);
    lemma_a_word_small(14);
    assert(program[m.pc + 0] == ops[0]);
    assert(program[m.pc + 1] == ops[1]);
    assert(program[m.pc + 2] == ops[2]);
    assert(program[m.pc + 3] == ops[3]);
    assert(program[m.pc + 4] == ops[4]);
    assert(program[m.pc + 5] == ops[5]);
    assert(program[m.pc + 6] == ops[6]);
    assert(program[m.pc + 7] == ops[7]);
    reveal_with_fuel(run, 9);
}

/// The jump to the address in `R15`.
proof fn lemma_jump_back(program: Seq<Op>, addresses: Addresses, m: Machine)
    requires
        m.wf(),
        wired(addresses),
        stands_at(program, m.pc, ops_of(jump_back_lines(), addresses)),
    ensures
        run(program, m, 3) == (Machine { a: m.at(15), d: m.d, pc: m.at(15) as int, ram: m.ram }),
{
    let ops = ops_of(jump_back_lines(), addresses);
    lemma_a_word_small(15);
    assert(program[m.pc + 0] == ops[0]);
    assert(program[m.pc + 1] == ops[1]);
    assert(program[m.pc + 2] == ops[2]);
    reveal_with_fuel(run, 4);
}

/// A frame as a call leaves it and a function keeps it: below `LCL` stand
/// the return address and the caller's `LCL`, `ARG`, `THIS` and `THAT`, the
/// arguments stand below them, from `ARG` on, and the stack goes on above
/// `LCL`. Nothing of it lies among the registers.
pub open spec fn in_frame(m: Machine) -> bool {
    &&& m.wf()
    &&& 16 <= m.at(2)
    &&& m.at(2) + 5 <= m.at(1)
    &&& m.at(1) <= m.at(0)
}

/// What `return` does. It hands the top of the stack to the caller at
/// `*ARG`, sets `SP` to `ARG + 1`, gives `THAT`, `THIS`, `ARG` and `LCL` the
/// values that the call has saved below `LCL`, and goes on at the return
/// address, which the call has saved five below `LCL`. Of the memory it
/// changes the five pointers, `R14`, `R15` and the word at `ARG`, and no
/// other.
pub proof fn lemma_return_restores_the_caller(
    program: Seq<Op>,
    addresses: Addresses,
    m: Machine,
)
    requires
        wired(addresses),
        in_frame(m),
        stands_at(program, m.pc, ops_of(return_lines(), addresses)),
    ensures
        ({
            let end = run(program, m, 47);
            let sp = m.at(0) as int;
            let lcl = m.at(1) as int;
            let arg = m.at(2) as int;
            &&& end.wf()
            &&& end.pc == m.at(lcl - 5)
            &&& end.at(0) == arg + 1
            &&& end.at(arg) == m.at(sp - 1)
            &&& end.at(1) == m.at(lcl - 4)
            &&& end.at(2) == m.at(lcl - 3)
            &&& end.at(3) == m.at(lcl - 2)
            &&& end.at(4) == m.at(lcl - 1)
            &&& forall|address: int|
                5 <= address < 0x10000 && address != 14 && address != 15 && address != arg
                    ==> end.at(address) == m.at(address)
        }),
{
    let a1 = save_frame_lines();
    let a2 = save_return_address_lines();
    let a3 = place_result_lines();
    let a4 = reposition_sp_lines();
    let a5 = restore_that_lines();
    let a6 = restore_this_lines();
    let a7 = restore_arg_lines();
    let a8 = restore_lcl_lines();
    let a9 = jump_back_lines();
    let b2 = a1 + a2;
    let b3 = b2 + a3;
    let b4 = b3 + a4;
    let b5 = b4 + a5;
    let b6 = b5 + a6;
    let b7 = b6 + a7;
    let b8 = b7 + a8;
    assert(return_lines() == b8 + a9);
    lemma_ops_concat(b8, a9, addresses);
    lemma_ops_concat(b7, a8, addresses);
    lemma_ops_concat(b6, a7, addresses);
    lemma_ops_concat(b5, a6, addresses);
    lemma_ops_concat(b4, a5, addresses);
    lemma_ops_concat(b3, a4, addresses);
    lemma_ops_concat(b2, a3, addresses);
    lemma_ops_concat(a1, a2, addresses);
    lemma_stands_split(program, m.pc, ops_of(b8, addresses), ops_of(a9, addresses));
    lemma_stands_split(program, m.pc, ops_of(b7, addresses), ops_of(a8, addresses));
    lemma_stands_split(program, m.pc, ops_of(b6, addresses), ops_of(a7, addresses));
    lemma_stands_split(program, m.pc, ops_of(b5, addresses), ops_of(a6, addresses));
    lemma_stands_split(program, m.pc, ops_of(b4, addresses), ops_of(a5, addresses));
    lemma_stands_split(program, m.pc, ops_of(b3, addresses), ops_of(a4, addresses));
    lemma_stands_split(program, m.pc, ops_of(b2, addresses), ops_of(a3, addresses));
    lemma_stands_split(program, m.pc, ops_of(a1, addresses), ops_of(a2, addresses));
    let m1 = run(program, m, 4);
    lemma_save_frame(program, addresses, m);
    let m2 = run(program, m1, 5);
    lemma_save_return_address(program, addresses, m1);
    let m3 = run(program, m2, 6);
    lemma_place_result(program, addresses, m2);
    let m4 = run(program, m3, 3);
    lemma_reposition_sp(program, addresses, m3);
    let m5 = run(program, m4, 5);
    lemma_restore_that(program, addresses, m4);
    let m6 = run(program, m5, 6);
    lemma_restore_this(program, addresses, m5);
    let m7 = run(program, m6, 7);
    lemma_restore_arg(program, addresses, m6);
    let m8 = run(program, m7, 8);
    lemma_restore_lcl(program, addresses, m7);
    let m9 = run(program, m8, 3);
    lemma_jump_back(program, addresses, m8);
    lemma_run_split(program, m, 4, 5);
    lemma_run_split(program, m, 9, 6);
    lemma_run_split(program, m, 15, 3);
    lemma_run_split(program, m, 18, 5);
    lemma_run_split(program, m, 23, 6);
    lemma_run_split(program, m, 29, 7);
    lemma_run_split(program, m, 36, 8);
    lemma_run_split(program, m, 44, 3);
    assert(run(program, m, 47) == m9);
}

/// `D = name`: the address that a symbol stands for.
proof fn lemma_load_address(
    program: Seq<Op>,
    addresses: Addresses,
    m: Machine,
    name: Seq<char>,
)
    requires
        m.wf(),
        addresses[name] < 0x8000,
        stands_at(
            program,
            m.pc,
            ops_of(seq![at(name), assign(Destination::D, Computation::A)], addresses),
        ),
    ensures
        run(program, m, 2) == (Machine {
            a: addresses[name],
            d: addresses[name],
            pc: m.pc + 2,
            ram: m.ram,
        }),
{
    let ops = ops_of(seq![at(name), assign(Destination::D, Computation::A)], addresses);
    lemma_a_word_small(addresses[name]);
    assert(program[m.pc + 0] == ops[0]);
    assert(program[m.pc + 1] == ops[1]);
    reveal_with_fuel(run, 3);
}

/// `ARG = SP - 5 - arguments`, `LCL = SP`, and the jump to the function.
proof fn lemma_enter(
    program: Seq<Op>,
    addresses: Addresses,
    m: Machine,
    function: Seq<char>,
    arguments: u16,
)
    requires
        m.wf(),
        wired(addresses),
        addresses[function] < 0x8000,
        arguments < 0x8000,
        stands_at(program, m.pc, ops_of(enter_lines(function, arguments), addresses)),
        m.at(0) >= 5 + arguments,
    ensures
        run(program, m, 14) == (Machine {
            a: addresses[function],
            d: m.at(0),
            pc: addresses[function] as int,
            ram: m.ram.update(2, (m.at(0) - 5 - arguments) as u16).update(1, m.at(0)),
        }),
{
    let ops = ops_of(enter_lines(function, arguments), addresses);
    lemma_a_word_small(0);
    lemma_a_word_small(1);
    lemma_a_word_small(2);
    lemma_a_word_small(5);
    lemma_a_word_small(arguments);
    lemma_a_word_small(addresses[function]);
    assert(program[m.pc + 0] == ops[0]);
    assert(program[m.pc + 1] == ops[1]);
    assert(program[m.pc + 2] == ops[2]);
    assert(program[m.pc + 3] == ops[3]);
    assert(program[m.pc + 4] == ops[4]);
    assert(program[m.pc + 5] == ops[5]);
    assert(program[m.pc + 6] == ops[6]);
    let m7 = run(program, m, 7);
    assert(m7 == (Machine {
        a: 2,
        d: (m.at(0) - 5 - arguments) as u16,
        pc: m.pc + 7,
        ram: m.ram,
    })) by {
        reveal_with_fuel(run, 8);
    }
    assert(program[m7.pc + 0] == ops[7]);
    assert(program[m7.pc + 1] == ops[8]);
    assert(program[m7.pc + 2] == ops[9]);
    assert(program[m7.pc + 3] == ops[10]);
    assert(program[m7.pc + 4] == ops[11]);
    assert(program[m7.pc + 5] == ops[12]);
    assert(program[m7.pc + 6] == ops[13]);
    assert(run(program, m7, 7) == (Machine {
        a: addresses[function],
        d: m.at(0),
        pc: addresses[function] as int,
        ram: m.ram.update(2, (m.at(0) - 5 - arguments) as u16).update(1, m.at(0)),
    })) by {
        reveal_with_fuel(run, 8);
    }
    lemma_run_split(program, m, 7, 7);
}

/// What a call does before the callee runs. It pushes the return address
/// and the caller's `LCL`, `ARG`, `THIS` and `THAT`, points `ARG` at the
/// first of the `arguments` that the caller has pushed and `LCL` at the new
/// top of the stack, and goes on at the function. Of the memory it changes
/// `SP`, `LCL`, `ARG` and the five words that it pushes, and no other.
pub proof fn lemma_call_builds_the_frame(
    program: Seq<Op>,
    addresses: Addresses,
    m: Machine,
    function: Seq<char>,
    prefix: Seq<char>,
    arguments: u16,
    n: nat,
)
    requires
        m.wf(),
        wired(addresses),
        addresses[function] < 0x8000,
        addresses[return_label(prefix, n)] < 0x8000,
        arguments < 0x8000,
        stands_at(
            program,
            m.pc,
            ops_of(call_frame_lines(function, prefix, arguments, n), addresses),
        ),
        16 <= m.at(0),
        arguments <= m.at(0),
        m.at(0) + 5 <= 0xFFFF,
    ensures
        ({
            let end = run(program, m, 49);
            let sp = m.at(0) as int;
            &&& end.wf()
            &&& end.pc == addresses[function]
            &&& end.at(0) == sp + 5
            &&& end.at(1) == sp + 5
            &&& end.at(2) == sp - arguments
            &&& end.at(sp) == addresses[return_label(prefix, n)]
            &&& end.at(sp + 1) == m.at(1)
            &&& end.at(sp + 2) == m.at(2)
            &&& end.at(sp + 3) == m.at(3)
            &&& end.at(sp + 4) == m.at(4)
            &&& forall|address: int|
                3 <= address < 0x10000 && !(sp <= address < sp + 5) ==> end.at(address) == m.at(
                    address,
                )
        }),
{
    let a1 = seq![at(return_label(prefix, n)), assign(Destination::D, Computation::A)];
    let a2 = push_d_lines();
    let a3 = push_symbol_lines("LCL"@);
    let a4 = push_symbol_lines("ARG"@);
    let a5 = push_symbol_lines("THIS"@);
    let a6 = push_symbol_lines("THAT"@);
    let a7 = enter_lines(function, arguments);
    let b2 = a1 + a2;
    let b3 = b2 + a3;
    let b4 = b3 + a4;
    let b5 = b4 + a5;
    let b6 = b5 + a6;
    assert(call_frame_lines(function, prefix, arguments, n) == b6 + a7);
    lemma_ops_concat(b6, a7, addresses);
    lemma_ops_concat(b5, a6, addresses);
    lemma_ops_concat(b4, a5, addresses);
    lemma_ops_concat(b3, a4, addresses);
    lemma_ops_concat(b2, a3, addresses);
    lemma_ops_concat(a1, a2, addresses);
    lemma_stands_split(program, m.pc, ops_of(b6, addresses), ops_of(a7, addresses));
    lemma_stands_split(program, m.pc, ops_of(b5, addresses), ops_of(a6, addresses));
    lemma_stands_split(program, m.pc, ops_of(b4, addresses), ops_of(a5, addresses));
    lemma_stands_split(program, m.pc, ops_of(b3, addresses), ops_of(a4, addresses));
    lemma_stands_split(program, m.pc, ops_of(b2, addresses), ops_of(a3, addresses));
    lemma_stands_split(program, m.pc, ops_of(a1, addresses), ops_of(a2, addresses));
    let m1 = run(program, m, 2);
    lemma_load_address(program, addresses, m, return_label(prefix, n));
    let m2 = run(program, m1, 5);
    lemma_push_d(program, addresses, m1);
    let m3 = run(program, m2, 7);
    lemma_push_symbol(program, addresses, m2, "LCL"@);
    let m4 = run(program, m3, 7);
    lemma_push_symbol(program, addresses, m3, "ARG"@);
    let m5 = run(program, m4, 7);
    lemma_push_symbol(program, addresses, m4, "THIS"@);
    let m6 = run(program, m5, 7);
    lemma_push_symbol(program, addresses, m5, "THAT"@);
    let m7 = run(program, m6, 14);
    lemma_enter(program, addresses, m6, function, arguments);
    lemma_run_split(program, m, 2, 5);
    lemma_run_split(program, m, 7, 7);
    lemma_run_split(program, m, 14, 7);
    lemma_run_split(program, m, 21, 7);
    lemma_run_split(program, m, 28, 7);
    lemma_run_split(program, m, 35, 14);
    assert(run(program, m, 49) == m7);
}

/// Pushing a zero.
proof fn lemma_push_zero(program: Seq<Op>, addresses: Addresses, m: Machine)
    requires
        m.wf(),
        wired(addresses),
        stands_at(program, m.pc, ops_of(push_zero_lines(), addresses)),
        0 < m.at(0) < 0xFFFF,
    ensures
        run(program, m, 5) == (Machine {
            a: 0,
            d: m.d,
            pc: m.pc + 5,
            ram: m.ram.update(m.at(0) as int, 0).update(0, add16(m.at(0), 1)),
        }),
{
    let ops = ops_of(push_zero_lines(), addresses);
    lemma_a_word_small(0);
    assert(program[m.pc + 0] == ops[0]);
    assert(program[m.pc + 1] == ops[1]);
    assert(program[m.pc + 2] == ops[2]);
    assert(program[m.pc + 3] == ops[3]);
    assert(program[m.pc + 4] == ops[4]);
    reveal_with_fuel(run, 6);
}

/// What the start of a function does: it pushes a zero for each local
/// variable, and changes no other word of the memory but `SP`.
pub proof fn lemma_function_clears_its_locals(
    program: Seq<Op>,
    addresses: Addresses,
    m: Machine,
    locals: nat,
)
    requires
        m.wf(),
        wired(addresses),
        stands_at(program, m.pc, ops_of(push_zeros_lines(locals), addresses)),
        0 < m.at(0),
        m.at(0) + locals <= 0xFFFF,
    ensures
        ({
            let end = run(program, m, 5 * locals);
            let sp = m.at(0) as int;
            &&& end.wf()
            &&& end.pc == m.pc + 5 * locals
            &&& end.at(0) == sp + locals
            &&& forall|address: int| sp <= address < sp + locals ==> end.at(address) == 0
            &&& forall|address: int|
                1 <= address < 0x10000 && !(sp <= address < sp + locals) ==> end.at(address)
                    == m.at(address)
        }),
    decreases locals,
{
    if locals > 0 {
        let fewer = (locals - 1) as nat;
        lemma_ops_concat(push_zeros_lines(fewer), push_zero_lines(), addresses);
        lemma_stands_split(
            program,
            m.pc,
            ops_of(push_zeros_lines(fewer), addresses),
            ops_of(push_zero_lines(), addresses),
        );
        lemma_function_clears_its_locals(program, addresses, m, fewer);
        let middle = run(program, m, 5 * fewer);
        lemma_push_zeros_len(fewer);
        assert(ops_of(push_zeros_lines(fewer), addresses).len() == 5 * fewer);
        assert(middle.pc == m.pc + ops_of(push_zeros_lines(fewer), addresses).len());
        lemma_push_zero(program, addresses, middle);
        lemma_run_split(program, m, 5 * fewer, 5);
        assert(5 * fewer + 5 == 5 * locals);
        let end = run(program, m, 5 * locals);
        let sp = m.at(0) as int;
        assert(end == run(program, middle, 5));
        assert(middle.at(0) == sp + fewer);
        assert(end.ram == middle.ram.update(sp + fewer, 0).update(0, (sp + locals) as u16));
        assert forall|address: int| sp <= address < sp + locals implies end.at(address) == 0 by {
            if address < sp + fewer {
                assert(middle.at(address) == 0);
            }
        }
        assert forall|address: int|
            1 <= address < 0x10000 && !(sp <= address < sp + locals) implies end.at(address)
                == m.at(address) by {
            assert(middle.at(address) == m.at(address));
        }
    }
}

/// The calling convention closes. A call of a function that pushes its
/// local variables and returns at once leaves the caller as it was: the
/// computer goes on behind the call, `LCL`, `ARG`, `THIS` and `THAT` hold
/// what they held, the arguments are gone from the stack and one result
/// stands in their place, and the caller's stack below the arguments is
/// untouched.
pub proof fn lemma_call_and_return(
    program: Seq<Op>,
    addresses: Addresses,
    m: Machine,
    function: Seq<char>,
    prefix: Seq<char>,
    arguments: u16,
    n: nat,
    locals: nat,
)
    requires
        m.wf(),
        wired(addresses),
        stands_at(
            program,
            m.pc,
            ops_of(call_frame_lines(function, prefix, arguments, n), addresses),
        ),
        addresses[return_label(prefix, n)] == m.pc + 49,
        m.pc + 49 < 0x8000,
        addresses[function] < 0x8000,
        stands_at(
            program,
            addresses[function] as int,
            ops_of(push_zeros_lines(locals) + return_lines(), addresses),
        ),
        arguments < 0x8000,
        16 + arguments <= m.at(0),
        m.at(0) + 5 + locals <= 0xFFFF,
    ensures
        ({
            let end = run(program, m, 49 + 5 * locals + 47);
            let sp = m.at(0) as int;
            &&& end.wf()
            &&& end.pc == m.pc + 49
            &&& end.at(0) == sp - arguments + 1
            &&& end.at(1) == m.at(1)
            &&& end.at(2) == m.at(2)
            &&& end.at(3) == m.at(3)
            &&& end.at(4) == m.at(4)
            &&& end.at(sp - arguments) == if locals > 0 {
                0
            } else {
                m.at(4)
            }
            &&& forall|address: int| 16 <= address < sp - arguments ==> end.at(address) == m.at(address)
        }),
{
    let sp = m.at(0) as int;
    let entry = addresses[function] as int;
    lemma_call_builds_the_frame(program, addresses, m, function, prefix, arguments, n);
    let called = run(program, m, 49);
    lemma_ops_concat(push_zeros_lines(locals), return_lines(), addresses);
    lemma_stands_split(
        program,
        entry,
        ops_of(push_zeros_lines(locals), addresses),
        ops_of(return_lines(), addresses),
    );
    lemma_function_clears_its_locals(program, addresses, called, locals);
    let entered = run(program, called, 5 * locals);
    assert(ops_of(push_zeros_lines(locals), addresses).len() == 5 * locals) by {
        lemma_push_zeros_len(locals);
    }
    lemma_return_restores_the_caller(program, addresses, entered);
    lemma_run_split(program, m, 49, 5 * locals);
    lemma_run_split(program, m, 49 + 5 * locals, 47);
}

/// The start of a function has five lines for each local variable.
proof fn lemma_push_zeros_len(locals: nat)
    ensures
        push_zeros_lines(locals).len() == 5 * locals,
    decreases locals,
{
    if locals > 0 {
        lemma_push_zeros_len((locals - 1) as nat);
    }
}

} // verus!
