//! The code emitter: stack-machine commands to lines of Hack assembly.
//!
//! The stack grows upwards from `SP`. `R13` is a scratch pointer for `pop`;
//! `return` keeps the end of the frame in `R14` and the return address in
//! `R15`.

use crate::assembler::instruction::{Computation, Destination, Jump};
use crate::text::{decimal, push_decimal};
use crate::vm::error::Error;
use crate::vm::lines::{assign, at, branch, load, mark, render, render_spec, views, Line, LineView};
use crate::vm::parser::{line_view, line_views, Command, CommandView, Segment};
use vstd::prelude::*;
use vstd::string::StringExecFns;

verus! {

/// The symbol of the static variable `index` of the file `prefix`.
pub open spec fn static_name(prefix: Seq<char>, index: u16) -> Seq<char> {
    prefix + "."@ + decimal(index as nat)
}

/// The label behind the `n`-th comparison of the file `prefix`.
pub open spec fn cond_label(prefix: Seq<char>, n: nat) -> Seq<char> {
    "COND_"@ + prefix + "_"@ + decimal(n)
}

/// The label behind the `n`-th call of the file `prefix`: the return address.
pub open spec fn return_label(prefix: Seq<char>, n: nat) -> Seq<char> {
    "CALL_RET_"@ + prefix + "_"@ + decimal(n)
}

/// Pops the top of the stack into `D`.
pub open spec fn take_one_lines() -> Seq<LineView> {
    seq![at("SP"@), assign(Destination::Am, Computation::MMinusOne), assign(Destination::D, Computation::M)]
}

/// Pops the top of the stack into `D` and points `A` at the new top.
pub open spec fn take_two_lines() -> Seq<LineView> {
    take_one_lines() + seq![at("SP"@), assign(Destination::A, Computation::MMinusOne)]
}

/// Pushes `D`.
pub open spec fn push_d_lines() -> Seq<LineView> {
    seq![
        at("SP"@),
        assign(Destination::A, Computation::M),
        assign(Destination::M, Computation::D),
        at("SP"@),
        assign(Destination::M, Computation::MPlusOne),
    ]
}

/// `label name`.
pub open spec fn label_lines(name: Seq<char>) -> Seq<LineView> {
    seq![mark(name)]
}

/// `goto name`.
pub open spec fn goto_lines(name: Seq<char>) -> Seq<LineView> {
    seq![at(name), branch(Computation::Zero, Jump::Unconditional)]
}

/// `if-goto name`: pops, and jumps if the value is not zero.
pub open spec fn if_goto_lines(name: Seq<char>) -> Seq<LineView> {
    take_one_lines() + seq![at(name), branch(Computation::D, Jump::NotEqual)]
}

/// Pushes a zero.
pub open spec fn push_zero_lines() -> Seq<LineView> {
    seq![
        at("SP"@),
        assign(Destination::A, Computation::M),
        assign(Destination::M, Computation::Zero),
        at("SP"@),
        assign(Destination::M, Computation::MPlusOne),
    ]
}

/// Pushes `count` zeros.
pub open spec fn push_zeros_lines(count: nat) -> Seq<LineView>
    decreases count,
{
    if count == 0 {
        Seq::empty()
    } else {
        push_zeros_lines((count - 1) as nat) + push_zero_lines()
    }
}

/// `function name locals`: the label of the function, then its locals,
/// all zero.
pub open spec fn function_lines(name: Seq<char>, locals: u16) -> Seq<LineView> {
    seq![mark(name)] + push_zeros_lines(locals as nat)
}

/// `R14 = LCL`: the end of the frame.
pub open spec fn save_frame_lines() -> Seq<LineView> {
    seq![
        at("LCL"@),
        assign(Destination::D, Computation::M),
        at("R14"@),
        assign(Destination::M, Computation::D),
    ]
}

/// `R15 = *(LCL - 5)`: the return address, with `D` still holding `LCL`.
pub open spec fn save_return_address_lines() -> Seq<LineView> {
    seq![
        load(5),
        assign(Destination::A, Computation::DMinusA),
        assign(Destination::D, Computation::M),
        at("R15"@),
        assign(Destination::M, Computation::D),
    ]
}

/// `*ARG = pop()`: the result goes where the caller expects it.
pub open spec fn place_result_lines() -> Seq<LineView> {
    take_one_lines() + seq![
        at("ARG"@),
        assign(Destination::A, Computation::M),
        assign(Destination::M, Computation::D),
    ]
}

/// `SP = ARG + 1`, with `A` still holding `ARG`.
pub open spec fn reposition_sp_lines() -> Seq<LineView> {
    seq![
        assign(Destination::D, Computation::A),
        at("SP"@),
        assign(Destination::M, Computation::DPlusOne),
    ]
}

/// `THAT = *(R14 - 1)`.
pub open spec fn restore_that_lines() -> Seq<LineView> {
    seq![
        at("R14"@),
        assign(Destination::A, Computation::MMinusOne),
        assign(Destination::D, Computation::M),
        at("THAT"@),
        assign(Destination::M, Computation::D),
    ]
}

/// `THIS = *(R14 - 2)`.
pub open spec fn restore_this_lines() -> Seq<LineView> {
    seq![
        at("R14"@),
        assign(Destination::D, Computation::MMinusOne),
        assign(Destination::A, Computation::DMinusOne),
        assign(Destination::D, Computation::M),
        at("THIS"@),
        assign(Destination::M, Computation::D),
    ]
}

/// `ARG = *(R14 - 3)`.
pub open spec fn restore_arg_lines() -> Seq<LineView> {
    seq![
        at("R14"@),
        assign(Destination::D, Computation::MMinusOne),
        assign(Destination::D, Computation::DMinusOne),
        assign(Destination::A, Computation::DMinusOne),
        assign(Destination::D, Computation::M),
        at("ARG"@),
        assign(Destination::M, Computation::D),
    ]
}

/// `LCL = *(R14 - 4)`.
pub open spec fn restore_lcl_lines() -> Seq<LineView> {
    seq![
        at("R14"@),
        assign(Destination::D, Computation::MMinusOne),
        assign(Destination::D, Computation::DMinusOne),
        assign(Destination::D, Computation::DMinusOne),
        assign(Destination::A, Computation::DMinusOne),
        assign(Destination::D, Computation::M),
        at("LCL"@),
        assign(Destination::M, Computation::D),
    ]
}

/// Jumps to the address in `R15`.
pub open spec fn jump_back_lines() -> Seq<LineView> {
    seq![
        at("R15"@),
        assign(Destination::A, Computation::M),
        branch(Computation::Zero, Jump::Unconditional),
    ]
}

/// `return`: saves the end of the frame and the return address, hands the
/// result to the caller, gives the caller its stack and its four pointers
/// back, and jumps to the return address.
pub open spec fn return_lines() -> Seq<LineView> {
    save_frame_lines() + save_return_address_lines() + place_result_lines()
        + reposition_sp_lines() + restore_that_lines() + restore_this_lines()
        + restore_arg_lines() + restore_lcl_lines() + jump_back_lines()
}

/// The jump that a comparison takes where it holds.
pub open spec fn jump_of(command: CommandView) -> Jump {
    match command {
        CommandView::Eq => Jump::Equal,
        CommandView::Gt => Jump::Greater,
        _ => Jump::Less,
    }
}

/// The code of a comparison up to its label: pops two values, pushes -1,
/// and jumps to the label where the comparison of the second from the top
/// with the top holds; else it puts 0 in place of the -1.
pub open spec fn compare_lines(command: CommandView, prefix: Seq<char>, n: nat) -> Seq<LineView> {
    take_two_lines() + seq![
        assign(Destination::D, Computation::MMinusD),
        assign(Destination::M, Computation::NegativeOne),
        at(cond_label(prefix, n)),
        branch(Computation::D, jump_of(command)),
        at("SP"@),
        assign(Destination::A, Computation::MMinusOne),
        assign(Destination::M, Computation::Zero),
    ]
}

/// `eq`, `gt` or `lt`, the `n`-th comparison of the file `prefix`: pops two
/// values, and pushes -1 where the comparison of the second from the top
/// with the top holds, and 0 where it does not. The label stands behind the
/// code.
pub open spec fn conditional_lines(command: CommandView, prefix: Seq<char>, n: nat) -> Seq<
    LineView,
> {
    compare_lines(command, prefix, n) + seq![mark(cond_label(prefix, n))]
}

/// `add`, `sub`, `and`, `or`: pops two values and pushes the result.
/// `neg`, `not`: changes the top of the stack in place.
pub open spec fn arithmetic_lines(command: CommandView) -> Seq<LineView> {
    match command {
        CommandView::Add => take_two_lines() + seq![assign(Destination::M, Computation::DPlusM)],
        CommandView::Sub => take_two_lines() + seq![assign(Destination::M, Computation::MMinusD)],
        CommandView::And => take_two_lines() + seq![assign(Destination::M, Computation::DAndM)],
        CommandView::Or => take_two_lines() + seq![assign(Destination::M, Computation::DOrM)],
        CommandView::Neg => seq![
            at("SP"@),
            assign(Destination::A, Computation::MMinusOne),
            assign(Destination::M, Computation::NegativeM),
        ],
        _ => seq![
            at("SP"@),
            assign(Destination::A, Computation::MMinusOne),
            assign(Destination::M, Computation::NotM),
        ],
    }
}

/// Pops into `*(base + index)`, where the symbol `base` holds a pointer.
pub open spec fn pop_i_lines(base: Seq<char>, index: u16) -> Seq<LineView> {
    seq![
        load(index),
        assign(Destination::D, Computation::A),
        at(base),
        assign(Destination::D, Computation::DPlusM),
        at("R13"@),
        assign(Destination::M, Computation::D),
    ] + take_one_lines() + seq![
        at("R13"@),
        assign(Destination::A, Computation::M),
        assign(Destination::M, Computation::D),
    ]
}

/// Pops into `*(5 + index)`.
pub open spec fn pop_temp_lines(index: u16) -> Seq<LineView> {
    seq![
        load(index),
        assign(Destination::D, Computation::A),
        load(5),
        assign(Destination::D, Computation::DPlusA),
        at("R13"@),
        assign(Destination::M, Computation::D),
    ] + take_one_lines() + seq![
        at("R13"@),
        assign(Destination::A, Computation::M),
        assign(Destination::M, Computation::D),
    ]
}

/// Pops into the static variable `index` of the file `prefix`.
pub open spec fn pop_static_lines(prefix: Seq<char>, index: u16) -> Seq<LineView> {
    take_one_lines() + seq![at(static_name(prefix, index)), assign(Destination::M, Computation::D)]
}

/// The register that `pointer index` names: `THIS` for 0, `THAT` for 1.
pub open spec fn pointer_name(index: u16) -> Seq<char> {
    if index == 0 {
        "THIS"@
    } else {
        "THAT"@
    }
}

/// Pops into `THIS` or `THAT`.
pub open spec fn pop_pointer_lines(index: u16) -> Seq<LineView> {
    take_one_lines() + seq![at(pointer_name(index)), assign(Destination::M, Computation::D)]
}

/// The symbol that holds the base of a segment that is reached through a
/// pointer.
pub open spec fn base_name(segment: Segment) -> Seq<char> {
    match segment {
        Segment::Local => "LCL"@,
        Segment::Argument => "ARG"@,
        Segment::This => "THIS"@,
        _ => "THAT"@,
    }
}

/// `pop segment index`. A constant cannot be popped into, and `pointer` has
/// only the indices 0 and 1.
pub open spec fn pop_lines(segment: Segment, index: u16, prefix: Seq<char>) -> Result<
    Seq<LineView>,
    Error,
> {
    match segment {
        Segment::Local | Segment::Argument | Segment::This | Segment::That => Ok(
            pop_i_lines(base_name(segment), index),
        ),
        Segment::Constant => Err(Error::PopConstant),
        Segment::Static => Ok(pop_static_lines(prefix, index)),
        Segment::Pointer => if index <= 1 {
            Ok(pop_pointer_lines(index))
        } else {
            Err(Error::PointerIndex { index })
        },
        Segment::Temp => Ok(pop_temp_lines(index)),
    }
}

/// Pushes the number `index`.
pub open spec fn push_constant_lines(index: u16) -> Seq<LineView> {
    seq![load(index), assign(Destination::D, Computation::A)] + push_d_lines()
}

/// Pushes `*(base + index)`, where the symbol `base` holds a pointer.
pub open spec fn push_i_lines(base: Seq<char>, index: u16) -> Seq<LineView> {
    seq![
        load(index),
        assign(Destination::D, Computation::A),
        at(base),
        assign(Destination::Ad, Computation::DPlusM),
        assign(Destination::D, Computation::M),
    ] + push_d_lines()
}

/// Pushes `*(5 + index)`.
pub open spec fn push_temp_lines(index: u16) -> Seq<LineView> {
    seq![
        load(index),
        assign(Destination::D, Computation::A),
        load(5),
        assign(Destination::Ad, Computation::DPlusA),
        assign(Destination::D, Computation::M),
    ] + push_d_lines()
}

/// Pushes the static variable `index` of the file `prefix`.
pub open spec fn push_static_lines(prefix: Seq<char>, index: u16) -> Seq<LineView> {
    seq![at(static_name(prefix, index)), assign(Destination::D, Computation::M)] + push_d_lines()
}

/// Pushes `THIS` or `THAT`.
pub open spec fn push_pointer_lines(index: u16) -> Seq<LineView> {
    seq![at(pointer_name(index)), assign(Destination::D, Computation::M)] + push_d_lines()
}

/// `push segment index`. `pointer` has only the indices 0 and 1.
pub open spec fn push_lines(segment: Segment, index: u16, prefix: Seq<char>) -> Result<
    Seq<LineView>,
    Error,
> {
    match segment {
        Segment::Local | Segment::Argument | Segment::This | Segment::That => Ok(
            push_i_lines(base_name(segment), index),
        ),
        Segment::Constant => Ok(push_constant_lines(index)),
        Segment::Static => Ok(push_static_lines(prefix, index)),
        Segment::Pointer => if index <= 1 {
            Ok(push_pointer_lines(index))
        } else {
            Err(Error::PointerIndex { index })
        },
        Segment::Temp => Ok(push_temp_lines(index)),
    }
}

/// Pushes the value of the symbol `name`.
pub open spec fn push_symbol_lines(name: Seq<char>) -> Seq<LineView> {
    seq![at(name), assign(Destination::D, Computation::M)] + push_d_lines()
}

/// `ARG = SP - 5 - arguments`, `LCL = SP`, and the jump to `function`.
pub open spec fn enter_lines(function: Seq<char>, arguments: u16) -> Seq<LineView> {
    seq![
        at("SP"@),
        assign(Destination::D, Computation::M),
        load(5),
        assign(Destination::D, Computation::DMinusA),
        load(arguments),
        assign(Destination::D, Computation::DMinusA),
        at("ARG"@),
        assign(Destination::M, Computation::D),
        at("SP"@),
        assign(Destination::D, Computation::M),
        at("LCL"@),
        assign(Destination::M, Computation::D),
        at(function),
        branch(Computation::Zero, Jump::Unconditional),
    ]
}

/// The frame of a call and the jump to the callee: pushes the return
/// address and the caller's `LCL`, `ARG`, `THIS` and `THAT`, sets `ARG` and
/// `LCL` for the callee, and jumps to it.
pub open spec fn call_frame_lines(
    function: Seq<char>,
    prefix: Seq<char>,
    arguments: u16,
    n: nat,
) -> Seq<LineView> {
    seq![at(return_label(prefix, n)), assign(Destination::D, Computation::A)] + push_d_lines()
        + push_symbol_lines("LCL"@) + push_symbol_lines("ARG"@) + push_symbol_lines("THIS"@)
        + push_symbol_lines("THAT"@) + enter_lines(function, arguments)
}

/// `call function arguments`, the `n`-th call of the file `prefix`: the
/// frame and the jump, and behind them the label of the return address.
pub open spec fn call_lines(function: Seq<char>, prefix: Seq<char>, arguments: u16, n: nat) -> Seq<
    LineView,
> {
    call_frame_lines(function, prefix, arguments, n) + seq![mark(return_label(prefix, n))]
}

/// The start of a program: `SP = 256`, then a call of `Sys.init` without
/// arguments, as call 0 of the file `BOOT`.
pub open spec fn boot_lines() -> Seq<LineView> {
    seq![
        load(256),
        assign(Destination::D, Computation::A),
        at("SP"@),
        assign(Destination::M, Computation::D),
    ] + call_lines("Sys.init"@, "BOOT"@, 0, 0)
}

/// How many comparisons and calls have been translated: the numbers that
/// the next labels will carry.
pub struct Counters {
    pub cond: nat,
    pub call: nat,
}

/// The lines of one command, where `counters` stand before it.
pub open spec fn command_lines(command: CommandView, prefix: Seq<char>, counters: Counters) -> Result<
    Seq<LineView>,
    Error,
> {
    match command {
        CommandView::Pop(segment, index) => pop_lines(segment, index, prefix),
        CommandView::Push(segment, index) => push_lines(segment, index, prefix),
        CommandView::Eq | CommandView::Gt | CommandView::Lt => Ok(
            conditional_lines(command, prefix, counters.cond),
        ),
        CommandView::Add | CommandView::Sub | CommandView::Neg | CommandView::And
        | CommandView::Or | CommandView::Not => Ok(arithmetic_lines(command)),
        CommandView::Label(name) => Ok(label_lines(name)),
        CommandView::Goto(name) => Ok(goto_lines(name)),
        CommandView::IfGoto(name) => Ok(if_goto_lines(name)),
        CommandView::Function(name, locals) => Ok(function_lines(name, locals)),
        CommandView::Call(name, arguments) => Ok(
            call_lines(name, prefix, arguments, counters.call),
        ),
        CommandView::Return => Ok(return_lines()),
    }
}

/// The counters behind one command: a comparison and a call each take one
/// number.
pub open spec fn counters_after(command: CommandView, counters: Counters) -> Counters {
    match command {
        CommandView::Eq | CommandView::Gt | CommandView::Lt => Counters {
            cond: counters.cond + 1,
            call: counters.call,
        },
        CommandView::Call(_, _) => Counters { cond: counters.cond, call: counters.call + 1 },
        _ => counters,
    }
}

/// The lines of the commands in `lines[from..]`, in order, or the first
/// error. Empty lines give nothing.
pub open spec fn translate_from(
    lines: Seq<Option<CommandView>>,
    from: int,
    prefix: Seq<char>,
    counters: Counters,
) -> Result<Seq<LineView>, Error>
    decreases lines.len() - from,
{
    if from < 0 || from >= lines.len() {
        Ok(Seq::empty())
    } else {
        match lines[from] {
            None => translate_from(lines, from + 1, prefix, counters),
            Some(command) => match command_lines(command, prefix, counters) {
                Err(e) => Err(e),
                Ok(first) => match translate_from(
                    lines,
                    from + 1,
                    prefix,
                    counters_after(command, counters),
                ) {
                    Ok(rest) => Ok(first + rest),
                    Err(e) => Err(e),
                },
            },
        }
    }
}

/// The lines of one file: its commands in order, the counters from zero.
pub open spec fn translate_spec(lines: Seq<Option<CommandView>>, prefix: Seq<char>) -> Result<
    Seq<LineView>,
    Error,
> {
    translate_from(lines, 0, prefix, Counters { cond: 0, call: 0 })
}

/// `rest` behind the lines `done`.
pub open spec fn after_done(done: Seq<LineView>, rest: Result<Seq<LineView>, Error>) -> Result<
    Seq<LineView>,
    Error,
> {
    match rest {
        Ok(lines) => Ok(done + lines),
        Err(e) => Err(e),
    }
}

fn emit_at(out: &mut Vec<Line>, name: &str)
    ensures
        views(final(out)@) == views(old(out)@).push(at(name@)),
{
    out.push(Line::Symbol(String::from_str(name)));
    assert(views(out@) =~= views(old(out)@).push(at(name@)));
}

fn emit_at_name(out: &mut Vec<Line>, name: String)
    ensures
        views(final(out)@) == views(old(out)@).push(at(name@)),
{
    out.push(Line::Symbol(name));
    assert(views(out@) =~= views(old(out)@).push(at(name@)));
}

fn emit_mark(out: &mut Vec<Line>, name: String)
    ensures
        views(final(out)@) == views(old(out)@).push(mark(name@)),
{
    out.push(Line::Label(name));
    assert(views(out@) =~= views(old(out)@).push(mark(name@)));
}

fn emit_load(out: &mut Vec<Line>, n: u16)
    ensures
        views(final(out)@) == views(old(out)@).push(load(n)),
{
    out.push(Line::Number(n));
    assert(views(out@) =~= views(old(out)@).push(load(n)));
}

fn emit_assign(out: &mut Vec<Line>, dest: Destination, comp: Computation)
    ensures
        views(final(out)@) == views(old(out)@).push(assign(dest, comp)),
{
    out.push(Line::Compute { dest, comp, jump: Jump::Null });
    assert(views(out@) =~= views(old(out)@).push(assign(dest, comp)));
}

fn emit_branch(out: &mut Vec<Line>, comp: Computation, jump: Jump)
    ensures
        views(final(out)@) == views(old(out)@).push(branch(comp, jump)),
{
    out.push(Line::Compute { dest: Destination::Null, comp, jump });
    assert(views(out@) =~= views(old(out)@).push(branch(comp, jump)));
}

fn take_one(out: &mut Vec<Line>)
    ensures
        views(final(out)@) == views(old(out)@) + take_one_lines(),
{
    emit_at(out, "SP");
    emit_assign(out, Destination::Am, Computation::MMinusOne);
    emit_assign(out, Destination::D, Computation::M);
    assert(views(out@) =~= views(old(out)@) + take_one_lines());
}

fn take_two(out: &mut Vec<Line>)
    ensures
        views(final(out)@) == views(old(out)@) + take_two_lines(),
{
    take_one(out);
    emit_at(out, "SP");
    emit_assign(out, Destination::A, Computation::MMinusOne);
    assert(views(out@) =~= views(old(out)@) + take_two_lines());
}

fn push_d(out: &mut Vec<Line>)
    ensures
        views(final(out)@) == views(old(out)@) + push_d_lines(),
{
    emit_at(out, "SP");
    emit_assign(out, Destination::A, Computation::M);
    emit_assign(out, Destination::M, Computation::D);
    emit_at(out, "SP");
    emit_assign(out, Destination::M, Computation::MPlusOne);
    assert(views(out@) =~= views(old(out)@) + push_d_lines());
}

fn label(out: &mut Vec<Line>, name: &str)
    ensures
        views(final(out)@) == views(old(out)@) + label_lines(name@),
{
    emit_mark(out, String::from_str(name));
    assert(views(out@) =~= views(old(out)@) + label_lines(name@));
}

fn goto(out: &mut Vec<Line>, name: &str)
    ensures
        views(final(out)@) == views(old(out)@) + goto_lines(name@),
{
    emit_at(out, name);
    emit_branch(out, Computation::Zero, Jump::Unconditional);
    assert(views(out@) =~= views(old(out)@) + goto_lines(name@));
}

fn if_goto(out: &mut Vec<Line>, name: &str)
    ensures
        views(final(out)@) == views(old(out)@) + if_goto_lines(name@),
{
    take_one(out);
    emit_at(out, name);
    emit_branch(out, Computation::D, Jump::NotEqual);
    assert(views(out@) =~= views(old(out)@) + if_goto_lines(name@));
}

fn function(out: &mut Vec<Line>, name: &str, locals_count: u16)
    ensures
        views(final(out)@) == views(old(out)@) + function_lines(name@, locals_count),
{
    label(out, name);
    let mut i: u16 = 0;
    while i < locals_count
        invariant
            i <= locals_count,
            views(out@) == views(old(out)@) + label_lines(name@) + push_zeros_lines(i as nat),
        decreases locals_count - i,
    {
        let ghost before = views(out@);
        emit_at(out, "SP");
        emit_assign(out, Destination::A, Computation::M);
        emit_assign(out, Destination::M, Computation::Zero);
        emit_at(out, "SP");
        emit_assign(out, Destination::M, Computation::MPlusOne);
        assert(views(out@) =~= before + push_zero_lines());
        assert(views(out@) =~= views(old(out)@) + label_lines(name@) + push_zeros_lines(
            (i + 1) as nat,
        ));
        i += 1;
    }
    assert(views(out@) =~= views(old(out)@) + function_lines(name@, locals_count));
}

fn save_frame(out: &mut Vec<Line>)
    ensures
        views(final(out)@) == views(old(out)@) + save_frame_lines(),
{
    emit_at(out, "LCL");
    emit_assign(out, Destination::D, Computation::M);
    emit_at(out, "R14");
    emit_assign(out, Destination::M, Computation::D);
    assert(views(out@) =~= views(old(out)@) + save_frame_lines());
}

fn save_return_address(out: &mut Vec<Line>)
    ensures
        views(final(out)@) == views(old(out)@) + save_return_address_lines(),
{
    emit_load(out, 5);
    emit_assign(out, Destination::A, Computation::DMinusA);
    emit_assign(out, Destination::D, Computation::M);
    emit_at(out, "R15");
    emit_assign(out, Destination::M, Computation::D);
    assert(views(out@) =~= views(old(out)@) + save_return_address_lines());
}

fn place_result(out: &mut Vec<Line>)
    ensures
        views(final(out)@) == views(old(out)@) + place_result_lines(),
{
    take_one(out);
    emit_at(out, "ARG");
    emit_assign(out, Destination::A, Computation::M);
    emit_assign(out, Destination::M, Computation::D);
    assert(views(out@) =~= views(old(out)@) + place_result_lines());
}

fn reposition_sp(out: &mut Vec<Line>)
    ensures
        views(final(out)@) == views(old(out)@) + reposition_sp_lines(),
{
    emit_assign(out, Destination::D, Computation::A);
    emit_at(out, "SP");
    emit_assign(out, Destination::M, Computation::DPlusOne);
    assert(views(out@) =~= views(old(out)@) + reposition_sp_lines());
}

fn restore_that(out: &mut Vec<Line>)
    ensures
        views(final(out)@) == views(old(out)@) + restore_that_lines(),
{
    emit_at(out, "R14");
    emit_assign(out, Destination::A, Computation::MMinusOne);
    emit_assign(out, Destination::D, Computation::M);
    emit_at(out, "THAT");
    emit_assign(out, Destination::M, Computation::D);
    assert(views(out@) =~= views(old(out)@) + restore_that_lines());
}

fn restore_this(out: &mut Vec<Line>)
    ensures
        views(final(out)@) == views(old(out)@) + restore_this_lines(),
{
    emit_at(out, "R14");
    emit_assign(out, Destination::D, Computation::MMinusOne);
    emit_assign(out, Destination::A, Computation::DMinusOne);
    emit_assign(out, Destination::D, Computation::M);
    emit_at(out, "THIS");
    emit_assign(out, Destination::M, Computation::D);
    assert(views(out@) =~= views(old(out)@) + restore_this_lines());
}

fn restore_arg(out: &mut Vec<Line>)
    ensures
        views(final(out)@) == views(old(out)@) + restore_arg_lines(),
{
    emit_at(out, "R14");
    emit_assign(out, Destination::D, Computation::MMinusOne);
    emit_assign(out, Destination::D, Computation::DMinusOne);
    emit_assign(out, Destination::A, Computation::DMinusOne);
    emit_assign(out, Destination::D, Computation::M);
    emit_at(out, "ARG");
    emit_assign(out, Destination::M, Computation::D);
    assert(views(out@) =~= views(old(out)@) + restore_arg_lines());
}

fn restore_lcl(out: &mut Vec<Line>)
    ensures
        views(final(out)@) == views(old(out)@) + restore_lcl_lines(),
{
    emit_at(out, "R14");
    emit_assign(out, Destination::D, Computation::MMinusOne);
    emit_assign(out, Destination::D, Computation::DMinusOne);
    emit_assign(out, Destination::D, Computation::DMinusOne);
    emit_assign(out, Destination::A, Computation::DMinusOne);
    emit_assign(out, Destination::D, Computation::M);
    emit_at(out, "LCL");
    emit_assign(out, Destination::M, Computation::D);
    assert(views(out@) =~= views(old(out)@) + restore_lcl_lines());
}

fn jump_back(out: &mut Vec<Line>)
    ensures
        views(final(out)@) == views(old(out)@) + jump_back_lines(),
{
    emit_at(out, "R15");
    emit_assign(out, Destination::A, Computation::M);
    emit_branch(out, Computation::Zero, Jump::Unconditional);
    assert(views(out@) =~= views(old(out)@) + jump_back_lines());
}

fn return_(out: &mut Vec<Line>)
    ensures
        views(final(out)@) == views(old(out)@) + return_lines(),
{
    save_frame(out);
    save_return_address(out);
    place_result(out);
    reposition_sp(out);
    restore_that(out);
    restore_this(out);
    restore_arg(out);
    restore_lcl(out);
    jump_back(out);
    assert(views(out@) =~= views(old(out)@) + return_lines());
}

/// The name `head`, `prefix`, `_` and the numeral of `n`, in a row.
fn numbered_label(head: &str, prefix: &str, n: usize) -> (name: String)
    ensures
        name@ == head@ + prefix@ + "_"@ + decimal(n as nat),
{
    let mut name = String::from_str(head);
    name.append(prefix);
    name.append("_");
    push_decimal(&mut name, n as u64);
    name
}

fn conditional(out: &mut Vec<Line>, command: &Command, prefix: &str, counter: usize)
    requires
        command@ is Eq || command@ is Gt || command@ is Lt,
    ensures
        views(final(out)@) == views(old(out)@) + conditional_lines(
            command@,
            prefix@,
            counter as nat,
        ),
{
    let jump = match command {
        Command::Eq => Jump::Equal,
        Command::Gt => Jump::Greater,
        _ => Jump::Less,
    };
    take_two(out);
    emit_assign(out, Destination::D, Computation::MMinusD);
    emit_assign(out, Destination::M, Computation::NegativeOne);
    emit_at_name(out, numbered_label("COND_", prefix, counter));
    emit_branch(out, Computation::D, jump);
    emit_at(out, "SP");
    emit_assign(out, Destination::A, Computation::MMinusOne);
    emit_assign(out, Destination::M, Computation::Zero);
    emit_mark(out, numbered_label("COND_", prefix, counter));
    assert(views(out@) =~= views(old(out)@) + conditional_lines(
        command@,
        prefix@,
        counter as nat,
    ));
}

fn arithmetic(out: &mut Vec<Line>, command: &Command)
    requires
        command@ is Add || command@ is Sub || command@ is Neg || command@ is And || command@ is Or
            || command@ is Not,
    ensures
        views(final(out)@) == views(old(out)@) + arithmetic_lines(command@),
{
    match command {
        Command::Add => {
            take_two(out);
            emit_assign(out, Destination::M, Computation::DPlusM);
        },
        Command::Sub => {
            take_two(out);
            emit_assign(out, Destination::M, Computation::MMinusD);
        },
        Command::And => {
            take_two(out);
            emit_assign(out, Destination::M, Computation::DAndM);
        },
        Command::Or => {
            take_two(out);
            emit_assign(out, Destination::M, Computation::DOrM);
        },
        Command::Neg => {
            emit_at(out, "SP");
            emit_assign(out, Destination::A, Computation::MMinusOne);
            emit_assign(out, Destination::M, Computation::NegativeM);
        },
        _ => {
            emit_at(out, "SP");
            emit_assign(out, Destination::A, Computation::MMinusOne);
            emit_assign(out, Destination::M, Computation::NotM);
        },
    }
    assert(views(out@) =~= views(old(out)@) + arithmetic_lines(command@));
}

fn pop(out: &mut Vec<Line>, segment: Segment, i: u16, static_prefix: &str) -> (r: Result<
    (),
    Error,
>)
    ensures
        match pop_lines(segment, i, static_prefix@) {
            Ok(lines) => r is Ok && views(final(out)@) == views(old(out)@) + lines,
            Err(e) => r == Err::<(), Error>(e) && final(out)@ == old(out)@,
        },
{
    match segment {
        Segment::Local => pop_i(out, "LCL", i),
        Segment::Argument => pop_i(out, "ARG", i),
        Segment::This => pop_i(out, "THIS", i),
        Segment::That => pop_i(out, "THAT", i),
        Segment::Constant => {
            return Err(Error::PopConstant);
        },
        Segment::Static => pop_static(out, static_prefix, i),
        Segment::Pointer => {
            if i > 1 {
                return Err(Error::PointerIndex { index: i });
            }
            pop_pointer(out, i)
        },
        Segment::Temp => pop_temp(out, i),
    }
    Ok(())
}

fn pop_i(out: &mut Vec<Line>, base_addr: &str, i: u16)
    ensures
        views(final(out)@) == views(old(out)@) + pop_i_lines(base_addr@, i),
{
    emit_load(out, i);
    emit_assign(out, Destination::D, Computation::A);
    emit_at(out, base_addr);
    emit_assign(out, Destination::D, Computation::DPlusM);
    emit_at(out, "R13");
    emit_assign(out, Destination::M, Computation::D);  // R13 has the target address.
    take_one(out);  // D has the popped value.
    emit_at(out, "R13");
    emit_assign(out, Destination::A, Computation::M);
    emit_assign(out, Destination::M, Computation::D);  // The value is stored at the target address.
    assert(views(out@) =~= views(old(out)@) + pop_i_lines(base_addr@, i));
}

fn pop_temp(out: &mut Vec<Line>, i: u16)
    ensures
        views(final(out)@) == views(old(out)@) + pop_temp_lines(i),
{
    emit_load(out, i);
    emit_assign(out, Destination::D, Computation::A);
    emit_load(out, 5);
    emit_assign(out, Destination::D, Computation::DPlusA);
    emit_at(out, "R13");
    emit_assign(out, Destination::M, Computation::D);  // R13 has the target address.
    take_one(out);  // D has the popped value.
    emit_at(out, "R13");
    emit_assign(out, Destination::A, Computation::M);
    emit_assign(out, Destination::M, Computation::D);  // The value is stored at the target address.
    assert(views(out@) =~= views(old(out)@) + pop_temp_lines(i));
}

/// The symbol of the static variable `i` of the file `prefix`.
fn static_symbol(prefix: &str, i: u16) -> (name: String)
    ensures
        name@ == static_name(prefix@, i),
{
    let mut name = String::from_str(prefix);
    name.append(".");
    push_decimal(&mut name, i as u64);
    name
}

fn pop_static(out: &mut Vec<Line>, prefix: &str, i: u16)
    ensures
        views(final(out)@) == views(old(out)@) + pop_static_lines(prefix@, i),
{
    take_one(out);
    emit_at_name(out, static_symbol(prefix, i));
    emit_assign(out, Destination::M, Computation::D);
    assert(views(out@) =~= views(old(out)@) + pop_static_lines(prefix@, i));
}

fn pop_pointer(out: &mut Vec<Line>, i: u16)
    requires
        i <= 1,
    ensures
        views(final(out)@) == views(old(out)@) + pop_pointer_lines(i),
{
    take_one(out);
    emit_at(out, point_to(i));
    emit_assign(out, Destination::M, Computation::D);
    assert(views(out@) =~= views(old(out)@) + pop_pointer_lines(i));
}

fn push(out: &mut Vec<Line>, segment: Segment, i: u16, static_prefix: &str) -> (r: Result<
    (),
    Error,
>)
    ensures
        match push_lines(segment, i, static_prefix@) {
            Ok(lines) => r is Ok && views(final(out)@) == views(old(out)@) + lines,
            Err(e) => r == Err::<(), Error>(e) && final(out)@ == old(out)@,
        },
{
    match segment {
        Segment::Local => push_i(out, "LCL", i),
        Segment::Argument => push_i(out, "ARG", i),
        Segment::This => push_i(out, "THIS", i),
        Segment::That => push_i(out, "THAT", i),
        Segment::Constant => push_constant(out, i),
        Segment::Static => push_static(out, static_prefix, i),
        Segment::Pointer => {
            if i > 1 {
                return Err(Error::PointerIndex { index: i });
            }
            push_pointer(out, i)
        },
        Segment::Temp => push_temp(out, i),
    }
    Ok(())
}

fn push_constant(out: &mut Vec<Line>, i: u16)
    ensures
        views(final(out)@) == views(old(out)@) + push_constant_lines(i),
{
    emit_load(out, i);
    emit_assign(out, Destination::D, Computation::A);
    push_d(out);
    assert(views(out@) =~= views(old(out)@) + push_constant_lines(i));
}

fn push_i(out: &mut Vec<Line>, base_addr: &str, i: u16)
    ensures
        views(final(out)@) == views(old(out)@) + push_i_lines(base_addr@, i),
{
    emit_load(out, i);
    emit_assign(out, Destination::D, Computation::A);
    emit_at(out, base_addr);
    emit_assign(out, Destination::Ad, Computation::DPlusM);
    emit_assign(out, Destination::D, Computation::M);
    push_d(out);
    assert(views(out@) =~= views(old(out)@) + push_i_lines(base_addr@, i));
}

fn push_temp(out: &mut Vec<Line>, i: u16)
    ensures
        views(final(out)@) == views(old(out)@) + push_temp_lines(i),
{
    emit_load(out, i);
    emit_assign(out, Destination::D, Computation::A);
    emit_load(out, 5);
    emit_assign(out, Destination::Ad, Computation::DPlusA);
    emit_assign(out, Destination::D, Computation::M);
    push_d(out);
    assert(views(out@) =~= views(old(out)@) + push_temp_lines(i));
}

fn push_static(out: &mut Vec<Line>, prefix: &str, i: u16)
    ensures
        views(final(out)@) == views(old(out)@) + push_static_lines(prefix@, i),
{
    emit_at_name(out, static_symbol(prefix, i));
    emit_assign(out, Destination::D, Computation::M);
    push_d(out);
    assert(views(out@) =~= views(old(out)@) + push_static_lines(prefix@, i));
}

fn push_pointer(out: &mut Vec<Line>, i: u16)
    requires
        i <= 1,
    ensures
        views(final(out)@) == views(old(out)@) + push_pointer_lines(i),
{
    emit_at(out, point_to(i));
    emit_assign(out, Destination::D, Computation::M);
    push_d(out);
    assert(views(out@) =~= views(old(out)@) + push_pointer_lines(i));
}

fn point_to(i: u16) -> (name: &'static str)
    requires
        i <= 1,
    ensures
        name@ == pointer_name(i),
{
    if i == 0 {
        "THIS"
    } else {
        "THAT"
    }
}

fn push_symbol(out: &mut Vec<Line>, name: &str)
    ensures
        views(final(out)@) == views(old(out)@) + push_symbol_lines(name@),
{
    emit_at(out, name);
    emit_assign(out, Destination::D, Computation::M);
    push_d(out);
    assert(views(out@) =~= views(old(out)@) + push_symbol_lines(name@));
}

fn enter(out: &mut Vec<Line>, function: &str, arguments: u16)
    ensures
        views(final(out)@) == views(old(out)@) + enter_lines(function@, arguments),
{
    emit_at(out, "SP");
    emit_assign(out, Destination::D, Computation::M);
    emit_load(out, 5);
    emit_assign(out, Destination::D, Computation::DMinusA);
    emit_load(out, arguments);
    emit_assign(out, Destination::D, Computation::DMinusA);
    emit_at(out, "ARG");
    emit_assign(out, Destination::M, Computation::D);
    emit_at(out, "SP");
    emit_assign(out, Destination::D, Computation::M);
    emit_at(out, "LCL");
    emit_assign(out, Destination::M, Computation::D);
    emit_at(out, function);
    emit_branch(out, Computation::Zero, Jump::Unconditional);
    assert(views(out@) =~= views(old(out)@) + enter_lines(function@, arguments));
}

fn call(out: &mut Vec<Line>, function: &str, prefix: &str, arguments: u16, counter: usize)
    ensures
        views(final(out)@) == views(old(out)@) + call_lines(
            function@,
            prefix@,
            arguments,
            counter as nat,
        ),
{
    emit_at_name(out, numbered_label("CALL_RET_", prefix, counter));
    emit_assign(out, Destination::D, Computation::A);
    push_d(out);
    push_symbol(out, "LCL");
    push_symbol(out, "ARG");
    push_symbol(out, "THIS");
    push_symbol(out, "THAT");
    enter(out, function, arguments);
    emit_mark(out, numbered_label("CALL_RET_", prefix, counter));
    assert(views(out@) =~= views(old(out)@) + call_lines(
        function@,
        prefix@,
        arguments,
        counter as nat,
    ));
}

/// The translator of one file: it counts the comparisons and the calls, so
/// that each gets a label of its own.
struct Translator {
    cond_counter: usize,
    call_counter: usize,
}

impl Translator {
    spec fn counters(&self) -> Counters {
        Counters { cond: self.cond_counter as nat, call: self.call_counter as nat }
    }

    /// Appends the lines of one command to `out`.
    fn translate(&mut self, out: &mut Vec<Line>, command: &Command, static_prefix: &str) -> (r:
        Result<(), Error>)
        requires
            old(self).cond_counter < usize::MAX,
            old(self).call_counter < usize::MAX,
        ensures
            match command_lines(command@, static_prefix@, old(self).counters()) {
                Ok(lines) => {
                    &&& r is Ok
                    &&& views(final(out)@) == views(old(out)@) + lines
                    &&& final(self).counters() == counters_after(command@, old(self).counters())
                },
                Err(e) => r == Err::<(), Error>(e),
            },
    {
        match command {
            Command::Pop(segment, i) => pop(out, *segment, *i, static_prefix),
            Command::Push(segment, i) => push(out, *segment, *i, static_prefix),
            Command::Eq | Command::Gt | Command::Lt => {
                conditional(out, command, static_prefix, self.cond_counter);
                self.cond_counter += 1;
                Ok(())
            },
            Command::Add | Command::Sub | Command::Neg | Command::And | Command::Or
            | Command::Not => {
                arithmetic(out, command);
                Ok(())
            },
            Command::Label(ident) => {
                label(out, ident.as_str());
                Ok(())
            },
            Command::Goto(ident) => {
                goto(out, ident.as_str());
                Ok(())
            },
            Command::IfGoto(ident) => {
                if_goto(out, ident.as_str());
                Ok(())
            },
            Command::Function(ident, i) => {
                function(out, ident.as_str(), *i);
                Ok(())
            },
            Command::Call(ident, i) => {
                call(out, ident.as_str(), static_prefix, *i, self.call_counter);
                self.call_counter += 1;
                Ok(())
            },
            Command::Return => {
                return_(out);
                Ok(())
            },
        }
    }
}

/// The lines of the start of a program.
pub fn boot_code() -> (lines: Vec<Line>)
    ensures
        views(lines@) == boot_lines(),
{
    let mut out: Vec<Line> = vec![];
    assert(views(out@) =~= Seq::<LineView>::empty());
    emit_load(&mut out, 256);
    emit_assign(&mut out, Destination::D, Computation::A);
    emit_at(&mut out, "SP");
    emit_assign(&mut out, Destination::M, Computation::D);
    call(&mut out, "Sys.init", "BOOT", 0, 0);
    assert(views(out@) =~= boot_lines());
    out
}

/// The text of the start of a program.
pub fn boot() -> (text: String)
    ensures
        text@ == render_spec(boot_lines()),
{
    render(&boot_code())
}

/// The lines of the commands of one file, in order. `static_prefix` names
/// the file: it is part of the file's static symbols and of the labels made
/// for its comparisons and calls.
pub fn translate_lines(commands: &[Option<Command>], static_prefix: &str) -> (r: Result<
    Vec<Line>,
    Error,
>)
    ensures
        match translate_spec(line_views(commands@), static_prefix@) {
            Ok(lines) => r matches Ok(found) && views(found@) == lines,
            Err(e) => r == Err::<Vec<Line>, Error>(e),
        },
{
    let mut translator = Translator { cond_counter: 0, call_counter: 0 };
    let mut out: Vec<Line> = vec![];
    let ghost lines = line_views(commands@);
    let ghost all = translate_spec(lines, static_prefix@);
    let mut i: usize = 0;
    assert(views(out@) =~= Seq::<LineView>::empty());
    while i < commands.len()
        invariant
            i <= commands.len(),
            lines == line_views(commands@),
            translator.cond_counter <= i,
            translator.call_counter <= i,
            all == translate_spec(lines, static_prefix@),
            after_done(
                views(out@),
                translate_from(lines, i as int, static_prefix@, translator.counters()),
            ) == all,
        decreases commands.len() - i,
    {
        let ghost done = views(out@);
        let ghost before = translator.counters();
        assert(lines[i as int] == line_view(commands@[i as int]));
        match &commands[i] {
            Some(command) => {
                match translator.translate(&mut out, command, static_prefix) {
                    Ok(()) => {
                        proof {
                            let first = command_lines(command@, static_prefix@, before)->Ok_0;
                            if let Ok(rest) = translate_from(
                                lines,
                                i + 1,
                                static_prefix@,
                                translator.counters(),
                            ) {
                                assert(done + (first + rest) =~= (done + first) + rest);
                            }
                        }
                    },
                    Err(e) => {
                        return Err(e);
                    },
                }
            },
            None => {},
        }
        i += 1;
    }
    assert(views(out@) + Seq::<LineView>::empty() =~= views(out@));
    Ok(out)
}

/// The text of the commands of one file, in order.
pub fn translate(commands: &[Option<Command>], static_prefix: &str) -> (r: Result<String, Error>)
    ensures
        match translate_spec(line_views(commands@), static_prefix@) {
            Ok(lines) => r matches Ok(text) && text@ == render_spec(lines),
            Err(e) => r == Err::<String, Error>(e),
        },
{
    match translate_lines(commands, static_prefix) {
        Ok(lines) => Ok(render(&lines)),
        Err(e) => Err(e),
    }
}

} // verus!
