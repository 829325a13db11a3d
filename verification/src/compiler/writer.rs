//! Writing out the stack-machine commands that the compiler produces.

use crate::text::{decimal, push_decimal};
use crate::vm::parser::{Command, CommandView, Segment};
use vstd::prelude::*;
use vstd::string::StringExecFns;

verus! {

/// The name of a segment, as a command writes it.
pub open spec fn segment_name(segment: Segment) -> Seq<char> {
    match segment {
        Segment::Local => "local"@,
        Segment::Argument => "argument"@,
        Segment::This => "this"@,
        Segment::That => "that"@,
        Segment::Constant => "constant"@,
        Segment::Static => "static"@,
        Segment::Pointer => "pointer"@,
        Segment::Temp => "temp"@,
    }
}

/// The name of a segment, as a command writes it.
pub fn segment_to_str(segment: Segment) -> (name: &'static str)
    ensures
        name@ == segment_name(segment),
{
    match segment {
        Segment::Local => "local",
        Segment::Argument => "argument",
        Segment::This => "this",
        Segment::That => "that",
        Segment::Constant => "constant",
        Segment::Static => "static",
        Segment::Pointer => "pointer",
        Segment::Temp => "temp",
    }
}

/// The commands that the compiler produces: `add`, `function`, `call` and
/// `push`.
pub open spec fn is_written(command: CommandView) -> bool {
    command is Add || command is Function || command is Call || command is Push
}

/// The text of a command of the class `class_name`, without a line end. A
/// function is written with the name of its class before its own.
pub open spec fn command_text(command: CommandView, class_name: Seq<char>) -> Seq<char> {
    match command {
        CommandView::Function(name, count) => "function "@ + class_name + "."@ + name + " "@
            + decimal(count as nat),
        CommandView::Call(name, count) => "call "@ + name + " "@ + decimal(count as nat),
        CommandView::Push(segment, n) => "push "@ + segment_name(segment) + " "@ + decimal(
            n as nat,
        ),
        _ => "add"@,
    }
}

/// Whether `command` is one of those that the compiler produces.
pub fn can_write(command: &Command) -> (b: bool)
    ensures
        b == is_written(command@),
{
    match command {
        Command::Add | Command::Function(_, _) | Command::Call(_, _) | Command::Push(_, _) => true,
        _ => false,
    }
}

/// The text of a command of the class `class_name`, without a line end.
pub fn command_to_str(command: &Command, class_name: &str) -> (text: String)
    requires
        is_written(command@),
    ensures
        text@ == command_text(command@, class_name@),
{
    match command {
        Command::Function(name, param_count) => {
            let mut text = String::from_str("function ");
            text.append(class_name);
            text.append(".");
            text.append(name.as_str());
            text.append(" ");
            push_decimal(&mut text, *param_count as u64);
            text
        },
        Command::Call(name, arg_count) => {
            let mut text = String::from_str("call ");
            text.append(name.as_str());
            text.append(" ");
            push_decimal(&mut text, *arg_count as u64);
            text
        },
        Command::Push(segment, n) => {
            let mut text = String::from_str("push ");
            text.append(segment_to_str(*segment));
            text.append(" ");
            push_decimal(&mut text, *n as u64);
            text
        },
        _ => String::from_str("add"),
    }
}

} // verus!
