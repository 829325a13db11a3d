//! The translator from stack-machine commands to Hack assembly: one file, or
//! several files as one program.

pub mod code;
pub mod convention;
pub mod effects;
pub mod error;
pub mod lines;
pub mod machine;
pub mod parser;
pub mod theorems;
pub mod word;

use crate::text::chars_of;
use crate::vm::code::{boot_code, boot_lines, translate_lines, translate_spec};
use crate::vm::error::Error;
use crate::vm::lines::{render, render_spec, views, Line, LineView};
use crate::vm::parser::{line_views, lines_from, lines_in};
use vstd::prelude::*;

verus! {

/// The lines of the file with the text `input` and the name `prefix`. Where
/// the parser stops before the end of the text, the line at which it stops is
/// at fault.
pub open spec fn translate_str_spec(input: Seq<char>, prefix: Seq<char>) -> Result<
    Seq<LineView>,
    Error,
> {
    let (lines, stop) = lines_from(input, 0);
    if stop < input.len() {
        Err(Error::Syntax { line: lines.len() as usize })
    } else {
        translate_spec(lines, prefix)
    }
}

/// One file of a program: its name without the extension, and its text.
#[derive(Debug, PartialEq, Eq)]
pub struct Unit {
    pub name: String,
    pub source: String,
}

/// The lines of the files `units[from..]`, one file after the other, or the
/// first error.
pub open spec fn units_from(units: Seq<Unit>, from: int) -> Result<Seq<LineView>, Error>
    decreases units.len() - from,
{
    if from < 0 || from >= units.len() {
        Ok(Seq::empty())
    } else {
        match translate_str_spec(units[from].source@, units[from].name@) {
            Err(e) => Err(e),
            Ok(first) => match units_from(units, from + 1) {
                Ok(rest) => Ok(first + rest),
                Err(e) => Err(e),
            },
        }
    }
}

/// The lines of a program: the start, then the files in order.
pub open spec fn program_spec(units: Seq<Unit>) -> Result<Seq<LineView>, Error> {
    match units_from(units, 0) {
        Ok(lines) => Ok(boot_lines() + lines),
        Err(e) => Err(e),
    }
}

/// Appends the lines of the file with the text `input` to `out`.
fn translate_into(out: &mut Vec<Line>, input: &str, static_prefix: &str) -> (r: Result<(), Error>)
    ensures
        match translate_str_spec(input@, static_prefix@) {
            Ok(lines) => r is Ok && views(final(out)@) == views(old(out)@) + lines,
            Err(e) => r == Err::<(), Error>(e),
        },
{
    let text = chars_of(input);
    let (commands, stop) = lines_in(&text, 0);
    assert(line_views(commands@).len() == commands@.len());
    if stop < text.len() {
        return Err(Error::Syntax { line: commands.len() });
    }
    let mut lines = match translate_lines(commands.as_slice(), static_prefix) {
        Ok(lines) => lines,
        Err(e) => return Err(e),
    };
    let ghost before = views(out@);
    let ghost added = views(lines@);
    out.append(&mut lines);
    assert(views(out@) =~= before + added);
    Ok(())
}

/// Translates one file: the text of its assembly. `static_prefix` is the
/// file's name without the extension.
pub fn translate_str(input: &str, static_prefix: &str) -> (r: Result<String, Error>)
    ensures
        match translate_str_spec(input@, static_prefix@) {
            Ok(lines) => r matches Ok(text) && text@ == render_spec(lines),
            Err(e) => r == Err::<String, Error>(e),
        },
{
    let mut out: Vec<Line> = vec![];
    assert(views(out@) =~= Seq::<LineView>::empty());
    match translate_into(&mut out, input, static_prefix) {
        Ok(()) => {
            proof {
                let lines = translate_str_spec(input@, static_prefix@)->Ok_0;
                assert(Seq::<LineView>::empty() + lines =~= lines);
            }
            Ok(render(&out))
        },
        Err(e) => Err(e),
    }
}

/// Translates the files of a program, in the order given: the text of its
/// assembly, which begins with the start of the program.
pub fn translate_program(units: &[Unit]) -> (r: Result<String, Error>)
    ensures
        match program_spec(units@) {
            Ok(lines) => r matches Ok(text) && text@ == render_spec(lines),
            Err(e) => r == Err::<String, Error>(e),
        },
{
    let mut out = boot_code();
    let ghost all = units_from(units@, 0);
    let mut i: usize = 0;
    assert(boot_lines() + Seq::<LineView>::empty() =~= boot_lines());
    while i < units.len()
        invariant
            i <= units.len(),
            all == units_from(units@, 0),
            match units_from(units@, i as int) {
                Ok(rest) => all == Ok::<Seq<LineView>, Error>(
                    views(out@).skip(boot_lines().len() as int) + rest,
                ),
                Err(e) => all == Err::<Seq<LineView>, Error>(e),
            },
            views(out@).take(boot_lines().len() as int) == boot_lines(),
            views(out@).len() >= boot_lines().len(),
        decreases units.len() - i,
    {
        let ghost done = views(out@);
        match translate_into(&mut out, units[i].source.as_str(), units[i].name.as_str()) {
            Ok(()) => {
                proof {
                    let first = translate_str_spec(units@[i as int].source@, units@[i as int].name@)->Ok_0;
                    let n = boot_lines().len() as int;
                    assert(views(out@).take(n) =~= done.take(n));
                    assert(views(out@).skip(n) =~= done.skip(n) + first);
                    if let Ok(rest) = units_from(units@, i + 1) {
                        assert(done.skip(n) + (first + rest) =~= (done.skip(n) + first) + rest);
                    }
                }
            },
            Err(e) => {
                return Err(e);
            },
        }
        i += 1;
    }
    proof {
        let n = boot_lines().len() as int;
        assert(views(out@) =~= views(out@).take(n) + views(out@).skip(n));
        assert(views(out@).skip(n) + Seq::<LineView>::empty() =~= views(out@).skip(n));
    }
    Ok(render(&out))
}

} // verus!
