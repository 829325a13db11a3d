//! The compiler from the syntax tree of a Jack class to stack-machine
//! commands. It knows classes of functions whose statements are calls
//! without arguments.

pub mod error;
pub mod tree;
pub mod walker;
pub mod writer;

use crate::compiler::error::{CompileError, CompileErrorView};
use crate::compiler::tree::{NodeView, Tree};
use crate::compiler::walker::{
    command_views, compile_spec, counts, down, last_sibling, members_from, next, seek,
    statements_from, up, Compiler,
};
use crate::compiler::writer::{command_text, command_to_str, is_written};
use crate::vm::parser::{Command, CommandView};
use vstd::prelude::*;
use vstd::string::StringExecFns;

verus! {

/// The text of `commands` for the class `class_name`: each command on a
/// line of its own.
pub open spec fn commands_text(commands: Seq<CommandView>, class_name: Seq<char>) -> Seq<char>
    decreases commands.len(),
{
    if commands.len() == 0 {
        Seq::empty()
    } else {
        commands_text(commands.drop_last(), class_name) + command_text(
            commands.last(),
            class_name,
        ) + "\n"@
    }
}

/// The text of the commands of the class in `nodes`, or the error of the
/// compiler.
pub open spec fn compile_class_spec(nodes: Seq<NodeView>, class_name: Seq<char>) -> Result<
    Seq<char>,
    CompileErrorView,
> {
    match compile_spec(nodes) {
        Ok(commands) => Ok(commands_text(commands, class_name)),
        Err(e) => Err(e),
    }
}

/// Whether the writer knows every command of `commands`.
pub open spec fn all_written(commands: Seq<CommandView>) -> bool {
    forall|i: int| 0 <= i < commands.len() ==> is_written(#[trigger] commands[i])
}

/// The statements of a body give commands that the writer knows.
proof fn lemma_statements_written(nodes: Seq<NodeView>, at: int)
    requires
        statements_from(nodes, at) is Ok,
    ensures
        all_written(statements_from(nodes, at)->Ok_0.0),
    decreases nodes.len() - at,
{
    if 0 <= at < nodes.len() {
        if let Some(sibling) = next(nodes, at) {
            lemma_statements_written(nodes, sibling);
        }
    }
}

/// The members of a class give commands that the writer knows.
proof fn lemma_members_written(nodes: Seq<NodeView>, at: int)
    requires
        members_from(nodes, at) is Ok,
    ensures
        all_written(members_from(nodes, at)->Ok_0.0),
    decreases nodes.len() - at,
{
    if 0 <= at < nodes.len() {
        if counts(nodes[at]) {
            let list = seek(
                nodes,
                seek(
                    nodes,
                    down(nodes, at),
                    "identifier"@,
                )->0,
                "parameter_list"@,
            )->0;
            let first = down(nodes, list);
            let body = seek(
                nodes,
                up(
                    nodes,
                    last_sibling(nodes, first),
                ),
                "subroutine_body"@,
            )->0;
            let statements = seek(
                nodes,
                down(nodes, body),
                "statements"@,
            )->0;
            lemma_statements_written(nodes, statements);
        }
        if let Some(sibling) = next(nodes, at) {
            lemma_members_written(nodes, sibling);
        }
    }
}

/// The compiler makes only commands that the writer knows.
pub proof fn lemma_compiled_commands_are_written(nodes: Seq<NodeView>)
    requires
        compile_spec(nodes) is Ok,
    ensures
        all_written(compile_spec(nodes)->Ok_0),
{
    let body = seek(
        nodes,
        down(nodes, 0),
        "class_body"@,
    )->0;
    lemma_members_written(nodes, down(nodes, body));
}

/// The text of `commands` for the class `class_name`: each command on a
/// line of its own.
pub fn write_commands(commands: &[Command], class_name: &str) -> (text: String)
    requires
        all_written(command_views(commands@)),
    ensures
        text@ == commands_text(command_views(commands@), class_name@),
{
    let mut out = String::new();
    let mut i: usize = 0;
    while i < commands.len()
        invariant
            i <= commands.len(),
            all_written(command_views(commands@)),
            out@ == commands_text(command_views(commands@).take(i as int), class_name@),
        decreases commands.len() - i,
    {
        assert(command_views(commands@)[i as int] == commands@[i as int]@);
        let line = command_to_str(&commands[i], class_name);
        out.append(line.as_str());
        out.append("\n");
        proof {
            let all = command_views(commands@);
            assert(all.take(i + 1).drop_last() =~= all.take(i as int));
            assert(all.take(i + 1).last() == all[i as int]);
        }
        i += 1;
    }
    assert(command_views(commands@).take(commands.len() as int) =~= command_views(commands@));
    out
}

/// Compiles the class in `tree`: the text of its commands, each on a line of
/// its own, with the functions named after the class `class_name`.
pub fn compile_class(tree: &Tree, class_name: &str) -> (r: Result<String, CompileError>)
    ensures
        match compile_class_spec(tree@, class_name@) {
            Ok(text) => r matches Ok(found) && found@ == text,
            Err(e) => r matches Err(found) && found@ == e,
        },
{
    let mut compiler = Compiler::new(tree);
    proof {
        if compile_spec(tree@) is Ok {
            lemma_compiled_commands_are_written(tree@);
            assert(Seq::<CommandView>::empty() + compile_spec(tree@)->Ok_0 =~= compile_spec(
                tree@,
            )->Ok_0);
        }
    }
    match compiler.compile() {
        Ok(commands) => Ok(write_commands(commands, class_name)),
        Err(e) => Err(e),
    }
}

} // verus!
