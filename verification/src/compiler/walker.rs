//! The walk over the syntax tree. A cursor moves from node to node: down to
//! the first child, on to the next sibling, up to the parent. A move that
//! cannot be made leaves the cursor where it is.

use crate::compiler::error::{CompileError, CompileErrorView};
use crate::compiler::tree::{linked, linked_at, Node, NodeView, Tree};
use crate::text::{all_digits, chars_of, decimal_value, is_digit, parse_u16, CharClass};
use crate::vm::parser::{Command, CommandView, Segment};
use vstd::prelude::*;
use vstd::string::StringExecFns;

verus! {

/// The place of the cursor after a move down from `at`.
pub open spec fn down(nodes: Seq<NodeView>, at: int) -> int {
    match nodes[at].first_child {
        Some(child) => child as int,
        None => at,
    }
}

/// The place of the cursor after a move up from `at`.
pub open spec fn up(nodes: Seq<NodeView>, at: int) -> int {
    match nodes[at].parent {
        Some(parent) => parent as int,
        None => at,
    }
}

/// The place of the sibling behind `at`, if a link leads on to one.
pub open spec fn next(nodes: Seq<NodeView>, at: int) -> Option<int> {
    match nodes[at].next_sibling {
        Some(sibling) => if at < sibling < nodes.len() {
            Some(sibling as int)
        } else {
            None
        },
        None => None,
    }
}

/// The first node of the kind `kind` among the node at `at` and the
/// siblings behind it.
pub open spec fn seek(nodes: Seq<NodeView>, at: int, kind: Seq<char>) -> Option<int>
    decreases nodes.len() - at,
{
    if at < 0 || at >= nodes.len() {
        None
    } else if nodes[at].kind == kind {
        Some(at)
    } else {
        match next(nodes, at) {
            Some(sibling) => seek(nodes, sibling, kind),
            None => None,
        }
    }
}

/// The last of the siblings from `at` on.
pub open spec fn last_sibling(nodes: Seq<NodeView>, at: int) -> int
    decreases nodes.len() - at,
{
    if at < 0 || at >= nodes.len() {
        at
    } else {
        match next(nodes, at) {
            Some(sibling) => last_sibling(nodes, sibling),
            None => at,
        }
    }
}

/// How many of the node at `at` and the siblings behind it are parameters.
pub open spec fn count_parameters(nodes: Seq<NodeView>, at: int) -> nat
    decreases nodes.len() - at,
{
    if at < 0 || at >= nodes.len() {
        0
    } else {
        (if nodes[at].kind == "parameter"@ {
            1nat
        } else {
            0nat
        }) + match next(nodes, at) {
            Some(sibling) => count_parameters(nodes, sibling),
            None => 0,
        }
    }
}

/// The number that the text of an integer constant writes: digits, with or
/// without a `+` before them, that write at most 65535.
pub open spec fn integer_of(text: Seq<char>) -> Option<u16> {
    let digits = if text.len() > 0 && text[0] == '+' {
        text.skip(1)
    } else {
        text
    };
    if digits.len() > 0 && all_digits(digits) && decimal_value(digits) <= u16::MAX {
        Some(decimal_value(digits) as u16)
    } else {
        None
    }
}

/// A node that counts: it stands for a rule of the grammar and is no extra.
pub open spec fn counts(node: NodeView) -> bool {
    node.named && !node.extra
}

/// The error of the expression at `at`. No expression is known: one whose
/// first term is an integer constant fails as an expression, any other at
/// its first term.
pub open spec fn expression_error(nodes: Seq<NodeView>, at: int) -> CompileErrorView {
    let term = nodes[down(nodes, down(nodes, at))];
    if term.kind == "integer_constant"@ {
        match integer_of(term.text) {
            Some(_) => CompileErrorView::UnsupportedExpression,
            None => CompileErrorView::InvalidNumber(term.text),
        }
    } else {
        CompileErrorView::UnsupportedTerm(term.kind)
    }
}

/// The error of the first argument among the node at `at` and the siblings
/// behind it, if there is an argument.
pub open spec fn argument_error(nodes: Seq<NodeView>, at: int) -> Option<CompileErrorView>
    decreases nodes.len() - at,
{
    if at < 0 || at >= nodes.len() {
        None
    } else if counts(nodes[at]) {
        Some(expression_error(nodes, at))
    } else {
        match next(nodes, at) {
            Some(sibling) => argument_error(nodes, sibling),
            None => None,
        }
    }
}

/// The command of the call at `at`, and the place of the cursor behind it.
/// The callee is the text of the first child; the call is written with one
/// argument.
pub open spec fn call_at(nodes: Seq<NodeView>, at: int) -> Result<
    (CommandView, int),
    CompileErrorView,
> {
    let callee = down(nodes, at);
    match seek(nodes, callee, "expression_list"@) {
        None => Err(CompileErrorView::Expected("expression_list"@)),
        Some(list) => match argument_error(nodes, down(nodes, list)) {
            Some(e) => Err(e),
            None => Ok(
                (
                    CommandView::Call(nodes[callee].text, 1),
                    up(nodes, up(nodes, last_sibling(nodes, down(nodes, list)))),
                ),
            ),
        },
    }
}

/// The command of the `do` statement at `at`, and the place of the cursor
/// behind it.
pub open spec fn do_at(nodes: Seq<NodeView>, at: int) -> Result<
    (CommandView, int),
    CompileErrorView,
> {
    match seek(nodes, down(nodes, at), "subroutine_call"@) {
        None => Err(CompileErrorView::Expected("subroutine_call"@)),
        Some(call) => match call_at(nodes, call) {
            Err(e) => Err(e),
            Ok((command, exit)) => Ok((command, up(nodes, exit))),
        },
    }
}

/// The command of the statement in the node at `at`, and the place of the
/// cursor behind it. The statement is the first child, and must be a `do`.
pub open spec fn statement_at(nodes: Seq<NodeView>, at: int) -> Result<
    (CommandView, int),
    CompileErrorView,
> {
    let statement = down(nodes, at);
    if nodes[statement].kind == "do_statement"@ {
        match do_at(nodes, statement) {
            Err(e) => Err(e),
            Ok((command, exit)) => Ok((command, up(nodes, exit))),
        }
    } else {
        Err(CompileErrorView::UnsupportedStatement(nodes[statement].kind))
    }
}

/// The commands of the node at `at` and the siblings behind it, each read
/// as a statement where it counts, and the last of the siblings. A
/// statement that does not leave the cursor where it was shows a malformed
/// tree.
pub open spec fn statements_from(nodes: Seq<NodeView>, at: int) -> Result<
    (Seq<CommandView>, int),
    CompileErrorView,
>
    decreases nodes.len() - at,
{
    if at < 0 || at >= nodes.len() {
        Err(CompileErrorView::Malformed)
    } else {
        let here = if counts(nodes[at]) {
            match statement_at(nodes, at) {
                Err(e) => Err(e),
                Ok((command, exit)) => if exit == at {
                    Ok(seq![command])
                } else {
                    Err(CompileErrorView::Malformed)
                },
            }
        } else {
            Ok(Seq::empty())
        };
        match here {
            Err(e) => Err(e),
            Ok(first) => match next(nodes, at) {
                None => Ok((first, at)),
                Some(sibling) => match statements_from(nodes, sibling) {
                    Err(e) => Err(e),
                    Ok((rest, last)) => Ok((first + rest, last)),
                },
            },
        }
    }
}

/// The commands of the body at `at`, and the place of the cursor behind
/// it.
pub open spec fn body_at(nodes: Seq<NodeView>, at: int) -> Result<
    (Seq<CommandView>, int),
    CompileErrorView,
> {
    match seek(nodes, down(nodes, at), "statements"@) {
        None => Err(CompileErrorView::Expected("statements"@)),
        Some(statements) => match statements_from(nodes, statements) {
            Err(e) => Err(e),
            Ok((commands, last)) => Ok((commands, up(nodes, last))),
        },
    }
}

/// The commands of the function at `at`, and the place of the cursor behind
/// it: `function` with the name and the number of parameters, then the
/// body.
pub open spec fn function_at(nodes: Seq<NodeView>, at: int) -> Result<
    (Seq<CommandView>, int),
    CompileErrorView,
> {
    match seek(nodes, down(nodes, at), "identifier"@) {
        None => Err(CompileErrorView::Expected("identifier"@)),
        Some(name) => match seek(nodes, name, "parameter_list"@) {
            None => Err(CompileErrorView::Expected("parameter_list"@)),
            Some(list) => {
                let first = down(nodes, list);
                let count = count_parameters(nodes, first);
                if count > u16::MAX {
                    Err(CompileErrorView::TooManyParameters)
                } else {
                    match seek(
                        nodes,
                        up(nodes, last_sibling(nodes, first)),
                        "subroutine_body"@,
                    ) {
                        None => Err(CompileErrorView::Expected("subroutine_body"@)),
                        Some(body) => match body_at(nodes, body) {
                            Err(e) => Err(e),
                            Ok((commands, exit)) => Ok(
                                (
                                    seq![CommandView::Function(nodes[name].text, count as u16)]
                                        + commands,
                                    up(nodes, exit),
                                ),
                            ),
                        },
                    }
                }
            },
        },
    }
}

/// The commands of the class member at `at`, which must be a function, and
/// the place of the cursor behind it.
pub open spec fn member_at(nodes: Seq<NodeView>, at: int) -> Result<
    (Seq<CommandView>, int),
    CompileErrorView,
> {
    if nodes[at].kind == "function_declaration"@ {
        function_at(nodes, at)
    } else {
        Err(CompileErrorView::UnsupportedMember(nodes[at].kind))
    }
}

/// The commands of the node at `at` and the siblings behind it, each read
/// as a class member where it counts, and the last of the siblings. A
/// member that does not leave the cursor where it was shows a malformed
/// tree.
pub open spec fn members_from(nodes: Seq<NodeView>, at: int) -> Result<
    (Seq<CommandView>, int),
    CompileErrorView,
>
    decreases nodes.len() - at,
{
    if at < 0 || at >= nodes.len() {
        Err(CompileErrorView::Malformed)
    } else {
        let here = if counts(nodes[at]) {
            match member_at(nodes, at) {
                Err(e) => Err(e),
                Ok((commands, exit)) => if exit == at {
                    Ok(commands)
                } else {
                    Err(CompileErrorView::Malformed)
                },
            }
        } else {
            Ok(Seq::empty())
        };
        match here {
            Err(e) => Err(e),
            Ok(first) => match next(nodes, at) {
                None => Ok((first, at)),
                Some(sibling) => match members_from(nodes, sibling) {
                    Err(e) => Err(e),
                    Ok((rest, last)) => Ok((first + rest, last)),
                },
            },
        }
    }
}

/// The commands of the class at `at`, and the place of the cursor behind
/// it.
pub open spec fn class_at(nodes: Seq<NodeView>, at: int) -> Result<
    (Seq<CommandView>, int),
    CompileErrorView,
> {
    match seek(nodes, down(nodes, at), "class_body"@) {
        None => Err(CompileErrorView::Expected("class_body"@)),
        Some(body) => match members_from(nodes, down(nodes, body)) {
            Err(e) => Err(e),
            Ok((commands, last)) => Ok((commands, up(nodes, up(nodes, last)))),
        },
    }
}

/// The commands of the tree with the cursor at `at`, and the place of the
/// cursor behind them. The node at the cursor must be a class.
pub open spec fn compile_at(nodes: Seq<NodeView>, at: int) -> Result<
    (Seq<CommandView>, int),
    CompileErrorView,
> {
    if !linked(nodes) || at < 0 || at >= nodes.len() {
        Err(CompileErrorView::Malformed)
    } else if nodes[at].kind == "class_declaration"@ {
        class_at(nodes, at)
    } else {
        Err(CompileErrorView::UnsupportedTopLevel(nodes[at].kind))
    }
}

/// The commands of a tree, read from its root.
pub open spec fn compile_spec(nodes: Seq<NodeView>) -> Result<Seq<CommandView>, CompileErrorView> {
    match compile_at(nodes, 0) {
        Ok((commands, _)) => Ok(commands),
        Err(e) => Err(e),
    }
}

/// The models of the commands in `commands`, in order.
pub open spec fn command_views(commands: Seq<Command>) -> Seq<CommandView> {
    commands.map_values(|command: Command| command@)
}

/// In a linked tree every move of the cursor stays inside the tree.
pub proof fn lemma_moves_stay(nodes: Seq<NodeView>, at: int)
    requires
        linked(nodes),
        0 <= at < nodes.len(),
    ensures
        0 <= down(nodes, at) < nodes.len(),
        0 <= up(nodes, at) < nodes.len(),
        next(nodes, at) matches Some(sibling) ==> at < sibling < nodes.len(),
        next(nodes, at) is Some <==> nodes[at].next_sibling is Some,
{
    assert(linked_at(nodes, at));
}

/// In a linked tree a search along the siblings stays inside the tree.
pub proof fn lemma_seek_stays(nodes: Seq<NodeView>, at: int, kind: Seq<char>)
    requires
        linked(nodes),
        0 <= at < nodes.len(),
    ensures
        seek(nodes, at, kind) matches Some(found) ==> at <= found < nodes.len(),
        at <= last_sibling(nodes, at) < nodes.len(),
    decreases nodes.len() - at,
{
    lemma_moves_stay(nodes, at);
    if let Some(sibling) = next(nodes, at) {
        lemma_seek_stays(nodes, sibling, kind);
    }
}

/// Whether the text of `a` is `b`.
fn same_text(a: &String, b: &str) -> (same: bool)
    ensures
        same == (a@ == b@),
{
    let other = String::from_str(b);
    *a == other
}

/// The number that the text of an integer constant writes.
#[verifier::loop_isolation(false)]
pub fn parse_integer(text: &str) -> (r: Option<u16>)
    ensures
        r == integer_of(text@),
{
    let chars = chars_of(text);
    let start: usize = if chars.len() > 0 && chars[0] == '+' {
        1
    } else {
        0
    };
    let ghost digits = chars@.subrange(start as int, chars.len() as int);
    assert(digits =~= if text@.len() > 0 && text@[0] == '+' {
        text@.skip(1)
    } else {
        text@
    });
    if start == chars.len() {
        return None;
    }
    let mut i: usize = start;
    while i < chars.len()
        invariant
            start <= i <= chars.len(),
            digits == chars@.subrange(start as int, chars.len() as int),
            forall|j: int| 0 <= j < i - start ==> is_digit(#[trigger] digits[j]),
        decreases chars.len() - i,
    {
        if !CharClass::Digit.contains(chars[i]) {
            assert(!is_digit(digits[i - start]));
            assert(!all_digits(digits));
            return None;
        }
        i += 1;
    }
    parse_u16(&chars, start, chars.len())
}

/// A compiler over one syntax tree. It holds the cursor and the commands
/// made so far.
pub struct Compiler<'c> {
    tree: &'c Tree,
    current: usize,
    commands: Vec<Command>,
}

impl<'c> Compiler<'c> {
    /// The models of the nodes of the compiler's tree.
    pub closed spec fn nodes(&self) -> Seq<NodeView> {
        self.tree@
    }

    /// The place of the cursor.
    pub closed spec fn position(&self) -> int {
        self.current as int
    }

    /// The commands made so far.
    pub closed spec fn written(&self) -> Seq<CommandView> {
        command_views(self.commands@)
    }

    /// The tree is linked and the cursor is inside it.
    pub open spec fn wf(&self) -> bool {
        linked(self.nodes()) && 0 <= self.position() < self.nodes().len()
    }

    /// A compiler with the cursor at the root of `tree`.
    pub fn new(tree: &'c Tree) -> (compiler: Self)
        ensures
            compiler.nodes() == tree@,
            compiler.position() == 0,
            compiler.written() == Seq::<CommandView>::empty(),
    {
        let compiler = Self { tree, current: 0, commands: vec![] };
        assert(command_views(compiler.commands@) =~= Seq::<CommandView>::empty());
        compiler
    }

    /// Compiles the class at the cursor: the commands made so far and
    /// those of the class.
    pub fn compile(&mut self) -> (r: Result<&[Command], CompileError>)
        ensures
            final(self).nodes() == old(self).nodes(),
            match compile_at(old(self).nodes(), old(self).position()) {
                Ok((commands, exit)) => {
                    &&& r matches Ok(found) && command_views(found@) == old(self).written()
                        + commands
                    &&& final(self).written() == old(self).written() + commands
                    &&& final(self).position() == exit
                },
                Err(e) => r matches Err(found) && found@ == e,
            },
    {
        if !self.tree.is_linked() || self.current >= self.tree.nodes.len() {
            return Err(CompileError::Malformed);
        }
        let node = self.node();
        if same_text(&node.kind, "class_declaration") {
            match self.class_declaration() {
                Ok(()) => Ok(self.commands.as_slice()),
                Err(e) => Err(e),
            }
        } else {
            Err(CompileError::UnsupportedTopLevel(node.kind.clone()))
        }
    }

    #[verifier::loop_isolation(false)]
    fn class_declaration(&mut self) -> (r: Result<(), CompileError>)
        requires
            old(self).wf(),
        ensures
            final(self).wf(),
            final(self).nodes() == old(self).nodes(),
            match class_at(old(self).nodes(), old(self).position()) {
                Ok((commands, exit)) => {
                    &&& r is Ok
                    &&& final(self).written() == old(self).written() + commands
                    &&& final(self).position() == exit
                },
                Err(e) => r matches Err(found) && found@ == e,
            },
    {
        self.goto_first_child();
        match self.advance_to("class_body") {
            Ok(()) => {},
            Err(e) => return Err(e),
        }
        self.goto_first_child();
        let ghost start = self.position();
        let ghost all = members_from(self.nodes(), start);
        assert(old(self).written() + Seq::<CommandView>::empty() =~= old(self).written());
        let ghost mut done: Seq<CommandView> = Seq::empty();
        let mut more = true;
        while more
            invariant
                self.wf(),
                self.nodes() == old(self).nodes(),
                self.written() == old(self).written() + done,
                more ==> match members_from(self.nodes(), self.position()) {
                    Ok((rest, last)) => all == Ok::<(Seq<CommandView>, int), CompileErrorView>(
                        (done + rest, last),
                    ),
                    Err(e) => all == Err::<(Seq<CommandView>, int), CompileErrorView>(e),
                },
                !more ==> all == Ok::<(Seq<CommandView>, int), CompileErrorView>(
                    (done, self.position()),
                ),
            decreases
                (self.nodes().len() - self.position()) + (if more {
                    1int
                } else {
                    0int
                }),
        {
            let node = self.node();
            let ghost at = self.position();
            let ghost before = done;
            proof {
                lemma_moves_stay(self.nodes(), at);
            }
            if node.named && !node.extra {
                let entry = self.current;
                match self.class_member() {
                    Ok(()) => {},
                    Err(e) => return Err(e),
                }
                if self.current != entry {
                    return Err(CompileError::Malformed);
                }
                proof {
                    let made = member_at(self.nodes(), at)->Ok_0.0;
                    done = before + made;
                    assert(self.written() =~= old(self).written() + done);
                }
            }
            proof {
                let first = done.skip(before.len() as int);
                assert(done =~= before + first);
                if counts(self.nodes()[at]) {
                    assert(first =~= member_at(self.nodes(), at)->Ok_0.0);
                } else {
                    assert(first =~= Seq::<CommandView>::empty());
                }
                if let Some(sibling) = next(self.nodes(), at) {
                    if let Ok((rest, last)) = members_from(self.nodes(), sibling) {
                        assert(before + (first + rest) =~= done + rest);
                    }
                } else {
                    assert(before + first =~= done);
                }
            }
            more = self.goto_next_sibling();
        }
        self.goto_parent();
        self.goto_parent();
        Ok(())
    }

    fn class_member(&mut self) -> (r: Result<(), CompileError>)
        requires
            old(self).wf(),
        ensures
            final(self).wf(),
            final(self).nodes() == old(self).nodes(),
            match member_at(old(self).nodes(), old(self).position()) {
                Ok((commands, exit)) => {
                    &&& r is Ok
                    &&& final(self).written() == old(self).written() + commands
                    &&& final(self).position() == exit
                },
                Err(e) => r matches Err(found) && found@ == e,
            },
    {
        let node = self.node();
        if same_text(&node.kind, "function_declaration") {
            self.function_declaration()
        } else {
            Err(CompileError::UnsupportedMember(node.kind.clone()))
        }
    }

    #[verifier::loop_isolation(false)]
    fn function_declaration(&mut self) -> (r: Result<(), CompileError>)
        requires
            old(self).wf(),
        ensures
            final(self).wf(),
            final(self).nodes() == old(self).nodes(),
            match function_at(old(self).nodes(), old(self).position()) {
                Ok((commands, exit)) => {
                    &&& r is Ok
                    &&& final(self).written() == old(self).written() + commands
                    &&& final(self).position() == exit
                },
                Err(e) => r matches Err(found) && found@ == e,
            },
    {
        self.goto_first_child();
        match self.advance_to("identifier") {
            Ok(()) => {},
            Err(e) => return Err(e),
        }
        let name = self.text();
        match self.advance_to("parameter_list") {
            Ok(()) => {},
            Err(e) => return Err(e),
        }
        self.goto_first_child();
        let ghost first = self.position();
        let total = self.tree.nodes.len();
        let mut param_count: usize = 0;
        let mut more = true;
        while more
            invariant
                self.wf(),
                self.nodes() == old(self).nodes(),
                self.written() == old(self).written(),
                last_sibling(self.nodes(), self.position()) == last_sibling(self.nodes(), first),
                more ==> param_count + count_parameters(self.nodes(), self.position())
                    == count_parameters(self.nodes(), first),
                more ==> param_count <= self.position(),
                !more ==> param_count == count_parameters(self.nodes(), first),
                !more ==> self.position() == last_sibling(self.nodes(), first),
            decreases
                (self.nodes().len() - self.position()) + (if more {
                    1int
                } else {
                    0int
                }),
        {
            proof {
                lemma_moves_stay(self.nodes(), self.position());
            }
            if same_text(&self.node().kind, "parameter") {
                assert(param_count < total);
                param_count += 1;
            }
            more = self.goto_next_sibling();
        }
        if param_count > 65535 {
            return Err(CompileError::TooManyParameters);
        }
        let ghost before = self.written();
        self.add(Command::Function(name, param_count as u16));
        self.goto_parent();
        match self.advance_to("subroutine_body") {
            Ok(()) => {},
            Err(e) => return Err(e),
        }
        let ghost middle = self.written();
        match self.subroutine_body() {
            Ok(()) => {},
            Err(e) => return Err(e),
        }
        self.goto_parent();
        proof {
            let commands = function_at(old(self).nodes(), old(self).position())->Ok_0.0;
            assert(self.written() =~= old(self).written() + commands);
        }
        Ok(())
    }

    #[verifier::loop_isolation(false)]
    fn subroutine_body(&mut self) -> (r: Result<(), CompileError>)
        requires
            old(self).wf(),
        ensures
            final(self).wf(),
            final(self).nodes() == old(self).nodes(),
            match body_at(old(self).nodes(), old(self).position()) {
                Ok((commands, exit)) => {
                    &&& r is Ok
                    &&& final(self).written() == old(self).written() + commands
                    &&& final(self).position() == exit
                },
                Err(e) => r matches Err(found) && found@ == e,
            },
    {
        self.goto_first_child();
        match self.advance_to("statements") {
            Ok(()) => {},
            Err(e) => return Err(e),
        }
        let ghost start = self.position();
        let ghost all = statements_from(self.nodes(), start);
        assert(old(self).written() + Seq::<CommandView>::empty() =~= old(self).written());
        let ghost mut done: Seq<CommandView> = Seq::empty();
        let mut more = true;
        while more
            invariant
                self.wf(),
                self.nodes() == old(self).nodes(),
                self.written() == old(self).written() + done,
                more ==> match statements_from(self.nodes(), self.position()) {
                    Ok((rest, last)) => all == Ok::<(Seq<CommandView>, int), CompileErrorView>(
                        (done + rest, last),
                    ),
                    Err(e) => all == Err::<(Seq<CommandView>, int), CompileErrorView>(e),
                },
                !more ==> all == Ok::<(Seq<CommandView>, int), CompileErrorView>(
                    (done, self.position()),
                ),
            decreases
                (self.nodes().len() - self.position()) + (if more {
                    1int
                } else {
                    0int
                }),
        {
            let node = self.node();
            let ghost at = self.position();
            let ghost before = done;
            proof {
                lemma_moves_stay(self.nodes(), at);
            }
            if node.named && !node.extra {
                let entry = self.current;
                match self.statement() {
                    Ok(()) => {},
                    Err(e) => return Err(e),
                }
                if self.current != entry {
                    return Err(CompileError::Malformed);
                }
                proof {
                    let made = statement_at(self.nodes(), at)->Ok_0.0;
                    done = before.push(made);
                    assert(self.written() =~= old(self).written() + done);
                }
            }
            proof {
                let first = done.skip(before.len() as int);
                assert(done =~= before + first);
                if counts(self.nodes()[at]) {
                    assert(first =~= seq![statement_at(self.nodes(), at)->Ok_0.0]);
                } else {
                    assert(first =~= Seq::<CommandView>::empty());
                }
                if let Some(sibling) = next(self.nodes(), at) {
                    if let Ok((rest, last)) = statements_from(self.nodes(), sibling) {
                        assert(before + (first + rest) =~= done + rest);
                    }
                } else {
                    assert(before + first =~= done);
                }
            }
            more = self.goto_next_sibling();
        }
        self.goto_parent();
        Ok(())
    }

    fn statement(&mut self) -> (r: Result<(), CompileError>)
        requires
            old(self).wf(),
        ensures
            final(self).wf(),
            final(self).nodes() == old(self).nodes(),
            match statement_at(old(self).nodes(), old(self).position()) {
                Ok((command, exit)) => {
                    &&& r is Ok
                    &&& final(self).written() == old(self).written().push(command)
                    &&& final(self).position() == exit
                },
                Err(e) => r matches Err(found) && found@ == e,
            },
    {
        self.goto_first_child();
        let node = self.node();
        let result = if same_text(&node.kind, "do_statement") {
            self.do_statement()
        } else {
            Err(CompileError::UnsupportedStatement(node.kind.clone()))
        };
        self.goto_parent();
        result
    }

    fn do_statement(&mut self) -> (r: Result<(), CompileError>)
        requires
            old(self).wf(),
        ensures
            final(self).wf(),
            final(self).nodes() == old(self).nodes(),
            match do_at(old(self).nodes(), old(self).position()) {
                Ok((command, exit)) => {
                    &&& r is Ok
                    &&& final(self).written() == old(self).written().push(command)
                    &&& final(self).position() == exit
                },
                Err(e) => r matches Err(found) && found@ == e,
            },
    {
        self.goto_first_child();
        match self.advance_to("subroutine_call") {
            Ok(()) => {},
            Err(e) => return Err(e),
        }
        match self.subroutine_call() {
            Ok(()) => {},
            Err(e) => return Err(e),
        }
        self.goto_parent();
        Ok(())
    }

    #[verifier::loop_isolation(false)]
    fn subroutine_call(&mut self) -> (r: Result<(), CompileError>)
        requires
            old(self).wf(),
        ensures
            final(self).wf(),
            final(self).nodes() == old(self).nodes(),
            match call_at(old(self).nodes(), old(self).position()) {
                Ok((command, exit)) => {
                    &&& r is Ok
                    &&& final(self).written() == old(self).written().push(command)
                    &&& final(self).position() == exit
                },
                Err(e) => r matches Err(found) && found@ == e,
            },
    {
        self.goto_first_child();
        let name = self.text();
        match self.advance_to("expression_list") {
            Ok(()) => {},
            Err(e) => return Err(e),
        }
        self.goto_first_child();
        let ghost first = self.position();
        let mut more = true;
        while more
            invariant
                self.wf(),
                self.nodes() == old(self).nodes(),
                self.written() == old(self).written(),
                last_sibling(self.nodes(), self.position()) == last_sibling(self.nodes(), first),
                more ==> argument_error(self.nodes(), self.position()) == argument_error(
                    self.nodes(),
                    first,
                ),
                !more ==> argument_error(self.nodes(), first) is None,
                !more ==> self.position() == last_sibling(self.nodes(), first),
            decreases
                (self.nodes().len() - self.position()) + (if more {
                    1int
                } else {
                    0int
                }),
        {
            let node = self.node();
            proof {
                lemma_moves_stay(self.nodes(), self.position());
            }
            if node.named && !node.extra {
                return Err(self.expression());
            }
            more = self.goto_next_sibling();
        }
        self.goto_parent();
        // Every call is written with one argument.
        let arg_count: u16 = 1;
        self.add(Command::Call(name, arg_count));
        self.goto_parent();
        Ok(())
    }

    /// Reads the expression at the cursor. No expression is known, so the
    /// result is the error that it gives.
    fn expression(&mut self) -> (e: CompileError)
        requires
            old(self).wf(),
        ensures
            final(self).wf(),
            final(self).nodes() == old(self).nodes(),
            e@ == expression_error(old(self).nodes(), old(self).position()),
    {
        self.goto_first_child();
        match self.term() {
            Ok(()) => {},
            Err(e) => return e,
        }
        self.goto_parent();
        CompileError::UnsupportedExpression
    }

    /// Reads the term at the cursor, which must hold an integer constant,
    /// and pushes the constant.
    fn term(&mut self) -> (r: Result<(), CompileError>)
        requires
            old(self).wf(),
        ensures
            final(self).wf(),
            final(self).nodes() == old(self).nodes(),
            ({
                let term = old(self).nodes()[down(old(self).nodes(), old(self).position())];
                if term.kind == "integer_constant"@ {
                    match integer_of(term.text) {
                        Some(n) => r is Ok && final(self).written() == old(self).written().push(
                            CommandView::Push(Segment::Constant, n),
                        ),
                        None => r matches Err(e) && e@ == CompileErrorView::InvalidNumber(
                            term.text,
                        ),
                    }
                } else {
                    r matches Err(e) && e@ == CompileErrorView::UnsupportedTerm(term.kind)
                }
            }),
    {
        self.goto_first_child();
        let node = self.node();
        if same_text(&node.kind, "integer_constant") {
            match parse_integer(node.text.as_str()) {
                Some(n) => self.add(Command::Push(Segment::Constant, n)),
                None => return Err(CompileError::InvalidNumber(node.text.clone())),
            }
        } else {
            return Err(CompileError::UnsupportedTerm(node.kind.clone()));
        }
        self.goto_parent();
        Ok(())
    }

    /// The node at the cursor.
    fn node(&self) -> (node: &'c Node)
        requires
            self.wf(),
        ensures
            node@ == self.nodes()[self.position()],
    {
        &self.tree.nodes[self.current]
    }

    /// The source text of the node at the cursor.
    fn text(&self) -> (text: String)
        requires
            self.wf(),
        ensures
            text@ == self.nodes()[self.position()].text,
    {
        self.tree.nodes[self.current].text.clone()
    }

    fn add(&mut self, command: Command)
        ensures
            final(self).tree == old(self).tree,
            final(self).current == old(self).current,
            final(self).written() == old(self).written().push(command@),
    {
        self.commands.push(command);
        assert(command_views(self.commands@) =~= command_views(old(self).commands@).push(command@));
    }

    /// Moves the cursor to the first node of the kind `kind` among the
    /// node at the cursor and the siblings behind it.
    #[verifier::loop_isolation(false)]
    fn advance_to(&mut self, kind: &str) -> (r: Result<(), CompileError>)
        requires
            old(self).wf(),
        ensures
            final(self).wf(),
            final(self).nodes() == old(self).nodes(),
            final(self).written() == old(self).written(),
            match seek(old(self).nodes(), old(self).position(), kind@) {
                Some(found) => r is Ok && final(self).position() == found,
                None => r matches Err(e) && e@ == CompileErrorView::Expected(kind@),
            },
    {
        loop
            invariant
                self.wf(),
                self.nodes() == old(self).nodes(),
                self.written() == old(self).written(),
                seek(self.nodes(), self.position(), kind@) == seek(
                    old(self).nodes(),
                    old(self).position(),
                    kind@,
                ),
            decreases self.nodes().len() - self.position(),
        {
            proof {
                lemma_moves_stay(self.nodes(), self.position());
            }
            if same_text(&self.node().kind, kind) {
                return Ok(());
            }
            if !self.goto_next_sibling() {
                return Err(CompileError::Expected(String::from_str(kind)));
            }
        }
    }

    fn goto_first_child(&mut self) -> (moved: bool)
        requires
            old(self).wf(),
        ensures
            final(self).wf(),
            final(self).nodes() == old(self).nodes(),
            final(self).written() == old(self).written(),
            final(self).position() == down(old(self).nodes(), old(self).position()),
            moved == old(self).nodes()[old(self).position()].first_child is Some,
    {
        proof {
            lemma_moves_stay(self.nodes(), self.position());
        }
        match self.node().first_child {
            Some(child) => {
                self.current = child;
                true
            },
            None => false,
        }
    }

    fn goto_next_sibling(&mut self) -> (moved: bool)
        requires
            old(self).wf(),
        ensures
            final(self).wf(),
            final(self).nodes() == old(self).nodes(),
            final(self).written() == old(self).written(),
            match next(old(self).nodes(), old(self).position()) {
                Some(sibling) => moved && final(self).position() == sibling,
                None => !moved && final(self).position() == old(self).position(),
            },
    {
        proof {
            lemma_moves_stay(self.nodes(), self.position());
        }
        match self.node().next_sibling {
            Some(sibling) => {
                self.current = sibling;
                true
            },
            None => false,
        }
    }

    fn goto_parent(&mut self) -> (moved: bool)
        requires
            old(self).wf(),
        ensures
            final(self).wf(),
            final(self).nodes() == old(self).nodes(),
            final(self).written() == old(self).written(),
            final(self).position() == up(old(self).nodes(), old(self).position()),
            moved == old(self).nodes()[old(self).position()].parent is Some,
    {
        proof {
            lemma_moves_stay(self.nodes(), self.position());
        }
        match self.node().parent {
            Some(parent) => {
                self.current = parent;
                true
            },
            None => false,
        }
    }
}

} // verus!
