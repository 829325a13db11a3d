//! What holds of every translation: the labels that the translator makes
//! are its own.

use crate::text::{decimal, is_digit, lemma_decimal_digits, lemma_decimal_injective};
use crate::vm::code::{
    boot_lines, call_frame_lines, call_lines, command_lines, cond_label, counters_after,
    enter_lines,
    jump_back_lines, label_lines, place_result_lines, push_d_lines, push_symbol_lines,
    push_zero_lines, push_zeros_lines, reposition_sp_lines, restore_arg_lines, restore_lcl_lines,
    restore_that_lines, restore_this_lines, return_label, return_lines, save_frame_lines,
    save_return_address_lines, take_two_lines, translate_from, translate_spec, Counters,
};
use crate::vm::lines::LineView;
use crate::vm::parser::{lines_from, CommandView};
use crate::vm::{program_spec, translate_str_spec, units_from, Unit};
use vstd::prelude::*;

verus! {

/// A name made of a head, a prefix, `_` and a number.
pub open spec fn numbered(head: Seq<char>, prefix: Seq<char>, n: nat) -> Seq<char> {
    head + prefix + "_"@ + decimal(n)
}

/// Two numbered names with one head are the same name only where the
/// prefixes are the same and the numbers are the same.
pub proof fn lemma_numbered_injective(
    head: Seq<char>,
    prefix: Seq<char>,
    n: nat,
    other_prefix: Seq<char>,
    m: nat,
)
    requires
        numbered(head, prefix, n) == numbered(head, other_prefix, m),
    ensures
        prefix == other_prefix,
        n == m,
{
    reveal_strlit("_");
    let a = numbered(head, prefix, n);
    let b = numbered(head, other_prefix, m);
    let d = decimal(n);
    let e = decimal(m);
    lemma_decimal_digits(n);
    lemma_decimal_digits(m);
    let len = a.len() as int;
    assert(len == head.len() + prefix.len() + 1 + d.len());
    assert(len == head.len() + other_prefix.len() + 1 + e.len());
    // The last `_` of the name stands right before the number.
    assert(a[len - d.len() - 1] == '_');
    assert(b[len - e.len() - 1] == '_');
    if d.len() < e.len() {
        let q = len - d.len() - 1;
        assert(b[q] == e[q - (len - e.len())]);
        assert(is_digit(e[q - (len - e.len())]));
        assert(false);
    }
    if e.len() < d.len() {
        let q = len - e.len() - 1;
        assert(a[q] == d[q - (len - d.len())]);
        assert(is_digit(d[q - (len - d.len())]));
        assert(false);
    }
    assert(d =~= e) by {
        assert forall|i: int| 0 <= i < d.len() implies d[i] == e[i] by {
            assert(a[len - d.len() + i] == d[i]);
            assert(b[len - e.len() + i] == e[i]);
        }
    }
    lemma_decimal_injective(n, m);
    assert(prefix =~= other_prefix) by {
        assert forall|i: int| 0 <= i < prefix.len() implies prefix[i] == other_prefix[i] by {
            assert(a[head.len() + i] == prefix[i]);
            assert(b[head.len() + i] == other_prefix[i]);
        }
    }
}

/// The labels that the translator makes tell their origin: two of them are
/// the same only where both are for comparisons or both for calls, the
/// prefixes of the two files are the same, and the numbers are the same.
/// So the labels of two files never collide if the prefixes differ, and
/// always do if they are the same.
pub proof fn lemma_made_labels_differ(prefix: Seq<char>, n: nat, other_prefix: Seq<char>, m: nat)
    ensures
        cond_label(prefix, n) == cond_label(other_prefix, m) <==> prefix == other_prefix && n == m,
        return_label(prefix, n) == return_label(other_prefix, m) <==> prefix == other_prefix && n
            == m,
        cond_label(prefix, n) != return_label(other_prefix, m),
{
    if cond_label(prefix, n) == cond_label(other_prefix, m) {
        lemma_numbered_injective("COND_"@, prefix, n, other_prefix, m);
    }
    if return_label(prefix, n) == return_label(other_prefix, m) {
        lemma_numbered_injective("CALL_RET_"@, prefix, n, other_prefix, m);
    }
    reveal_strlit("COND_");
    reveal_strlit("CALL_RET_");
    assert(cond_label(prefix, n)[1] == 'O');
    assert(return_label(other_prefix, m)[1] == 'A');
}

/// The labels that `lines` declare, in order.
pub open spec fn marks(lines: Seq<LineView>) -> Seq<Seq<char>>
    decreases lines.len(),
{
    if lines.len() == 0 {
        Seq::empty()
    } else {
        marks(lines.drop_last()) + match lines.last() {
            LineView::Label(name) => seq![name],
            _ => Seq::empty(),
        }
    }
}

/// The labels of two lists of lines in a row.
pub proof fn lemma_marks_concat(a: Seq<LineView>, b: Seq<LineView>)
    ensures
        marks(a + b) == marks(a) + marks(b),
    decreases b.len(),
{
    if b.len() == 0 {
        assert(a + b =~= a);
        assert(marks(a) + marks(b) =~= marks(a));
    } else {
        lemma_marks_concat(a, b.drop_last());
        assert((a + b).drop_last() =~= a + b.drop_last());
        assert(marks(a + b) =~= marks(a) + marks(b));
    }
}

/// Lines without a label declaration declare none.
pub proof fn lemma_no_marks(lines: Seq<LineView>)
    requires
        forall|i: int| 0 <= i < lines.len() ==> !((#[trigger] lines[i]) is Label),
    ensures
        marks(lines) == Seq::<Seq<char>>::empty(),
    decreases lines.len(),
{
    if lines.len() > 0 {
        lemma_no_marks(lines.drop_last());
        assert(marks(lines) =~= Seq::<Seq<char>>::empty());
    }
}

/// Lines without a label declaration and then one declare that label.
proof fn lemma_closing_mark(lines: Seq<LineView>, name: Seq<char>)
    requires
        forall|i: int| 0 <= i < lines.len() ==> !((#[trigger] lines[i]) is Label),
    ensures
        marks(lines.push(LineView::Label(name))) == seq![name],
{
    lemma_no_marks(lines);
    assert(lines.push(LineView::Label(name)).drop_last() =~= lines);
    assert(marks(lines.push(LineView::Label(name))) =~= seq![name]);
}

/// Pushing zeros declares no label.
proof fn lemma_push_zeros_marks(count: nat)
    ensures
        marks(push_zeros_lines(count)) == Seq::<Seq<char>>::empty(),
    decreases count,
{
    if count == 0 {
        lemma_no_marks(push_zeros_lines(count));
    } else {
        lemma_push_zeros_marks((count - 1) as nat);
        lemma_no_marks(push_zero_lines());
        lemma_marks_concat(push_zeros_lines((count - 1) as nat), push_zero_lines());
    }
}

/// The labels that one command declares: `label` and `function` their
/// name, a comparison and a call the label made for them, any other none.
pub open spec fn command_marks(command: CommandView, prefix: Seq<char>, counters: Counters) -> Seq<
    Seq<char>,
> {
    match command {
        CommandView::Label(name) => seq![name],
        CommandView::Function(name, _) => seq![name],
        CommandView::Eq | CommandView::Gt | CommandView::Lt => seq![
            cond_label(prefix, counters.cond),
        ],
        CommandView::Call(_, _) => seq![return_label(prefix, counters.call)],
        _ => Seq::empty(),
    }
}

/// The lines of a command declare the labels of the command and no other.
/// A comparison declares its label exactly once, and so does a call.
pub proof fn lemma_command_marks(command: CommandView, prefix: Seq<char>, counters: Counters)
    requires
        command_lines(command, prefix, counters) is Ok,
    ensures
        marks(command_lines(command, prefix, counters)->Ok_0) == command_marks(
            command,
            prefix,
            counters,
        ),
{
    let lines = command_lines(command, prefix, counters)->Ok_0;
    let none = Seq::<Seq<char>>::empty();
    match command {
        CommandView::Label(name) => {
            lemma_closing_mark(Seq::empty(), name);
            assert(Seq::<LineView>::empty().push(LineView::Label(name)) =~= label_lines(name));
        },
        CommandView::Function(name, locals) => {
            lemma_closing_mark(Seq::empty(), name);
            assert(Seq::<LineView>::empty().push(LineView::Label(name)) =~= seq![
                LineView::Label(name),
            ]);
            lemma_push_zeros_marks(locals as nat);
            lemma_marks_concat(seq![LineView::Label(name)], push_zeros_lines(locals as nat));
            assert(seq![name] + none =~= seq![name]);
        },
        CommandView::Eq | CommandView::Gt | CommandView::Lt => {
            let name = cond_label(prefix, counters.cond);
            let tail = lines.skip(take_two_lines().len() as int);
            assert(lines =~= take_two_lines() + tail);
            lemma_no_marks(take_two_lines());
            lemma_marks_concat(take_two_lines(), tail);
            lemma_closing_mark(tail.drop_last(), name);
            assert(tail.drop_last().push(LineView::Label(name)) =~= tail);
            assert(none + seq![name] =~= seq![name]);
        },
        CommandView::Call(function, arguments) => {
            let name = return_label(prefix, counters.call);
            let body = lines.drop_last();
            assert(lines =~= body.push(LineView::Label(name)));
            assert forall|i: int| 0 <= i < body.len() implies !((#[trigger] body[i]) is Label) by {
                lemma_call_body(function, prefix, arguments, counters.call, i);
            }
            lemma_closing_mark(body, name);
        },
        CommandView::Return => {
            assert forall|i: int| 0 <= i < lines.len() implies !((#[trigger] lines[i]) is Label) by {
                lemma_return_body(i);
            }
            lemma_no_marks(lines);
        },
        CommandView::Goto(name) => lemma_no_marks(lines),
        CommandView::IfGoto(name) => lemma_no_marks(lines),
        CommandView::Pop(segment, index) => lemma_no_marks(lines),
        CommandView::Push(segment, index) => lemma_no_marks(lines),
        _ => lemma_no_marks(lines),
    }
}

/// No line of a call but the last declares a label.
proof fn lemma_call_body(function: Seq<char>, prefix: Seq<char>, arguments: u16, n: nat, i: int)
    requires
        0 <= i < call_lines(function, prefix, arguments, n).len() - 1,
    ensures
        !(call_lines(function, prefix, arguments, n)[i] is Label),
{
    let head = seq![
        crate::vm::lines::at(return_label(prefix, n)),
        crate::vm::lines::assign(
            crate::assembler::instruction::Destination::D,
            crate::assembler::instruction::Computation::A,
        ),
    ];
    let a = head + push_d_lines();
    let b = a + push_symbol_lines("LCL"@);
    let c = b + push_symbol_lines("ARG"@);
    let d = c + push_symbol_lines("THIS"@);
    let e = d + push_symbol_lines("THAT"@);
    let f = e + enter_lines(function, arguments);
    assert(call_frame_lines(function, prefix, arguments, n) == f);
    assert(forall|j: int| 0 <= j < head.len() ==> !((#[trigger] head[j]) is Label));
    assert(forall|j: int| 0 <= j < a.len() ==> !((#[trigger] a[j]) is Label));
    assert(forall|j: int| 0 <= j < b.len() ==> !((#[trigger] b[j]) is Label));
    assert(forall|j: int| 0 <= j < c.len() ==> !((#[trigger] c[j]) is Label));
    assert(forall|j: int| 0 <= j < d.len() ==> !((#[trigger] d[j]) is Label));
    assert(forall|j: int| 0 <= j < e.len() ==> !((#[trigger] e[j]) is Label));
    assert(forall|j: int| 0 <= j < f.len() ==> !((#[trigger] f[j]) is Label));
}

/// No line of a return declares a label.
proof fn lemma_return_body(i: int)
    requires
        0 <= i < return_lines().len(),
    ensures
        !(return_lines()[i] is Label),
{
    let a = save_frame_lines() + save_return_address_lines();
    let b = a + place_result_lines();
    let c = b + reposition_sp_lines();
    let d = c + restore_that_lines();
    let e = d + restore_this_lines();
    let f = e + restore_arg_lines();
    let g = f + restore_lcl_lines();
    assert(return_lines() == g + jump_back_lines());
    assert(forall|j: int| 0 <= j < a.len() ==> !((#[trigger] a[j]) is Label));
    assert(forall|j: int| 0 <= j < b.len() ==> !((#[trigger] b[j]) is Label));
    assert(forall|j: int| 0 <= j < c.len() ==> !((#[trigger] c[j]) is Label));
    assert(forall|j: int| 0 <= j < d.len() ==> !((#[trigger] d[j]) is Label));
    assert(forall|j: int| 0 <= j < e.len() ==> !((#[trigger] e[j]) is Label));
    assert(forall|j: int| 0 <= j < f.len() ==> !((#[trigger] f[j]) is Label));
    assert(forall|j: int| 0 <= j < g.len() ==> !((#[trigger] g[j]) is Label));
}

/// The labels that the commands in `lines[from..]` declare, in order.
pub open spec fn marks_from(
    lines: Seq<Option<CommandView>>,
    from: int,
    prefix: Seq<char>,
    counters: Counters,
) -> Seq<Seq<char>>
    decreases lines.len() - from,
{
    if from < 0 || from >= lines.len() {
        Seq::empty()
    } else {
        match lines[from] {
            None => marks_from(lines, from + 1, prefix, counters),
            Some(command) => command_marks(command, prefix, counters) + marks_from(
                lines,
                from + 1,
                prefix,
                counters_after(command, counters),
            ),
        }
    }
}

/// The lines of a translation declare the labels of its commands, in order,
/// and no other.
pub proof fn lemma_translation_marks(
    lines: Seq<Option<CommandView>>,
    from: int,
    prefix: Seq<char>,
    counters: Counters,
)
    requires
        0 <= from,
        translate_from(lines, from, prefix, counters) is Ok,
    ensures
        marks(translate_from(lines, from, prefix, counters)->Ok_0) == marks_from(
            lines,
            from,
            prefix,
            counters,
        ),
    decreases lines.len() - from,
{
    if from < lines.len() {
        match lines[from] {
            None => lemma_translation_marks(lines, from + 1, prefix, counters),
            Some(command) => {
                let first = command_lines(command, prefix, counters)->Ok_0;
                let next = counters_after(command, counters);
                let rest = translate_from(lines, from + 1, prefix, next)->Ok_0;
                lemma_command_marks(command, prefix, counters);
                lemma_translation_marks(lines, from + 1, prefix, next);
                lemma_marks_concat(first, rest);
            },
        }
    }
}

/// The name that a line declares by itself: that of a `label` or of a
/// `function`.
pub open spec fn own_name(line: Option<CommandView>) -> Option<Seq<char>> {
    match line {
        Some(CommandView::Label(name)) => Some(name),
        Some(CommandView::Function(name, _)) => Some(name),
        _ => None,
    }
}

/// Whether the translator of the file `prefix` could make the label `name`.
pub open spec fn could_be_made(name: Seq<char>, prefix: Seq<char>) -> bool {
    ||| exists|n: nat| name == #[trigger] cond_label(prefix, n)
    ||| exists|n: nat| name == #[trigger] return_label(prefix, n)
}

/// Whether the names that the lines declare by themselves are all
/// different, and none of them could be made by the translator.
pub open spec fn names_are_apart(lines: Seq<Option<CommandView>>, prefix: Seq<char>) -> bool {
    &&& forall|i: int, j: int|
        0 <= i < j < lines.len() && own_name(#[trigger] lines[i]) is Some && own_name(
            #[trigger] lines[j],
        ) is Some ==> own_name(lines[i]) != own_name(lines[j])
    &&& forall|i: int|
        0 <= i < lines.len() && own_name(#[trigger] lines[i]) is Some ==> !could_be_made(
            own_name(lines[i])->0,
            prefix,
        )
}

/// Where a label of `lines[from..]` comes from: a line of its own, a
/// comparison with a number from `counters.cond` on, or a call with a number
/// from `counters.call` on.
pub open spec fn comes_from(
    name: Seq<char>,
    lines: Seq<Option<CommandView>>,
    from: int,
    prefix: Seq<char>,
    counters: Counters,
) -> bool {
    ||| exists|i: int| from <= i < lines.len() && own_name(#[trigger] lines[i]) == Some(name)
    ||| exists|n: nat| n >= counters.cond && name == #[trigger] cond_label(prefix, n)
    ||| exists|n: nat| n >= counters.call && name == #[trigger] return_label(prefix, n)
}

/// What comes from the lines behind a command comes from the lines with it.
proof fn lemma_comes_from_earlier(
    name: Seq<char>,
    lines: Seq<Option<CommandView>>,
    from: int,
    prefix: Seq<char>,
    counters: Counters,
    next: Counters,
)
    requires
        0 <= from < lines.len(),
        next.cond >= counters.cond,
        next.call >= counters.call,
        comes_from(name, lines, from + 1, prefix, next),
    ensures
        comes_from(name, lines, from, prefix, counters),
{
    if exists|i: int| from + 1 <= i < lines.len() && own_name(#[trigger] lines[i]) == Some(name) {
        let i = choose|i: int|
            from + 1 <= i < lines.len() && own_name(#[trigger] lines[i]) == Some(name);
        assert(from <= i < lines.len() && own_name(lines[i]) == Some(name));
    } else if exists|n: nat| n >= next.cond && name == #[trigger] cond_label(prefix, n) {
        let n = choose|n: nat| n >= next.cond && name == #[trigger] cond_label(prefix, n);
        assert(n >= counters.cond && name == cond_label(prefix, n));
    } else {
        let n = choose|n: nat| n >= next.call && name == #[trigger] return_label(prefix, n);
        assert(n >= counters.call && name == return_label(prefix, n));
    }
}

/// The label of a command is none of those that come from the lines
/// behind it.
proof fn lemma_first_mark_is_new(
    lines: Seq<Option<CommandView>>,
    from: int,
    prefix: Seq<char>,
    counters: Counters,
    later: Seq<char>,
)
    requires
        0 <= from < lines.len(),
        names_are_apart(lines, prefix),
        lines[from] is Some,
        command_marks(lines[from]->0, prefix, counters).len() == 1,
        comes_from(
            later,
            lines,
            from + 1,
            prefix,
            counters_after(lines[from]->0, counters),
        ),
    ensures
        command_marks(lines[from]->0, prefix, counters)[0] != later,
{
    let command = lines[from]->0;
    let name = command_marks(command, prefix, counters)[0];
    let next = counters_after(command, counters);
    if name == later {
        if own_name(lines[from]) is Some {
            assert(own_name(lines[from]) == Some(name));
            if exists|i: int|
                from + 1 <= i < lines.len() && own_name(#[trigger] lines[i]) == Some(later) {
                let i = choose|i: int|
                    from + 1 <= i < lines.len() && own_name(#[trigger] lines[i]) == Some(later);
                assert(own_name(lines[from]) != own_name(lines[i]));
            } else if exists|n: nat| n >= next.cond && later == #[trigger] cond_label(prefix, n) {
                let n = choose|n: nat| n >= next.cond && later == #[trigger] cond_label(prefix, n);
                assert(could_be_made(name, prefix));
            } else {
                let n = choose|n: nat|
                    n >= next.call && later == #[trigger] return_label(prefix, n);
                assert(could_be_made(name, prefix));
            }
        } else if command is Call {
            assert(name == return_label(prefix, counters.call));
            if exists|i: int|
                from + 1 <= i < lines.len() && own_name(#[trigger] lines[i]) == Some(later) {
                let i = choose|i: int|
                    from + 1 <= i < lines.len() && own_name(#[trigger] lines[i]) == Some(later);
                assert(could_be_made(own_name(lines[i])->0, prefix));
            } else if exists|n: nat| n >= next.cond && later == #[trigger] cond_label(prefix, n) {
                let n = choose|n: nat| n >= next.cond && later == #[trigger] cond_label(prefix, n);
                lemma_made_labels_differ(prefix, n, prefix, counters.call);
            } else {
                let n = choose|n: nat|
                    n >= next.call && later == #[trigger] return_label(prefix, n);
                lemma_made_labels_differ(prefix, n, prefix, counters.call);
            }
        } else {
            assert(name == cond_label(prefix, counters.cond));
            if exists|i: int|
                from + 1 <= i < lines.len() && own_name(#[trigger] lines[i]) == Some(later) {
                let i = choose|i: int|
                    from + 1 <= i < lines.len() && own_name(#[trigger] lines[i]) == Some(later);
                assert(could_be_made(own_name(lines[i])->0, prefix));
            } else if exists|n: nat| n >= next.cond && later == #[trigger] cond_label(prefix, n) {
                let n = choose|n: nat| n >= next.cond && later == #[trigger] cond_label(prefix, n);
                lemma_made_labels_differ(prefix, n, prefix, counters.cond);
            } else {
                let n = choose|n: nat|
                    n >= next.call && later == #[trigger] return_label(prefix, n);
                lemma_made_labels_differ(prefix, counters.cond, prefix, n);
            }
        }
    }
}

/// The labels of `lines[from..]` are all different, and each comes from
/// there.
pub proof fn lemma_marks_from_differ(
    lines: Seq<Option<CommandView>>,
    from: int,
    prefix: Seq<char>,
    counters: Counters,
)
    requires
        0 <= from,
        names_are_apart(lines, prefix),
    ensures
        marks_from(lines, from, prefix, counters).no_duplicates(),
        forall|k: int|
            0 <= k < marks_from(lines, from, prefix, counters).len() ==> comes_from(
                #[trigger] marks_from(lines, from, prefix, counters)[k],
                lines,
                from,
                prefix,
                counters,
            ),
    decreases lines.len() - from,
{
    let all = marks_from(lines, from, prefix, counters);
    if from < lines.len() {
        match lines[from] {
            None => {
                lemma_marks_from_differ(lines, from + 1, prefix, counters);
                assert forall|k: int| 0 <= k < all.len() implies comes_from(
                    #[trigger] all[k],
                    lines,
                    from,
                    prefix,
                    counters,
                ) by {
                    lemma_comes_from_earlier(all[k], lines, from, prefix, counters, counters);
                }
            },
            Some(command) => {
                let first = command_marks(command, prefix, counters);
                let next = counters_after(command, counters);
                let rest = marks_from(lines, from + 1, prefix, next);
                lemma_marks_from_differ(lines, from + 1, prefix, next);
                assert(all == first + rest);
                assert forall|k: int| 0 <= k < all.len() implies comes_from(
                    #[trigger] all[k],
                    lines,
                    from,
                    prefix,
                    counters,
                ) by {
                    if k < first.len() {
                        if own_name(lines[from]) is Some {
                            assert(own_name(lines[from]) == Some(all[k]));
                        } else if command is Call {
                            assert(all[k] == return_label(prefix, counters.call));
                        } else {
                            assert(all[k] == cond_label(prefix, counters.cond));
                        }
                    } else {
                        assert(all[k] == rest[k - first.len()]);
                        lemma_comes_from_earlier(all[k], lines, from, prefix, counters, next);
                    }
                }
                assert forall|i: int, j: int| 0 <= i < j < all.len() implies all[i] != all[j] by {
                    if i < first.len() {
                        assert(all[j] == rest[j - first.len()]);
                        lemma_first_mark_is_new(lines, from, prefix, counters, all[j]);
                    } else {
                        assert(all[i] == rest[i - first.len()]);
                        assert(all[j] == rest[j - first.len()]);
                    }
                }
            },
        }
    }
}

/// No two labels of a translation collide, so long as the names of its
/// `label` and `function` commands are all different and none of them has
/// the form of a label that the translator makes for this file.
pub proof fn lemma_labels_never_collide(lines: Seq<Option<CommandView>>, prefix: Seq<char>)
    requires
        translate_spec(lines, prefix) is Ok,
        names_are_apart(lines, prefix),
    ensures
        marks(translate_spec(lines, prefix)->Ok_0).no_duplicates(),
{
    let start = Counters { cond: 0, call: 0 };
    lemma_translation_marks(lines, 0, prefix, start);
    lemma_marks_from_differ(lines, 0, prefix, start);
}

/// The counters at the start of a file.
pub open spec fn fresh() -> Counters {
    Counters { cond: 0, call: 0 }
}

/// The lines that the parser reads in the text of a file.
pub open spec fn unit_lines(unit: Unit) -> Seq<Option<CommandView>> {
    lines_from(unit.source@, 0).0
}

/// Whether a line of the file declares `name` by itself.
pub open spec fn declares_own(unit: Unit, name: Seq<char>) -> bool {
    exists|i: int|
        0 <= i < unit_lines(unit).len() && own_name(#[trigger] unit_lines(unit)[i]) == Some(name)
}

/// Whether the label `name` may come from the file: from a line of its own,
/// or made for one of its comparisons or calls.
pub open spec fn unit_makes(unit: Unit, name: Seq<char>) -> bool {
    comes_from(name, unit_lines(unit), 0, unit.name@, fresh())
}

/// Whether the files of a program keep their labels apart: no two files
/// have one name and none is named `BOOT`; within each file and across the
/// files the names of the `label` and `function` commands are all
/// different; and none of these names has the form of a label that the
/// translator makes for one of the files or for the start of the program.
pub open spec fn units_are_apart(units: Seq<Unit>) -> bool {
    &&& forall|u: int| 0 <= u < units.len() ==> (#[trigger] units[u]).name@ != "BOOT"@
    &&& forall|u: int, v: int|
        0 <= u < v < units.len() ==> (#[trigger] units[u]).name@ != (#[trigger] units[v]).name@
    &&& forall|u: int|
        0 <= u < units.len() ==> names_are_apart(
            unit_lines(#[trigger] units[u]),
            units[u].name@,
        )
    &&& forall|u: int, v: int, name: Seq<char>|
        #![trigger declares_own(units[u], name), declares_own(units[v], name)]
        0 <= u < v < units.len() && declares_own(units[u], name) ==> !declares_own(
            units[v],
            name,
        )
    &&& forall|u: int, v: int, name: Seq<char>|
        #![trigger declares_own(units[u], name), could_be_made(name, units[v].name@)]
        0 <= u < units.len() && 0 <= v < units.len() && declares_own(units[u], name)
            ==> !could_be_made(name, units[v].name@)
    &&& forall|u: int, name: Seq<char>|
        #![trigger declares_own(units[u], name)]
        0 <= u < units.len() && declares_own(units[u], name) ==> !could_be_made(name, "BOOT"@)
}

/// Whether the label `name` may come from one of the files `units[from..]`.
pub open spec fn units_make(units: Seq<Unit>, from: int, name: Seq<char>) -> bool {
    exists|u: int| from <= u < units.len() && unit_makes(#[trigger] units[u], name)
}

/// A label comes from a line of the file, or the translator could make it
/// for the file.
proof fn lemma_unit_makes(unit: Unit, name: Seq<char>)
    requires
        unit_makes(unit, name),
    ensures
        declares_own(unit, name) || could_be_made(name, unit.name@),
{
    let lines = unit_lines(unit);
    if exists|i: int| 0 <= i < lines.len() && own_name(#[trigger] lines[i]) == Some(name) {
    } else if exists|n: nat| n >= 0 && name == #[trigger] cond_label(unit.name@, n) {
        let n = choose|n: nat| n >= 0 && name == #[trigger] cond_label(unit.name@, n);
        assert(name == cond_label(unit.name@, n));
    } else {
        let n = choose|n: nat| n >= 0 && name == #[trigger] return_label(unit.name@, n);
        assert(name == return_label(unit.name@, n));
    }
}

/// A label that the translator could make for one file, it could not make
/// for a file of another name.
proof fn lemma_made_for_one_file(name: Seq<char>, prefix: Seq<char>, other: Seq<char>)
    requires
        could_be_made(name, prefix),
        could_be_made(name, other),
    ensures
        prefix == other,
{
    if exists|n: nat| name == #[trigger] cond_label(prefix, n) {
        let n = choose|n: nat| name == #[trigger] cond_label(prefix, n);
        if exists|m: nat| name == #[trigger] cond_label(other, m) {
            let m = choose|m: nat| name == #[trigger] cond_label(other, m);
            lemma_made_labels_differ(prefix, n, other, m);
        } else {
            let m = choose|m: nat| name == #[trigger] return_label(other, m);
            lemma_made_labels_differ(prefix, n, other, m);
        }
    } else {
        let n = choose|n: nat| name == #[trigger] return_label(prefix, n);
        if exists|m: nat| name == #[trigger] cond_label(other, m) {
            let m = choose|m: nat| name == #[trigger] cond_label(other, m);
            lemma_made_labels_differ(other, m, prefix, n);
        } else {
            let m = choose|m: nat| name == #[trigger] return_label(other, m);
            lemma_made_labels_differ(prefix, n, other, m);
        }
    }
}

/// No label comes from two files of a program that keeps its labels apart.
proof fn lemma_units_share_no_label(units: Seq<Unit>, u: int, v: int, name: Seq<char>)
    requires
        units_are_apart(units),
        0 <= u < v < units.len(),
        unit_makes(units[u], name),
    ensures
        !unit_makes(units[v], name),
{
    if unit_makes(units[v], name) {
        lemma_unit_makes(units[u], name);
        lemma_unit_makes(units[v], name);
        if declares_own(units[u], name) {
            if declares_own(units[v], name) {
            } else {
                assert(!could_be_made(name, units[v].name@));
            }
        } else if declares_own(units[v], name) {
            assert(!could_be_made(name, units[u].name@));
        } else {
            lemma_made_for_one_file(name, units[u].name@, units[v].name@);
        }
    }
}

/// The labels of the files `units[from..]` are all different, and each may
/// come from one of these files.
proof fn lemma_units_marks(units: Seq<Unit>, from: int)
    requires
        0 <= from,
        units_are_apart(units),
        units_from(units, from) is Ok,
    ensures
        marks(units_from(units, from)->Ok_0).no_duplicates(),
        forall|k: int|
            0 <= k < marks(units_from(units, from)->Ok_0).len() ==> units_make(
                units,
                from,
                #[trigger] marks(units_from(units, from)->Ok_0)[k],
            ),
    decreases units.len() - from,
{
    let all = marks(units_from(units, from)->Ok_0);
    if from < units.len() {
        let unit = units[from];
        let first = translate_str_spec(unit.source@, unit.name@)->Ok_0;
        let rest = units_from(units, from + 1)->Ok_0;
        lemma_units_marks(units, from + 1);
        lemma_marks_concat(first, rest);
        lemma_translation_marks(unit_lines(unit), 0, unit.name@, fresh());
        lemma_marks_from_differ(unit_lines(unit), 0, unit.name@, fresh());
        let a = marks(first);
        let b = marks(rest);
        assert(all == a + b);
        assert forall|k: int| 0 <= k < a.len() implies unit_makes(unit, #[trigger] a[k]) by {}
        assert forall|k: int| 0 <= k < all.len() implies units_make(units, from, #[trigger] all[k]) by {
            if k < a.len() {
                assert(unit_makes(units[from], all[k]));
            } else {
                assert(all[k] == b[k - a.len()]);
                let v = choose|v: int|
                    from + 1 <= v < units.len() && unit_makes(#[trigger] units[v], all[k]);
                assert(from <= v < units.len() && unit_makes(units[v], all[k]));
            }
        }
        assert forall|i: int, j: int| 0 <= i < j < all.len() implies all[i] != all[j] by {
            if j < a.len() {
            } else if i >= a.len() {
                assert(all[i] == b[i - a.len()]);
                assert(all[j] == b[j - a.len()]);
            } else {
                assert(all[j] == b[j - a.len()]);
                assert(unit_makes(unit, a[i]));
                if all[i] == all[j] {
                    let v = choose|v: int|
                        from + 1 <= v < units.len() && unit_makes(#[trigger] units[v], all[j]);
                    lemma_units_share_no_label(units, from, v, all[j]);
                }
            }
        }
    }
}

/// The start of a program declares one label: the return address of its
/// call.
proof fn lemma_boot_marks()
    ensures
        marks(boot_lines()) == seq![return_label("BOOT"@, 0)],
{
    let head = boot_lines().take(4);
    let call = call_lines("Sys.init"@, "BOOT"@, 0, 0);
    assert(boot_lines() =~= head + call);
    lemma_no_marks(head);
    lemma_command_marks(CommandView::Call("Sys.init"@, 0), "BOOT"@, fresh());
    lemma_marks_concat(head, call);
    assert(Seq::<Seq<char>>::empty() + seq![return_label("BOOT"@, 0)] =~= seq![
        return_label("BOOT"@, 0),
    ]);
}

/// No two labels of a program collide, so long as its files keep their
/// labels apart: the program links.
pub proof fn lemma_program_labels_never_collide(units: Seq<Unit>)
    requires
        program_spec(units) is Ok,
        units_are_apart(units),
    ensures
        marks(program_spec(units)->Ok_0).no_duplicates(),
{
    let files = units_from(units, 0)->Ok_0;
    let all = marks(program_spec(units)->Ok_0);
    let boot = return_label("BOOT"@, 0);
    lemma_boot_marks();
    lemma_units_marks(units, 0);
    lemma_marks_concat(boot_lines(), files);
    assert(all == seq![boot] + marks(files));
    assert forall|i: int, j: int| 0 <= i < j < all.len() implies all[i] != all[j] by {
        assert(all[j] == marks(files)[j - 1]);
        if i == 0 {
            if all[j] == boot {
                let v = choose|v: int| 0 <= v < units.len() && unit_makes(#[trigger] units[v], all[j]);
                lemma_unit_makes(units[v], boot);
                assert(could_be_made(boot, "BOOT"@));
                if !declares_own(units[v], boot) {
                    lemma_made_for_one_file(boot, units[v].name@, "BOOT"@);
                }
            }
        } else {
            assert(all[i] == marks(files)[i - 1]);
        }
    }
}

} // verus!
