//! The parser of stack-machine commands: one command or nothing on each
//! line, with comments from `//` to the end of the line.

use crate::text::{
    chars_of, decimal_value, is_letter, lemma_run_len_bound, lemma_run_len_chars, parse_u16,
    run_end, run_len, string_of, CharClass,
};
use vstd::prelude::*;
use vstd::string::StrSliceExecFns;

verus! {

/// One command of the stack machine.
#[derive(Clone, Debug, PartialEq, Eq)]
pub enum Command {
    Add,
    Sub,
    Neg,
    Eq,
    Gt,
    Lt,
    And,
    Or,
    Not,
    Return,
    Label(String),
    Goto(String),
    IfGoto(String),
    Call(String, u16),
    Function(String, u16),
    Pop(Segment, u16),
    Push(Segment, u16),
}

/// The mathematical model of a [`Command`].
pub enum CommandView {
    Add,
    Sub,
    Neg,
    Eq,
    Gt,
    Lt,
    And,
    Or,
    Not,
    Return,
    Label(Seq<char>),
    Goto(Seq<char>),
    IfGoto(Seq<char>),
    Call(Seq<char>, u16),
    Function(Seq<char>, u16),
    Pop(Segment, u16),
    Push(Segment, u16),
}

impl View for Command {
    type V = CommandView;

    open spec fn view(&self) -> CommandView {
        match self {
            Command::Add => CommandView::Add,
            Command::Sub => CommandView::Sub,
            Command::Neg => CommandView::Neg,
            Command::Eq => CommandView::Eq,
            Command::Gt => CommandView::Gt,
            Command::Lt => CommandView::Lt,
            Command::And => CommandView::And,
            Command::Or => CommandView::Or,
            Command::Not => CommandView::Not,
            Command::Return => CommandView::Return,
            Command::Label(name) => CommandView::Label(name@),
            Command::Goto(name) => CommandView::Goto(name@),
            Command::IfGoto(name) => CommandView::IfGoto(name@),
            Command::Call(name, n) => CommandView::Call(name@, *n),
            Command::Function(name, n) => CommandView::Function(name@, *n),
            Command::Pop(segment, i) => CommandView::Pop(*segment, *i),
            Command::Push(segment, i) => CommandView::Push(*segment, *i),
        }
    }
}

/// The model of what one line holds: a command or nothing.
pub open spec fn line_view(line: Option<Command>) -> Option<CommandView> {
    match line {
        Some(command) => Some(command@),
        None => None,
    }
}

/// The models of the lines in `lines`, in order.
pub open spec fn line_views(lines: Seq<Option<Command>>) -> Seq<Option<CommandView>> {
    lines.map_values(|line: Option<Command>| line_view(line))
}

/// One of the eight memory segments.
#[derive(Clone, Copy, Debug, PartialEq, Eq, Structural)]
pub enum Segment {
    Local,
    Argument,
    This,
    That,
    Constant,
    Static,
    Pointer,
    Temp,
}

/// The text did not start with what the parser was asked for.
#[derive(Debug, PartialEq, Eq, Structural)]
pub struct SyntaxError;

/// Whether `word` stands in `s` at `pos`.
pub open spec fn tag_at(s: Seq<char>, pos: int, word: Seq<char>) -> bool {
    0 <= pos && pos + word.len() <= s.len() && s.subrange(pos, pos + word.len()) == word
}

/// The end of a comment that starts at `pos`: `//` and the rest of the
/// line. A carriage return ends the line only before a line feed; alone it
/// spoils the comment.
pub open spec fn comment_at(s: Seq<char>, pos: int) -> Option<int> {
    if tag_at(s, pos, "//"@) {
        let end = pos + "//"@.len() + run_len(s, pos + "//"@.len(), CharClass::NotLineEnd);
        if end < s.len() && s[end] == '\r' && !(end + 1 < s.len() && s[end + 1] == '\n') {
            None
        } else {
            Some(end)
        }
    } else {
        None
    }
}

/// The number written at `pos` and its end: one digit or more, the value at
/// most 65535.
pub open spec fn number_at(s: Seq<char>, pos: int) -> Option<(u16, int)> {
    let len = run_len(s, pos, CharClass::Digit);
    let value = decimal_value(s.subrange(pos, pos + len));
    if len >= 1 && value <= u16::MAX {
        Some((value as u16, pos + len))
    } else {
        None
    }
}

/// The identifier at `pos` and its end: a letter or `_`, then letters,
/// digits, `_` and `.`.
pub open spec fn identifier_at(s: Seq<char>, pos: int) -> Option<(Seq<char>, int)> {
    if 0 <= pos < s.len() && (is_letter(s[pos]) || s[pos] == '_') {
        let end = pos + 1 + run_len(s, pos + 1, CharClass::NameChar);
        Some((s.subrange(pos, end), end))
    } else {
        None
    }
}

/// The segment named at `pos` and the end of its name.
pub open spec fn segment_at(s: Seq<char>, pos: int) -> Option<(Segment, int)> {
    if tag_at(s, pos, "local"@) {
        Some((Segment::Local, pos + "local"@.len()))
    } else if tag_at(s, pos, "argument"@) {
        Some((Segment::Argument, pos + "argument"@.len()))
    } else if tag_at(s, pos, "this"@) {
        Some((Segment::This, pos + "this"@.len()))
    } else if tag_at(s, pos, "that"@) {
        Some((Segment::That, pos + "that"@.len()))
    } else if tag_at(s, pos, "constant"@) {
        Some((Segment::Constant, pos + "constant"@.len()))
    } else if tag_at(s, pos, "static"@) {
        Some((Segment::Static, pos + "static"@.len()))
    } else if tag_at(s, pos, "pointer"@) {
        Some((Segment::Pointer, pos + "pointer"@.len()))
    } else if tag_at(s, pos, "temp"@) {
        Some((Segment::Temp, pos + "temp"@.len()))
    } else {
        None
    }
}

/// The command without arguments at `pos` and its end.
pub open spec fn nullary_at(s: Seq<char>, pos: int) -> Option<(CommandView, int)> {
    if tag_at(s, pos, "add"@) {
        Some((CommandView::Add, pos + "add"@.len()))
    } else if tag_at(s, pos, "sub"@) {
        Some((CommandView::Sub, pos + "sub"@.len()))
    } else if tag_at(s, pos, "neg"@) {
        Some((CommandView::Neg, pos + "neg"@.len()))
    } else if tag_at(s, pos, "eq"@) {
        Some((CommandView::Eq, pos + "eq"@.len()))
    } else if tag_at(s, pos, "gt"@) {
        Some((CommandView::Gt, pos + "gt"@.len()))
    } else if tag_at(s, pos, "lt"@) {
        Some((CommandView::Lt, pos + "lt"@.len()))
    } else if tag_at(s, pos, "and"@) {
        Some((CommandView::And, pos + "and"@.len()))
    } else if tag_at(s, pos, "or"@) {
        Some((CommandView::Or, pos + "or"@.len()))
    } else if tag_at(s, pos, "not"@) {
        Some((CommandView::Not, pos + "not"@.len()))
    } else if tag_at(s, pos, "return"@) {
        Some((CommandView::Return, pos + "return"@.len()))
    } else {
        None
    }
}

/// The place behind the blanks at `pos`, if there is at least one.
pub open spec fn blanks_at(s: Seq<char>, pos: int) -> Option<int> {
    if run_len(s, pos, CharClass::Blank) >= 1 {
        Some(pos + run_len(s, pos, CharClass::Blank))
    } else {
        None
    }
}

/// Blanks and then an identifier, from `pos`.
pub open spec fn name_argument_at(s: Seq<char>, pos: int) -> Option<(Seq<char>, int)> {
    match blanks_at(s, pos) {
        Some(start) => identifier_at(s, start),
        None => None,
    }
}

/// Blanks and then a number, from `pos`.
pub open spec fn number_argument_at(s: Seq<char>, pos: int) -> Option<(u16, int)> {
    match blanks_at(s, pos) {
        Some(start) => number_at(s, start),
        None => None,
    }
}

/// Blanks and then a segment, from `pos`.
pub open spec fn segment_argument_at(s: Seq<char>, pos: int) -> Option<(Segment, int)> {
    match blanks_at(s, pos) {
        Some(start) => segment_at(s, start),
        None => None,
    }
}

/// The command with a label at `pos` and its end: `label`, `goto` or
/// `if-goto`, blanks, an identifier.
pub open spec fn unary_at(s: Seq<char>, pos: int) -> Option<(CommandView, int)> {
    if tag_at(s, pos, "label"@) {
        match name_argument_at(s, pos + "label"@.len()) {
            Some((name, end)) => Some((CommandView::Label(name), end)),
            None => None,
        }
    } else if tag_at(s, pos, "goto"@) {
        match name_argument_at(s, pos + "goto"@.len()) {
            Some((name, end)) => Some((CommandView::Goto(name), end)),
            None => None,
        }
    } else if tag_at(s, pos, "if-goto"@) {
        match name_argument_at(s, pos + "if-goto"@.len()) {
            Some((name, end)) => Some((CommandView::IfGoto(name), end)),
            None => None,
        }
    } else {
        None
    }
}

/// Blanks, a segment, blanks and a number, from `pos`.
pub open spec fn segment_and_index_at(s: Seq<char>, pos: int) -> Option<(Segment, u16, int)> {
    match segment_argument_at(s, pos) {
        Some((segment, middle)) => match number_argument_at(s, middle) {
            Some((index, end)) => Some((segment, index, end)),
            None => None,
        },
        None => None,
    }
}

/// Blanks, an identifier, blanks and a number, from `pos`.
pub open spec fn name_and_count_at(s: Seq<char>, pos: int) -> Option<(Seq<char>, u16, int)> {
    match name_argument_at(s, pos) {
        Some((name, middle)) => match number_argument_at(s, middle) {
            Some((count, end)) => Some((name, count, end)),
            None => None,
        },
        None => None,
    }
}

/// The `pop` or `push` at `pos` and its end.
pub open spec fn pop_or_push_at(s: Seq<char>, pos: int) -> Option<(CommandView, int)> {
    if tag_at(s, pos, "pop"@) {
        match segment_and_index_at(s, pos + "pop"@.len()) {
            Some((segment, index, end)) => Some((CommandView::Pop(segment, index), end)),
            None => None,
        }
    } else if tag_at(s, pos, "push"@) {
        match segment_and_index_at(s, pos + "push"@.len()) {
            Some((segment, index, end)) => Some((CommandView::Push(segment, index), end)),
            None => None,
        }
    } else {
        None
    }
}

/// The `call` or `function` at `pos` and its end.
pub open spec fn call_or_function_at(s: Seq<char>, pos: int) -> Option<(CommandView, int)> {
    if tag_at(s, pos, "call"@) {
        match name_and_count_at(s, pos + "call"@.len()) {
            Some((name, count, end)) => Some((CommandView::Call(name, count), end)),
            None => None,
        }
    } else if tag_at(s, pos, "function"@) {
        match name_and_count_at(s, pos + "function"@.len()) {
            Some((name, count, end)) => Some((CommandView::Function(name, count), end)),
            None => None,
        }
    } else {
        None
    }
}

/// The command with two arguments at `pos` and its end.
pub open spec fn binary_at(s: Seq<char>, pos: int) -> Option<(CommandView, int)> {
    if pop_or_push_at(s, pos) is Some {
        pop_or_push_at(s, pos)
    } else {
        call_or_function_at(s, pos)
    }
}

/// The command at `pos` and its end.
pub open spec fn command_at(s: Seq<char>, pos: int) -> Option<(CommandView, int)> {
    if nullary_at(s, pos) is Some {
        nullary_at(s, pos)
    } else if unary_at(s, pos) is Some {
        unary_at(s, pos)
    } else {
        binary_at(s, pos)
    }
}

/// The place behind a comment at `pos`, or `pos` if none stands there.
pub open spec fn past_comment(s: Seq<char>, pos: int) -> int {
    match comment_at(s, pos) {
        Some(end) => end,
        None => pos,
    }
}

/// What the line at `pos` holds, and where the parser stops in it: after
/// leading blanks, a command with blanks and a comment behind it, or else
/// only a comment, or else nothing.
pub open spec fn line_at(s: Seq<char>, pos: int) -> (Option<CommandView>, int) {
    let start = pos + run_len(s, pos, CharClass::Blank);
    match command_at(s, start) {
        Some((command, end)) => (
            Some(command),
            past_comment(s, end + run_len(s, end, CharClass::Blank)),
        ),
        None => (None, past_comment(s, start)),
    }
}

/// The place behind the line end at `pos`: a line feed, or a carriage return
/// and a line feed.
pub open spec fn line_ending_at(s: Seq<char>, pos: int) -> Option<int> {
    if 0 <= pos < s.len() && s[pos] == '\n' {
        Some(pos + 1)
    } else if 0 <= pos && pos + 1 < s.len() && s[pos] == '\r' && s[pos + 1] == '\n' {
        Some(pos + 2)
    } else {
        None
    }
}

/// The lines from `pos` on, and the place where the parser stops: behind
/// the first line that no line end follows.
pub open spec fn lines_from(s: Seq<char>, pos: int) -> (Seq<Option<CommandView>>, int)
    decreases s.len() - pos,
    when 0 <= pos <= s.len()
{
    let (line, end) = line_at(s, pos);
    match line_ending_at(s, end) {
        Some(next) => {
            proof {
                lemma_line_bound(s, pos);
            }
            let (rest, stop) = lines_from(s, next);
            (seq![line] + rest, stop)
        },
        None => (seq![line], end),
    }
}

/// Passing a comment stays inside the text.
pub proof fn lemma_comment_bound(s: Seq<char>, pos: int)
    requires
        0 <= pos <= s.len(),
    ensures
        pos <= past_comment(s, pos) <= s.len(),
{
    if tag_at(s, pos, "//"@) {
        lemma_run_len_bound(s, pos + "//"@.len(), CharClass::NotLineEnd);
    }
}

/// A number ends inside the text, behind its start.
pub proof fn lemma_number_bound(s: Seq<char>, pos: int)
    requires
        0 <= pos <= s.len(),
    ensures
        number_at(s, pos) matches Some((_, end)) ==> pos < end <= s.len(),
{
    lemma_run_len_bound(s, pos, CharClass::Digit);
}

/// An identifier ends inside the text, behind its start.
pub proof fn lemma_identifier_bound(s: Seq<char>, pos: int)
    requires
        0 <= pos <= s.len(),
    ensures
        identifier_at(s, pos) matches Some((_, end)) ==> pos < end <= s.len(),
{
    if pos < s.len() {
        lemma_run_len_bound(s, pos + 1, CharClass::NameChar);
    }
}

/// Blanks end inside the text.
pub proof fn lemma_blanks_bound(s: Seq<char>, pos: int)
    requires
        0 <= pos <= s.len(),
    ensures
        pos <= pos + run_len(s, pos, CharClass::Blank) <= s.len(),
{
    lemma_run_len_bound(s, pos, CharClass::Blank);
}

/// A command ends inside the text, behind its start.
pub proof fn lemma_command_bound(s: Seq<char>, pos: int)
    requires
        0 <= pos <= s.len(),
    ensures
        command_at(s, pos) matches Some((_, end)) ==> pos <= end <= s.len(),
{
    if nullary_at(s, pos) is Some {
    } else if unary_at(s, pos) is Some {
        if tag_at(s, pos, "label"@) {
            lemma_name_argument_bound(s, pos + "label"@.len());
        } else if tag_at(s, pos, "goto"@) {
            lemma_name_argument_bound(s, pos + "goto"@.len());
        } else {
            lemma_name_argument_bound(s, pos + "if-goto"@.len());
        }
    } else if pop_or_push_at(s, pos) is Some {
        if tag_at(s, pos, "pop"@) {
            lemma_segment_and_index_bound(s, pos + "pop"@.len());
        } else {
            lemma_segment_and_index_bound(s, pos + "push"@.len());
        }
    } else if tag_at(s, pos, "call"@) {
        lemma_name_and_count_bound(s, pos + "call"@.len());
    } else if tag_at(s, pos, "function"@) {
        lemma_name_and_count_bound(s, pos + "function"@.len());
    }
}

/// Blanks and an identifier end inside the text.
pub proof fn lemma_name_argument_bound(s: Seq<char>, pos: int)
    requires
        0 <= pos <= s.len(),
    ensures
        name_argument_at(s, pos) matches Some((_, end)) ==> pos < end <= s.len(),
{
    lemma_blanks_bound(s, pos);
    lemma_identifier_bound(s, pos + run_len(s, pos, CharClass::Blank));
}

/// Blanks and a number end inside the text.
pub proof fn lemma_number_argument_bound(s: Seq<char>, pos: int)
    requires
        0 <= pos <= s.len(),
    ensures
        number_argument_at(s, pos) matches Some((_, end)) ==> pos < end <= s.len(),
{
    lemma_blanks_bound(s, pos);
    lemma_number_bound(s, pos + run_len(s, pos, CharClass::Blank));
}

/// Blanks and a segment end inside the text.
pub proof fn lemma_segment_argument_bound(s: Seq<char>, pos: int)
    requires
        0 <= pos <= s.len(),
    ensures
        segment_argument_at(s, pos) matches Some((_, end)) ==> pos < end <= s.len(),
{
    lemma_blanks_bound(s, pos);
}

/// A segment and an index end inside the text.
pub proof fn lemma_segment_and_index_bound(s: Seq<char>, pos: int)
    requires
        0 <= pos <= s.len(),
    ensures
        segment_and_index_at(s, pos) matches Some((_, _, end)) ==> pos < end <= s.len(),
{
    lemma_segment_argument_bound(s, pos);
    if let Some((_, middle)) = segment_argument_at(s, pos) {
        lemma_number_argument_bound(s, middle);
    }
}

/// A name and a count end inside the text.
pub proof fn lemma_name_and_count_bound(s: Seq<char>, pos: int)
    requires
        0 <= pos <= s.len(),
    ensures
        name_and_count_at(s, pos) matches Some((_, _, end)) ==> pos < end <= s.len(),
{
    lemma_name_argument_bound(s, pos);
    if let Some((_, middle)) = name_argument_at(s, pos) {
        lemma_number_argument_bound(s, middle);
    }
}

/// A line ends inside the text.
pub proof fn lemma_line_bound(s: Seq<char>, pos: int)
    requires
        0 <= pos <= s.len(),
    ensures
        pos <= line_at(s, pos).1 <= s.len(),
{
    lemma_blanks_bound(s, pos);
    let start = pos + run_len(s, pos, CharClass::Blank);
    lemma_command_bound(s, start);
    match command_at(s, start) {
        Some((_, end)) => {
            lemma_blanks_bound(s, end);
            lemma_comment_bound(s, end + run_len(s, end, CharClass::Blank));
        },
        None => {
            lemma_comment_bound(s, start);
        },
    }
}

/// The end of `word` if it stands in `v` at `pos`.
fn eat(v: &Vec<char>, pos: usize, word: &str) -> (r: Option<usize>)
    requires
        pos <= v.len(),
    ensures
        match r {
            Some(end) => tag_at(v@, pos as int, word@) && end == pos + word@.len(),
            None => !tag_at(v@, pos as int, word@),
        },
{
    let w = chars_of(word);
    if w.len() > v.len() - pos {
        return None;
    }
    let mut i: usize = 0;
    while i < w.len()
        invariant
            i <= w.len(),
            pos + w.len() <= v.len(),
            w@ == word@,
            forall|j: int| 0 <= j < i ==> v@[pos + j] == w@[j],
        decreases w.len() - i,
    {
        if v[pos + i] != w[i] {
            assert(v@.subrange(pos as int, pos + w.len())[i as int] != w@[i as int]);
            return None;
        }
        i += 1;
    }
    assert(v@.subrange(pos as int, pos + w.len()) =~= w@);
    Some(pos + w.len())
}

/// The place behind the blanks at `pos`.
fn skip_blanks(v: &Vec<char>, pos: usize) -> (end: usize)
    requires
        pos <= v.len(),
    ensures
        end == pos + run_len(v@, pos as int, CharClass::Blank),
        pos <= end <= v.len(),
{
    run_end(v, pos, CharClass::Blank)
}

fn comment_in(v: &Vec<char>, pos: usize) -> (r: Option<usize>)
    requires
        pos <= v.len(),
    ensures
        match comment_at(v@, pos as int) {
            Some(end) => r matches Some(stop) && stop == end,
            None => r is None,
        },
        r matches Some(end) ==> pos <= end <= v.len(),
{
    match eat(v, pos, "//") {
        Some(start) => {
            let end = run_end(v, start, CharClass::NotLineEnd);
            if end < v.len() && v[end] == '\r' && !(end + 1 < v.len() && v[end + 1] == '\n') {
                None
            } else {
                Some(end)
            }
        },
        None => None,
    }
}

fn number_in(v: &Vec<char>, pos: usize) -> (r: Option<(u16, usize)>)
    requires
        pos <= v.len(),
    ensures
        match number_at(v@, pos as int) {
            Some((n, end)) => r matches Some((found_n, stop)) && found_n == n && stop == end,
            None => r is None,
        },
        r matches Some((_, end)) ==> pos < end <= v.len(),
{
    let end = run_end(v, pos, CharClass::Digit);
    if end == pos {
        return None;
    }
    proof {
        lemma_run_len_chars(v@, pos as int, CharClass::Digit);
        let digits = v@.subrange(pos as int, end as int);
        assert forall|i: int| 0 <= i < digits.len() implies crate::text::is_digit(
            #[trigger] digits[i],
        ) by {
            assert(digits[i] == v@[pos + i]);
        }
    }
    match parse_u16(v, pos, end) {
        Some(n) => Some((n, end)),
        None => None,
    }
}

fn identifier_in(v: &Vec<char>, pos: usize) -> (r: Option<usize>)
    requires
        pos <= v.len(),
    ensures
        match identifier_at(v@, pos as int) {
            Some((_, end)) => r matches Some(stop) && stop == end,
            None => r is None,
        },
        r matches Some(end) ==> pos < end <= v.len(),
{
    if pos < v.len() && (CharClass::Letter.contains(v[pos]) || v[pos] == '_') {
        Some(run_end(v, pos + 1, CharClass::NameChar))
    } else {
        None
    }
}

fn segment_in(v: &Vec<char>, pos: usize) -> (r: Option<(Segment, usize)>)
    requires
        pos <= v.len(),
    ensures
        match segment_at(v@, pos as int) {
            Some((segment, end)) => r matches Some((found_segment, stop)) && found_segment == segment && stop == end,
            None => r is None,
        },
        r matches Some((_, end)) ==> pos <= end <= v.len(),
{
    if let Some(end) = eat(v, pos, "local") {
        Some((Segment::Local, end))
    } else if let Some(end) = eat(v, pos, "argument") {
        Some((Segment::Argument, end))
    } else if let Some(end) = eat(v, pos, "this") {
        Some((Segment::This, end))
    } else if let Some(end) = eat(v, pos, "that") {
        Some((Segment::That, end))
    } else if let Some(end) = eat(v, pos, "constant") {
        Some((Segment::Constant, end))
    } else if let Some(end) = eat(v, pos, "static") {
        Some((Segment::Static, end))
    } else if let Some(end) = eat(v, pos, "pointer") {
        Some((Segment::Pointer, end))
    } else if let Some(end) = eat(v, pos, "temp") {
        Some((Segment::Temp, end))
    } else {
        None
    }
}

fn nullary_in(v: &Vec<char>, pos: usize) -> (r: Option<(Command, usize)>)
    requires
        pos <= v.len(),
    ensures
        match nullary_at(v@, pos as int) {
            Some((command, end)) => r matches Some((found, stop)) && found@ == command && stop
                == end,
            None => r is None,
        },
        r matches Some((_, end)) ==> pos <= end <= v.len(),
{
    if let Some(end) = eat(v, pos, "add") {
        Some((Command::Add, end))
    } else if let Some(end) = eat(v, pos, "sub") {
        Some((Command::Sub, end))
    } else if let Some(end) = eat(v, pos, "neg") {
        Some((Command::Neg, end))
    } else if let Some(end) = eat(v, pos, "eq") {
        Some((Command::Eq, end))
    } else if let Some(end) = eat(v, pos, "gt") {
        Some((Command::Gt, end))
    } else if let Some(end) = eat(v, pos, "lt") {
        Some((Command::Lt, end))
    } else if let Some(end) = eat(v, pos, "and") {
        Some((Command::And, end))
    } else if let Some(end) = eat(v, pos, "or") {
        Some((Command::Or, end))
    } else if let Some(end) = eat(v, pos, "not") {
        Some((Command::Not, end))
    } else if let Some(end) = eat(v, pos, "return") {
        Some((Command::Return, end))
    } else {
        None
    }
}

/// The place behind the blanks at `pos`, if there is at least one.
fn blanks_in(v: &Vec<char>, pos: usize) -> (r: Option<usize>)
    requires
        pos <= v.len(),
    ensures
        match blanks_at(v@, pos as int) {
            Some(end) => r matches Some(stop) && stop == end,
            None => r is None,
        },
        r matches Some(end) ==> pos < end <= v.len(),
{
    let end = skip_blanks(v, pos);
    if end > pos {
        Some(end)
    } else {
        None
    }
}

/// Blanks and then an identifier: the name and its end.
fn name_argument_in(v: &Vec<char>, pos: usize) -> (r: Option<(String, usize)>)
    requires
        pos <= v.len(),
    ensures
        match name_argument_at(v@, pos as int) {
            Some((name, end)) => r matches Some((found, stop)) && found@ == name && stop == end,
            None => r is None,
        },
        r matches Some((_, end)) ==> pos < end <= v.len(),
{
    match blanks_in(v, pos) {
        Some(start) => match identifier_in(v, start) {
            Some(end) => Some((string_of(v, start, end), end)),
            None => None,
        },
        None => None,
    }
}

/// Blanks and then a number: the number and its end.
fn number_argument_in(v: &Vec<char>, pos: usize) -> (r: Option<(u16, usize)>)
    requires
        pos <= v.len(),
    ensures
        match number_argument_at(v@, pos as int) {
            Some((n, end)) => r matches Some((found_n, stop)) && found_n == n && stop == end,
            None => r is None,
        },
        r matches Some((_, end)) ==> pos < end <= v.len(),
{
    match blanks_in(v, pos) {
        Some(start) => number_in(v, start),
        None => None,
    }
}

fn unary_in(v: &Vec<char>, pos: usize) -> (r: Option<(Command, usize)>)
    requires
        pos <= v.len(),
    ensures
        match unary_at(v@, pos as int) {
            Some((command, end)) => r matches Some((found, stop)) && found@ == command && stop
                == end,
            None => r is None,
        },
        r matches Some((_, end)) ==> pos <= end <= v.len(),
{
    if let Some(start) = eat(v, pos, "label") {
        match name_argument_in(v, start) {
            Some((name, end)) => Some((Command::Label(name), end)),
            None => None,
        }
    } else if let Some(start) = eat(v, pos, "goto") {
        match name_argument_in(v, start) {
            Some((name, end)) => Some((Command::Goto(name), end)),
            None => None,
        }
    } else if let Some(start) = eat(v, pos, "if-goto") {
        match name_argument_in(v, start) {
            Some((name, end)) => Some((Command::IfGoto(name), end)),
            None => None,
        }
    } else {
        None
    }
}

/// Blanks, a segment, blanks and a number.
fn segment_and_index_in(v: &Vec<char>, pos: usize) -> (r: Option<(Segment, u16, usize)>)
    requires
        pos <= v.len(),
    ensures
        match segment_and_index_at(v@, pos as int) {
            Some((segment, index, end)) => r matches Some((found_segment, found_index, stop)) && found_segment == segment && found_index == index && stop == end,
            None => r is None,
        },
        r matches Some((_, _, end)) ==> pos < end <= v.len(),
{
    let start = match blanks_in(v, pos) {
        Some(start) => start,
        None => return None,
    };
    let (segment, middle) = match segment_in(v, start) {
        Some(found) => found,
        None => return None,
    };
    match number_argument_in(v, middle) {
        Some((index, end)) => Some((segment, index, end)),
        None => None,
    }
}

/// Blanks, an identifier, blanks and a number.
fn name_and_count_in(v: &Vec<char>, pos: usize) -> (r: Option<(String, u16, usize)>)
    requires
        pos <= v.len(),
    ensures
        match name_and_count_at(v@, pos as int) {
            Some((name, count, end)) => r matches Some((found, n, stop)) && found@ == name && n
                == count && stop == end,
            None => r is None,
        },
        r matches Some((_, _, end)) ==> pos < end <= v.len(),
{
    let (name, middle) = match name_argument_in(v, pos) {
        Some(found) => found,
        None => return None,
    };
    match number_argument_in(v, middle) {
        Some((count, end)) => Some((name, count, end)),
        None => None,
    }
}

fn pop_or_push_in(v: &Vec<char>, pos: usize) -> (r: Option<(Command, usize)>)
    requires
        pos <= v.len(),
    ensures
        match pop_or_push_at(v@, pos as int) {
            Some((command, end)) => r matches Some((found, stop)) && found@ == command && stop
                == end,
            None => r is None,
        },
        r matches Some((_, end)) ==> pos <= end <= v.len(),
{
    if let Some(start) = eat(v, pos, "pop") {
        match segment_and_index_in(v, start) {
            Some((segment, index, end)) => Some((Command::Pop(segment, index), end)),
            None => None,
        }
    } else if let Some(start) = eat(v, pos, "push") {
        match segment_and_index_in(v, start) {
            Some((segment, index, end)) => Some((Command::Push(segment, index), end)),
            None => None,
        }
    } else {
        None
    }
}

fn call_or_function_in(v: &Vec<char>, pos: usize) -> (r: Option<(Command, usize)>)
    requires
        pos <= v.len(),
    ensures
        match call_or_function_at(v@, pos as int) {
            Some((command, end)) => r matches Some((found, stop)) && found@ == command && stop
                == end,
            None => r is None,
        },
        r matches Some((_, end)) ==> pos <= end <= v.len(),
{
    if let Some(start) = eat(v, pos, "call") {
        match name_and_count_in(v, start) {
            Some((name, count, end)) => Some((Command::Call(name, count), end)),
            None => None,
        }
    } else if let Some(start) = eat(v, pos, "function") {
        match name_and_count_in(v, start) {
            Some((name, count, end)) => Some((Command::Function(name, count), end)),
            None => None,
        }
    } else {
        None
    }
}

fn binary_in(v: &Vec<char>, pos: usize) -> (r: Option<(Command, usize)>)
    requires
        pos <= v.len(),
    ensures
        match binary_at(v@, pos as int) {
            Some((command, end)) => r matches Some((found, stop)) && found@ == command && stop
                == end,
            None => r is None,
        },
        r matches Some((_, end)) ==> pos <= end <= v.len(),
{
    match pop_or_push_in(v, pos) {
        Some(found) => Some(found),
        None => call_or_function_in(v, pos),
    }
}

fn command_in(v: &Vec<char>, pos: usize) -> (r: Option<(Command, usize)>)
    requires
        pos <= v.len(),
    ensures
        match command_at(v@, pos as int) {
            Some((command, end)) => r matches Some((found, stop)) && found@ == command && stop
                == end,
            None => r is None,
        },
        r matches Some((_, end)) ==> pos <= end <= v.len(),
{
    match nullary_in(v, pos) {
        Some(found) => Some(found),
        None => match unary_in(v, pos) {
            Some(found) => Some(found),
            None => binary_in(v, pos),
        },
    }
}

/// The place behind a comment at `pos`, or `pos` if none stands there.
fn skip_comment(v: &Vec<char>, pos: usize) -> (end: usize)
    requires
        pos <= v.len(),
    ensures
        end == past_comment(v@, pos as int),
        pos <= end <= v.len(),
{
    match comment_in(v, pos) {
        Some(end) => end,
        None => pos,
    }
}

fn line_in(v: &Vec<char>, pos: usize) -> (r: (Option<Command>, usize))
    requires
        pos <= v.len(),
    ensures
        line_view(r.0) == line_at(v@, pos as int).0,
        r.1 == line_at(v@, pos as int).1,
        pos <= r.1 <= v.len(),
{
    let start = skip_blanks(v, pos);
    match command_in(v, start) {
        Some((command, end)) => {
            let end = skip_blanks(v, end);
            (Some(command), skip_comment(v, end))
        },
        None => (None, skip_comment(v, start)),
    }
}

fn line_ending_in(v: &Vec<char>, pos: usize) -> (r: Option<usize>)
    requires
        pos <= v.len(),
    ensures
        match line_ending_at(v@, pos as int) {
            Some(end) => r matches Some(stop) && stop == end,
            None => r is None,
        },
        r matches Some(end) ==> pos < end <= v.len(),
{
    if pos < v.len() && v[pos] == '\n' {
        Some(pos + 1)
    } else if pos < v.len() && v[pos] == '\r' && pos + 1 < v.len() && v[pos + 1] == '\n' {
        Some(pos + 2)
    } else {
        None
    }
}

/// `tail` behind the lines `done`.
pub open spec fn after_lines(
    done: Seq<Option<CommandView>>,
    tail: (Seq<Option<CommandView>>, int),
) -> (Seq<Option<CommandView>>, int) {
    (done + tail.0, tail.1)
}

pub(crate) fn lines_in(v: &Vec<char>, pos: usize) -> (r: (Vec<Option<Command>>, usize))
    requires
        pos <= v.len(),
    ensures
        line_views(r.0@) == lines_from(v@, pos as int).0,
        r.1 == lines_from(v@, pos as int).1,
        pos <= r.1 <= v.len(),
{
    let mut lines: Vec<Option<Command>> = vec![];
    let ghost all = lines_from(v@, pos as int);
    let mut at = pos;
    assert(line_views(lines@) =~= Seq::<Option<CommandView>>::empty());
    loop
        invariant_except_break
            after_lines(line_views(lines@), lines_from(v@, at as int)) == all,
        invariant
            pos <= at <= v.len(),
            all == lines_from(v@, pos as int),
        ensures
            line_views(lines@) == all.0,
            at == all.1,
            pos <= at <= v.len(),
        decreases v.len() - at,
    {
        let ghost done = line_views(lines@);
        let (line, end) = line_in(v, at);
        lines.push(line);
        assert(line_views(lines@) =~= done.push(line_view(line)));
        match line_ending_in(v, end) {
            Some(next) => {
                proof {
                    let rest = lines_from(v@, next as int);
                    assert(done + (seq![line_view(line)] + rest.0) =~= done.push(line_view(line))
                        + rest.0);
                }
                at = next;
            },
            None => {
                assert(done + seq![line_view(line)] =~= done.push(line_view(line)));
                at = end;
                break ;
            },
        }
    }
    (lines, at)
}

/// The text of `input` from the character at `from` on.
fn rest_of<'a>(input: &'a str, from: usize) -> (rest: &'a str)
    requires
        from <= input@.len(),
    ensures
        rest@ == input@.skip(from as int),
{
    let n = input.unicode_len();
    input.substring_char(from, n)
}

/// Reads a comment at the start of `input`: `//` and the rest of the line.
pub fn comment(input: &str) -> (r: Result<(&str, ()), SyntaxError>)
    ensures
        match comment_at(input@, 0) {
            Some(end) => r matches Ok((rest, _)) && rest@ == input@.skip(end),
            None => r is Err,
        },
{
    let v = chars_of(input);
    match comment_in(&v, 0) {
        Some(end) => Ok((rest_of(input, end), ())),
        None => Err(SyntaxError),
    }
}

/// Reads a number at the start of `input`: digits that write at most 65535.
pub fn number(input: &str) -> (r: Result<(&str, u16), SyntaxError>)
    ensures
        match number_at(input@, 0) {
            Some((n, end)) => r matches Ok((rest, found)) && rest@ == input@.skip(end) && found
                == n,
            None => r is Err,
        },
{
    let v = chars_of(input);
    match number_in(&v, 0) {
        Some((n, end)) => Ok((rest_of(input, end), n)),
        None => Err(SyntaxError),
    }
}

/// Reads an identifier at the start of `input`.
pub fn identifier(input: &str) -> (r: Result<(&str, &str), SyntaxError>)
    ensures
        match identifier_at(input@, 0) {
            Some((name, end)) => r matches Ok((rest, found)) && rest@ == input@.skip(end)
                && found@ == name,
            None => r is Err,
        },
{
    let v = chars_of(input);
    match identifier_in(&v, 0) {
        Some(end) => Ok((rest_of(input, end), input.substring_char(0, end))),
        None => Err(SyntaxError),
    }
}

/// Reads the name of a segment at the start of `input`.
pub fn segment(input: &str) -> (r: Result<(&str, Segment), SyntaxError>)
    ensures
        match segment_at(input@, 0) {
            Some((segment, end)) => r matches Ok((rest, found)) && rest@ == input@.skip(end)
                && found == segment,
            None => r is Err,
        },
{
    let v = chars_of(input);
    match segment_in(&v, 0) {
        Some((segment, end)) => Ok((rest_of(input, end), segment)),
        None => Err(SyntaxError),
    }
}

/// Reads a command without arguments at the start of `input`.
pub fn nullary_cmd(input: &str) -> (r: Result<(&str, Command), SyntaxError>)
    ensures
        match nullary_at(input@, 0) {
            Some((command, end)) => r matches Ok((rest, found)) && rest@ == input@.skip(end)
                && found@ == command,
            None => r is Err,
        },
{
    let v = chars_of(input);
    match nullary_in(&v, 0) {
        Some((command, end)) => Ok((rest_of(input, end), command)),
        None => Err(SyntaxError),
    }
}

/// Reads a command with a label at the start of `input`.
pub fn unary_cmd(input: &str) -> (r: Result<(&str, Command), SyntaxError>)
    ensures
        match unary_at(input@, 0) {
            Some((command, end)) => r matches Ok((rest, found)) && rest@ == input@.skip(end)
                && found@ == command,
            None => r is Err,
        },
{
    let v = chars_of(input);
    match unary_in(&v, 0) {
        Some((command, end)) => Ok((rest_of(input, end), command)),
        None => Err(SyntaxError),
    }
}

/// Reads a command with two arguments at the start of `input`.
pub fn binary_cmd(input: &str) -> (r: Result<(&str, Command), SyntaxError>)
    ensures
        match binary_at(input@, 0) {
            Some((command, end)) => r matches Ok((rest, found)) && rest@ == input@.skip(end)
                && found@ == command,
            None => r is Err,
        },
{
    let v = chars_of(input);
    match binary_in(&v, 0) {
        Some((command, end)) => Ok((rest_of(input, end), command)),
        None => Err(SyntaxError),
    }
}

/// Reads a `pop` or a `push` at the start of `input`.
pub fn pop_or_push(input: &str) -> (r: Result<(&str, Command), SyntaxError>)
    ensures
        match pop_or_push_at(input@, 0) {
            Some((command, end)) => r matches Ok((rest, found)) && rest@ == input@.skip(end)
                && found@ == command,
            None => r is Err,
        },
{
    let v = chars_of(input);
    match pop_or_push_in(&v, 0) {
        Some((command, end)) => Ok((rest_of(input, end), command)),
        None => Err(SyntaxError),
    }
}

/// Reads a `call` or a `function` at the start of `input`.
pub fn call_or_function(input: &str) -> (r: Result<(&str, Command), SyntaxError>)
    ensures
        match call_or_function_at(input@, 0) {
            Some((command, end)) => r matches Ok((rest, found)) && rest@ == input@.skip(end)
                && found@ == command,
            None => r is Err,
        },
{
    let v = chars_of(input);
    match call_or_function_in(&v, 0) {
        Some((command, end)) => Ok((rest_of(input, end), command)),
        None => Err(SyntaxError),
    }
}

/// Reads a command at the start of `input`.
pub fn command(input: &str) -> (r: Result<(&str, Command), SyntaxError>)
    ensures
        match command_at(input@, 0) {
            Some((command, end)) => r matches Ok((rest, found)) && rest@ == input@.skip(end)
                && found@ == command,
            None => r is Err,
        },
{
    let v = chars_of(input);
    match command_in(&v, 0) {
        Some((command, end)) => Ok((rest_of(input, end), command)),
        None => Err(SyntaxError),
    }
}

/// Reads one line of `input`, without its line end: what it holds, and the
/// text that is left. It never fails: a line that holds no command and no
/// comment is read as empty, and all of it is left.
pub fn line(input: &str) -> (r: Result<(&str, Option<Command>), SyntaxError>)
    ensures
        r matches Ok((rest, found)) && rest@ == input@.skip(line_at(input@, 0).1) && line_view(
            found,
        ) == line_at(input@, 0).0,
        0 <= line_at(input@, 0).1 <= input@.len(),
{
    let v = chars_of(input);
    let (found, end) = line_in(&v, 0);
    Ok((rest_of(input, end), found))
}

/// Reads the lines of `input`: what each holds, and the text that is left,
/// which is empty if and only if every line was read to its end. It never
/// fails.
pub fn parse(input: &str) -> (r: Result<(&str, Vec<Option<Command>>), SyntaxError>)
    ensures
        r matches Ok((rest, found)) && rest@ == input@.skip(lines_from(input@, 0).1)
            && line_views(found@) == lines_from(input@, 0).0,
        0 <= lines_from(input@, 0).1 <= input@.len(),
{
    let v = chars_of(input);
    let (found, end) = lines_in(&v, 0);
    Ok((rest_of(input, end), found))
}

} // verus!
