//! Lines of Hack assembly as the translator writes them.

use crate::assembler::instruction::{Computation, Destination, Jump};
use crate::text::{decimal, push_decimal};
use vstd::prelude::*;
use vstd::string::StringExecFns;

verus! {

/// One line of assembly.
#[derive(Debug, PartialEq, Eq)]
pub enum Line {
    /// `@n`: loads the number.
    Number(u16),
    /// `@name`: loads the address that the name stands for.
    Symbol(String),
    /// `dest=comp;jump`, without `dest=` or `;jump` where there is none.
    Compute { dest: Destination, comp: Computation, jump: Jump },
    /// `(name)`: names the place of the next instruction.
    Label(String),
}

/// The mathematical model of a [`Line`].
pub enum LineView {
    Number(u16),
    Symbol(Seq<char>),
    Compute { dest: Destination, comp: Computation, jump: Jump },
    Label(Seq<char>),
}

impl View for Line {
    type V = LineView;

    open spec fn view(&self) -> LineView {
        match self {
            Line::Number(n) => LineView::Number(*n),
            Line::Symbol(name) => LineView::Symbol(name@),
            Line::Compute { dest, comp, jump } => LineView::Compute {
                dest: *dest,
                comp: *comp,
                jump: *jump,
            },
            Line::Label(name) => LineView::Label(name@),
        }
    }
}

/// The models of the lines in `lines`, in order.
pub open spec fn views(lines: Seq<Line>) -> Seq<LineView> {
    lines.map_values(|line: Line| line@)
}

/// `@name`.
pub open spec fn at(name: Seq<char>) -> LineView {
    LineView::Symbol(name)
}

/// `@n`.
pub open spec fn load(n: u16) -> LineView {
    LineView::Number(n)
}

/// `dest=comp`.
pub open spec fn assign(dest: Destination, comp: Computation) -> LineView {
    LineView::Compute { dest, comp, jump: Jump::Null }
}

/// `comp;jump`.
pub open spec fn branch(comp: Computation, jump: Jump) -> LineView {
    LineView::Compute { dest: Destination::Null, comp, jump }
}

/// `(name)`.
pub open spec fn mark(name: Seq<char>) -> LineView {
    LineView::Label(name)
}

impl LineView {
    /// The text of the line, closed by a line feed.
    pub open spec fn text(self) -> Seq<char> {
        match self {
            LineView::Number(n) => "@"@ + decimal(n as nat) + "\n"@,
            LineView::Symbol(name) => "@"@ + name + "\n"@,
            LineView::Compute { dest, comp, jump } => (if dest == Destination::Null {
                Seq::<char>::empty()
            } else {
                dest.mnemonic() + "="@
            }) + comp.mnemonic() + (if jump == Jump::Null {
                Seq::<char>::empty()
            } else {
                ";"@ + jump.mnemonic()
            }) + "\n"@,
            LineView::Label(name) => "("@ + name + ")\n"@,
        }
    }
}

/// The text of `lines`: one after the other.
pub open spec fn render_spec(lines: Seq<LineView>) -> Seq<char>
    decreases lines.len(),
{
    if lines.len() == 0 {
        Seq::empty()
    } else {
        render_spec(lines.drop_last()) + lines.last().text()
    }
}

/// The text of two lists of lines is the text of the first and then that of
/// the second.
pub proof fn lemma_render_concat(a: Seq<LineView>, b: Seq<LineView>)
    ensures
        render_spec(a + b) == render_spec(a) + render_spec(b),
    decreases b.len(),
{
    if b.len() == 0 {
        assert(a + b =~= a);
        assert(render_spec(a) + render_spec(b) =~= render_spec(a));
    } else {
        lemma_render_concat(a, b.drop_last());
        assert((a + b).drop_last() =~= a + b.drop_last());
        assert((a + b).last() == b.last());
        assert(render_spec(a + b) =~= render_spec(a) + render_spec(b));
    }
}

impl Line {
    /// Appends the text of the line, closed by a line feed, to `out`.
    pub fn write(&self, out: &mut String)
        ensures
            final(out)@ == old(out)@ + self@.text(),
    {
        match self {
            Line::Number(n) => {
                out.append("@");
                push_decimal(out, *n as u64);
                out.append("\n");
                assert(out@ =~= old(out)@ + self@.text());
            },
            Line::Symbol(name) => {
                out.append("@");
                out.append(name.as_str());
                out.append("\n");
                assert(out@ =~= old(out)@ + self@.text());
            },
            Line::Compute { dest, comp, jump } => {
                if *dest != Destination::Null {
                    out.append(dest.as_str());
                    out.append("=");
                }
                out.append(comp.as_str());
                if *jump != Jump::Null {
                    out.append(";");
                    out.append(jump.as_str());
                }
                out.append("\n");
                assert(out@ =~= old(out)@ + self@.text());
            },
            Line::Label(name) => {
                out.append("(");
                out.append(name.as_str());
                out.append(")\n");
                assert(out@ =~= old(out)@ + self@.text());
            },
        }
    }
}

/// The text of `lines`.
pub fn render(lines: &Vec<Line>) -> (text: String)
    ensures
        text@ == render_spec(views(lines@)),
{
    let mut text = String::new();
    let mut i: usize = 0;
    while i < lines.len()
        invariant
            i <= lines.len(),
            text@ == render_spec(views(lines@).take(i as int)),
        decreases lines.len() - i,
    {
        lines[i].write(&mut text);
        proof {
            assert(views(lines@).take(i + 1).drop_last() =~= views(lines@).take(i as int));
        }
        i += 1;
    }
    assert(views(lines@).take(lines.len() as int) =~= views(lines@));
    text
}

} // verus!
