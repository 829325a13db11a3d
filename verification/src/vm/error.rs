//! What can go wrong while translating stack-machine commands.

use crate::text::{decimal, push_decimal};
use vstd::prelude::*;
use vstd::string::StringExecFns;

verus! {

/// An error of the translator.
#[derive(Clone, Copy, Debug, PartialEq, Eq, Structural)]
pub enum Error {
    /// The line with this number, the first being 1, could not be read to
    /// its end.
    Syntax { line: usize },
    /// `pop constant`: a constant is no place to store to.
    PopConstant,
    /// `pointer` with an index other than 0 and 1.
    PointerIndex { index: u16 },
}

impl Error {
    /// The diagnostic that reports this error.
    pub open spec fn text(self) -> Seq<char> {
        match self {
            Error::Syntax { line } => "[line "@ + decimal(line as nat)
                + "] failed to parse entire input"@,
            Error::PopConstant => "`pop constant i` doesn't make sense"@,
            Error::PointerIndex { index } => "pointer segment only supports 0 and 1"@,
        }
    }

    /// The diagnostic that reports this error, without a line break.
    pub fn to_string(&self) -> (out: String)
        ensures
            out@ == self.text(),
    {
        match self {
            Error::Syntax { line } => {
                let mut out = String::from_str("[line ");
                push_decimal(&mut out, *line as u64);
                out.append("] failed to parse entire input");
                out
            },
            Error::PopConstant => String::from_str("`pop constant i` doesn't make sense"),
            Error::PointerIndex { index } => String::from_str(
                "pointer segment only supports 0 and 1",
            ),
        }
    }
}

} // verus!
