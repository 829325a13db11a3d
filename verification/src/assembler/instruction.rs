//! Instructions of Hack assembly and the fields of a C-instruction.

use crate::assembler::token::{Token, TokenView};
use vstd::prelude::*;

verus! {

/// One logical instruction. A label declaration takes no place in the
/// program: only A- and C-instructions do.
#[derive(Debug, PartialEq, Eq)]
pub enum Instruction {
    A(Token),
    C { comp: Computation, dest: Destination, jump: Jump },
    Label(Token),
}

/// The mathematical model of an [`Instruction`].
pub enum InstructionView {
    A(TokenView),
    C { comp: Computation, dest: Destination, jump: Jump },
    Label(TokenView),
}

impl View for Instruction {
    type V = InstructionView;

    open spec fn view(&self) -> InstructionView {
        match self {
            Instruction::A(token) => InstructionView::A(token@),
            Instruction::C { comp, dest, jump } => InstructionView::C {
                comp: *comp,
                dest: *dest,
                jump: *jump,
            },
            Instruction::Label(token) => InstructionView::Label(token@),
        }
    }
}

/// The models of the instructions in `instructions`, in order.
pub open spec fn instruction_views(instructions: Seq<Instruction>) -> Seq<InstructionView> {
    instructions.map_values(|i: Instruction| i@)
}

/// What the ALU computes.
#[derive(Clone, Copy, Debug, PartialEq, Eq, Structural)]
pub enum Computation {
    Zero,
    One,
    NegativeOne,
    D,
    A,
    M,
    NotD,
    NotA,
    NotM,
    NegativeD,
    NegativeA,
    NegativeM,
    DPlusOne,
    APlusOne,
    MPlusOne,
    DMinusOne,
    AMinusOne,
    MMinusOne,
    DPlusA,
    DPlusM,
    DMinusA,
    DMinusM,
    AMinusD,
    MMinusD,
    DAndA,
    DAndM,
    DOrA,
    DOrM,
}

/// Where the result is stored.
#[derive(Clone, Copy, Debug, PartialEq, Eq, Structural)]
pub enum Destination {
    Null,
    M,
    D,
    Md,
    A,
    Am,
    Ad,
    Amd,
}

/// The text was not a destination mnemonic.
#[derive(Debug, PartialEq, Eq, Structural)]
pub struct DestinationParseError;

/// The destination that the mnemonic `s` names, if it names one.
pub open spec fn destination_named(s: Seq<char>) -> Option<Destination> {
    if s == seq!['M'] {
        Some(Destination::M)
    } else if s == seq!['D'] {
        Some(Destination::D)
    } else if s == seq!['M', 'D'] {
        Some(Destination::Md)
    } else if s == seq!['A'] {
        Some(Destination::A)
    } else if s == seq!['A', 'M'] {
        Some(Destination::Am)
    } else if s == seq!['A', 'D'] {
        Some(Destination::Ad)
    } else if s == seq!['A', 'M', 'D'] {
        Some(Destination::Amd)
    } else {
        None
    }
}

impl Destination {
    /// Reads one of the mnemonics `M`, `D`, `MD`, `A`, `AM`, `AD`, `AMD`.
    pub fn from_chars(s: &Vec<char>) -> (r: Result<Destination, DestinationParseError>)
        ensures
            r == match destination_named(s@) {
                Some(dest) => Ok::<Destination, DestinationParseError>(dest),
                None => Err(DestinationParseError),
            },
    {
        let n = s.len();
        if n == 1 && s[0] == 'M' {
            assert(s@ =~= seq!['M']);
            Ok(Destination::M)
        } else if n == 1 && s[0] == 'D' {
            assert(s@ =~= seq!['D']);
            Ok(Destination::D)
        } else if n == 2 && s[0] == 'M' && s[1] == 'D' {
            assert(s@ =~= seq!['M', 'D']);
            Ok(Destination::Md)
        } else if n == 1 && s[0] == 'A' {
            assert(s@ =~= seq!['A']);
            Ok(Destination::A)
        } else if n == 2 && s[0] == 'A' && s[1] == 'M' {
            assert(s@ =~= seq!['A', 'M']);
            Ok(Destination::Am)
        } else if n == 2 && s[0] == 'A' && s[1] == 'D' {
            assert(s@ =~= seq!['A', 'D']);
            Ok(Destination::Ad)
        } else if n == 3 && s[0] == 'A' && s[1] == 'M' && s[2] == 'D' {
            assert(s@ =~= seq!['A', 'M', 'D']);
            Ok(Destination::Amd)
        } else {
            Err(DestinationParseError)
        }
    }

    /// Reads one of the mnemonics `M`, `D`, `MD`, `A`, `AM`, `AD`, `AMD`.
    pub fn from_str(s: &str) -> (r: Result<Destination, DestinationParseError>)
        ensures
            r == match destination_named(s@) {
                Some(dest) => Ok::<Destination, DestinationParseError>(dest),
                None => Err(DestinationParseError),
            },
    {
        Destination::from_chars(&crate::text::chars_of(s))
    }
}

/// When to jump.
#[derive(Clone, Copy, Debug, PartialEq, Eq, Structural)]
pub enum Jump {
    Null,
    Unconditional,
    Greater,
    GreaterEqual,
    Less,
    LessEqual,
    Equal,
    NotEqual,
}

/// The text was not a jump mnemonic.
#[derive(Debug, PartialEq, Eq, Structural)]
pub struct JumpParseError;

/// The jump that the mnemonic `s` names, if it names one.
pub open spec fn jump_named(s: Seq<char>) -> Option<Jump> {
    if s == seq!['J', 'M', 'P'] {
        Some(Jump::Unconditional)
    } else if s == seq!['J', 'G', 'T'] {
        Some(Jump::Greater)
    } else if s == seq!['J', 'G', 'E'] {
        Some(Jump::GreaterEqual)
    } else if s == seq!['J', 'L', 'T'] {
        Some(Jump::Less)
    } else if s == seq!['J', 'L', 'E'] {
        Some(Jump::LessEqual)
    } else if s == seq!['J', 'E', 'Q'] {
        Some(Jump::Equal)
    } else if s == seq!['J', 'N', 'E'] {
        Some(Jump::NotEqual)
    } else {
        None
    }
}

impl Jump {
    /// Reads one of the mnemonics `JMP`, `JGT`, `JGE`, `JLT`, `JLE`, `JEQ`, `JNE`.
    pub fn from_chars(s: &Vec<char>) -> (r: Result<Jump, JumpParseError>)
        ensures
            r == match jump_named(s@) {
                Some(jump) => Ok::<Jump, JumpParseError>(jump),
                None => Err(JumpParseError),
            },
    {
        if s.len() != 3 || s[0] != 'J' {
            return Err(JumpParseError);
        }
        let a = s[1];
        let b = s[2];
        assert(s@ =~= seq!['J', a, b]);
        if a == 'M' && b == 'P' {
            Ok(Jump::Unconditional)
        } else if a == 'G' && b == 'T' {
            Ok(Jump::Greater)
        } else if a == 'G' && b == 'E' {
            Ok(Jump::GreaterEqual)
        } else if a == 'L' && b == 'T' {
            Ok(Jump::Less)
        } else if a == 'L' && b == 'E' {
            Ok(Jump::LessEqual)
        } else if a == 'E' && b == 'Q' {
            Ok(Jump::Equal)
        } else if a == 'N' && b == 'E' {
            Ok(Jump::NotEqual)
        } else {
            assert(seq!['J', a, b][1] == a && seq!['J', a, b][2] == b);
            Err(JumpParseError)
        }
    }

    /// Reads one of the mnemonics `JMP`, `JGT`, `JGE`, `JLT`, `JLE`, `JEQ`, `JNE`.
    pub fn from_str(s: &str) -> (r: Result<Jump, JumpParseError>)
        ensures
            r == match jump_named(s@) {
                Some(jump) => Ok::<Jump, JumpParseError>(jump),
                None => Err(JumpParseError),
            },
    {
        Jump::from_chars(&crate::text::chars_of(s))
    }
}

impl Computation {
    /// How the computation is written.
    pub open spec fn mnemonic(self) -> Seq<char> {
        match self {
            Computation::Zero => "0"@,
            Computation::One => "1"@,
            Computation::NegativeOne => "-1"@,
            Computation::D => "D"@,
            Computation::A => "A"@,
            Computation::M => "M"@,
            Computation::NotD => "!D"@,
            Computation::NotA => "!A"@,
            Computation::NotM => "!M"@,
            Computation::NegativeD => "-D"@,
            Computation::NegativeA => "-A"@,
            Computation::NegativeM => "-M"@,
            Computation::DPlusOne => "D+1"@,
            Computation::APlusOne => "A+1"@,
            Computation::MPlusOne => "M+1"@,
            Computation::DMinusOne => "D-1"@,
            Computation::AMinusOne => "A-1"@,
            Computation::MMinusOne => "M-1"@,
            Computation::DPlusA => "D+A"@,
            Computation::DPlusM => "D+M"@,
            Computation::DMinusA => "D-A"@,
            Computation::DMinusM => "D-M"@,
            Computation::AMinusD => "A-D"@,
            Computation::MMinusD => "M-D"@,
            Computation::DAndA => "D&A"@,
            Computation::DAndM => "D&M"@,
            Computation::DOrA => "D|A"@,
            Computation::DOrM => "D|M"@,
        }
    }

    /// How the computation is written.
    pub fn as_str(self) -> (text: &'static str)
        ensures
            text@ == self.mnemonic(),
    {
        match self {
            Computation::Zero => "0",
            Computation::One => "1",
            Computation::NegativeOne => "-1",
            Computation::D => "D",
            Computation::A => "A",
            Computation::M => "M",
            Computation::NotD => "!D",
            Computation::NotA => "!A",
            Computation::NotM => "!M",
            Computation::NegativeD => "-D",
            Computation::NegativeA => "-A",
            Computation::NegativeM => "-M",
            Computation::DPlusOne => "D+1",
            Computation::APlusOne => "A+1",
            Computation::MPlusOne => "M+1",
            Computation::DMinusOne => "D-1",
            Computation::AMinusOne => "A-1",
            Computation::MMinusOne => "M-1",
            Computation::DPlusA => "D+A",
            Computation::DPlusM => "D+M",
            Computation::DMinusA => "D-A",
            Computation::DMinusM => "D-M",
            Computation::AMinusD => "A-D",
            Computation::MMinusD => "M-D",
            Computation::DAndA => "D&A",
            Computation::DAndM => "D&M",
            Computation::DOrA => "D|A",
            Computation::DOrM => "D|M",
        }
    }
}

impl Destination {
    /// How the destination is written; no destination is written as nothing.
    pub open spec fn mnemonic(self) -> Seq<char> {
        match self {
            Destination::Null => ""@,
            Destination::M => "M"@,
            Destination::D => "D"@,
            Destination::Md => "MD"@,
            Destination::A => "A"@,
            Destination::Am => "AM"@,
            Destination::Ad => "AD"@,
            Destination::Amd => "AMD"@,
        }
    }

    /// How the destination is written.
    pub fn as_str(self) -> (text: &'static str)
        ensures
            text@ == self.mnemonic(),
    {
        match self {
            Destination::Null => "",
            Destination::M => "M",
            Destination::D => "D",
            Destination::Md => "MD",
            Destination::A => "A",
            Destination::Am => "AM",
            Destination::Ad => "AD",
            Destination::Amd => "AMD",
        }
    }

    /// Reading the text of a destination gives the destination back.
    pub proof fn lemma_mnemonic_round_trip(self)
        requires
            self != Destination::Null,
        ensures
            destination_named(self.mnemonic()) == Some(self),
    {
        reveal_strlit("M");
        reveal_strlit("D");
        reveal_strlit("MD");
        reveal_strlit("A");
        reveal_strlit("AM");
        reveal_strlit("AD");
        reveal_strlit("AMD");
        let m = self.mnemonic();
        match self {
            Destination::M => assert(m =~= seq!['M']),
            Destination::D => assert(m =~= seq!['D']),
            Destination::Md => assert(m =~= seq!['M', 'D']),
            Destination::A => assert(m =~= seq!['A']),
            Destination::Am => assert(m =~= seq!['A', 'M']),
            Destination::Ad => assert(m =~= seq!['A', 'D']),
            Destination::Amd => assert(m =~= seq!['A', 'M', 'D']),
            Destination::Null => {},
        }
        assert(seq!['M'][0] == 'M' && seq!['D'][0] == 'D' && seq!['A'][0] == 'A');
        assert(seq!['A', 'M'][1] == 'M' && seq!['A', 'D'][1] == 'D' && seq!['M', 'D'][0] == 'M');
    }
}

impl Jump {
    /// How the jump is written; no jump is written as nothing.
    pub open spec fn mnemonic(self) -> Seq<char> {
        match self {
            Jump::Null => ""@,
            Jump::Unconditional => "JMP"@,
            Jump::Greater => "JGT"@,
            Jump::GreaterEqual => "JGE"@,
            Jump::Less => "JLT"@,
            Jump::LessEqual => "JLE"@,
            Jump::Equal => "JEQ"@,
            Jump::NotEqual => "JNE"@,
        }
    }

    /// How the jump is written.
    pub fn as_str(self) -> (text: &'static str)
        ensures
            text@ == self.mnemonic(),
    {
        match self {
            Jump::Null => "",
            Jump::Unconditional => "JMP",
            Jump::Greater => "JGT",
            Jump::GreaterEqual => "JGE",
            Jump::Less => "JLT",
            Jump::LessEqual => "JLE",
            Jump::Equal => "JEQ",
            Jump::NotEqual => "JNE",
        }
    }

    /// Reading the text of a jump gives the jump back.
    pub proof fn lemma_mnemonic_round_trip(self)
        requires
            self != Jump::Null,
        ensures
            jump_named(self.mnemonic()) == Some(self),
    {
        reveal_strlit("JMP");
        reveal_strlit("JGT");
        reveal_strlit("JGE");
        reveal_strlit("JLT");
        reveal_strlit("JLE");
        reveal_strlit("JEQ");
        reveal_strlit("JNE");
        let m = self.mnemonic();
        match self {
            Jump::Unconditional => assert(m =~= seq!['J', 'M', 'P']),
            Jump::Greater => assert(m =~= seq!['J', 'G', 'T']),
            Jump::GreaterEqual => assert(m =~= seq!['J', 'G', 'E']),
            Jump::Less => assert(m =~= seq!['J', 'L', 'T']),
            Jump::LessEqual => assert(m =~= seq!['J', 'L', 'E']),
            Jump::Equal => assert(m =~= seq!['J', 'E', 'Q']),
            Jump::NotEqual => assert(m =~= seq!['J', 'N', 'E']),
            Jump::Null => {},
        }
        assert(seq!['J', 'M', 'P'][1] == 'M' && seq!['J', 'G', 'T'][1] == 'G' && seq![
            'J',
            'G',
            'T',
        ][2] == 'T' && seq!['J', 'G', 'E'][1] == 'G' && seq!['J', 'G', 'E'][2] == 'E');
        assert(seq!['J', 'L', 'T'][1] == 'L' && seq!['J', 'L', 'T'][2] == 'T' && seq![
            'J',
            'L',
            'E',
        ][1] == 'L' && seq!['J', 'L', 'E'][2] == 'E');
        assert(seq!['J', 'E', 'Q'][1] == 'E' && seq!['J', 'N', 'E'][1] == 'N');
    }
}

} // verus!
