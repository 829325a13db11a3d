//! Tools for the Hack platform: an assembler from symbolic assembly to 16-bit
//! words, a translator from stack-machine commands to symbolic assembly, and
//! a compiler from the syntax tree of a Jack class to stack-machine commands.

pub mod assembler;
pub mod compiler;
pub mod text;
pub mod vm;
