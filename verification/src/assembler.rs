//! The assembler: source text to tokens, tokens to instructions, instructions
//! to 16-bit words, words to the lines of a `.hack` file.

pub mod code;
pub mod error;
pub mod instruction;
pub mod parser;
pub mod scanner;
pub mod theorems;
pub mod token;

use crate::assembler::code::{generate_spec, Generator};
use crate::assembler::error::{Error, ErrorView};
use crate::assembler::parser::{parse_spec, Parser};
use crate::assembler::scanner::{scan_spec, Scanner};
use crate::text::{binary16, push_binary16};
use vstd::prelude::*;

verus! {

/// The lines of a `.hack` file: for each word its sixteen binary digits,
/// most significant first, and a line feed.
pub open spec fn hack_text(words: Seq<u16>) -> Seq<char>
    decreases words.len(),
{
    if words.len() == 0 {
        Seq::empty()
    } else {
        hack_text(words.drop_last()) + binary16(words.last()) + seq!['\n']
    }
}

/// The `.hack` text of the program that `source` writes, or the first error
/// of the first pass that fails: scanning, parsing, code generation.
pub open spec fn assemble_spec(source: Seq<char>) -> Result<Seq<char>, ErrorView> {
    match scan_spec(source) {
        Err(e) => Err(e),
        Ok(tokens) => match parse_spec(tokens) {
            Err(e) => Err(e),
            Ok(instructions) => match generate_spec(instructions) {
                Err(e) => Err(e),
                Ok(words) => Ok(hack_text(words)),
            },
        },
    }
}

/// The `.hack` text of `words`.
pub fn format_words(words: &Vec<u16>) -> (text: String)
    ensures
        text@ == hack_text(words@),
{
    let mut text = String::new();
    let mut i: usize = 0;
    while i < words.len()
        invariant
            i <= words.len(),
            text@ == hack_text(words@.take(i as int)),
        decreases words.len() - i,
    {
        let ghost before = text@;
        push_binary16(&mut text, words[i]);
        text.push('\n');
        proof {
            assert(words@.take(i + 1).drop_last() =~= words@.take(i as int));
            assert(text@ =~= before + binary16(words[i as int]) + seq!['\n']);
        }
        i += 1;
    }
    assert(words@.take(words.len() as int) =~= words@);
    text
}

/// Assembles a program: the lines of its `.hack` file, or the first error.
/// The result depends on the source text alone: the same text gives the same
/// lines, character for character, however often it is assembled.
pub fn assemble(source: &str) -> (r: Result<String, Error>)
    ensures
        match assemble_spec(source@) {
            Ok(text) => r matches Ok(found) && found@ == text,
            Err(e) => r matches Err(found) && found@ == e,
        },
{
    let mut scanner = Scanner::new(source);
    let tokens = match scanner.scan_tokens() {
        Ok(tokens) => tokens,
        Err(e) => return Err(e),
    };
    let mut parser = Parser::new(tokens);
    let instructions = match parser.parse() {
        Ok(instructions) => instructions,
        Err(e) => return Err(e),
    };
    let mut generator = Generator::new(instructions.as_slice());
    match generator.register_labels() {
        Ok(()) => {},
        Err(e) => return Err(e),
    }
    match generator.generate() {
        Ok(words) => Ok(format_words(&words)),
        Err(e) => Err(e),
    }
}

} // verus!
