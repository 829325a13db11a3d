//! The grammar of the stack-machine commands, written a second time with
//! parser combinators, and held against the library's parser on many texts.

use hack_toolchain::vm::parser;
use hack_toolchain::vm::parser::{Command, Segment};
use nom::branch::alt;
use nom::bytes::complete::tag;
use nom::character::complete::{
    alpha1, alphanumeric1, digit1, line_ending, not_line_ending, space0, space1,
};
use nom::combinator;
use nom::combinator::{map_res, opt, recognize};
use nom::multi::{many0, separated_list0};
use nom::sequence::{delimited, pair, preceded, terminated, tuple};
use nom::IResult;

fn comment(input: &str) -> IResult<&str, ()> {
    combinator::map(preceded(tag("//"), not_line_ending), |_| ())(input)
}

fn number(input: &str) -> IResult<&str, u16> {
    map_res(digit1, |s: &str| s.parse())(input)
}

fn identifier(input: &str) -> IResult<&str, &str> {
    recognize(pair(
        alt((alpha1, tag("_"))),
        many0(alt((alphanumeric1, tag("_"), tag(".")))),
    ))(input)
}

fn segment(input: &str) -> IResult<&str, Segment> {
    alt((
        combinator::map(tag("local"), |_| Segment::Local),
        combinator::map(tag("argument"), |_| Segment::Argument),
        combinator::map(tag("this"), |_| Segment::This),
        combinator::map(tag("that"), |_| Segment::That),
        combinator::map(tag("constant"), |_| Segment::Constant),
        combinator::map(tag("static"), |_| Segment::Static),
        combinator::map(tag("pointer"), |_| Segment::Pointer),
        combinator::map(tag("temp"), |_| Segment::Temp),
    ))(input)
}

fn nullary_cmd(input: &str) -> IResult<&str, Command> {
    alt((
        combinator::map(tag("add"), |_| Command::Add),
        combinator::map(tag("sub"), |_| Command::Sub),
        combinator::map(tag("neg"), |_| Command::Neg),
        combinator::map(tag("eq"), |_| Command::Eq),
        combinator::map(tag("gt"), |_| Command::Gt),
        combinator::map(tag("lt"), |_| Command::Lt),
        combinator::map(tag("and"), |_| Command::And),
        combinator::map(tag("or"), |_| Command::Or),
        combinator::map(tag("not"), |_| Command::Not),
        combinator::map(tag("return"), |_| Command::Return),
    ))(input)
}

fn unary_cmd(input: &str) -> IResult<&str, Command> {
    combinator::map(
        pair(
            alt((tag("label"), tag("goto"), tag("if-goto"))),
            preceded(space1, identifier),
        ),
        |(cmd, ident): (&str, &str)| match cmd {
            "label" => Command::Label(ident.to_string()),
            "goto" => Command::Goto(ident.to_string()),
            _ => Command::IfGoto(ident.to_string()),
        },
    )(input)
}

fn pop_or_push(input: &str) -> IResult<&str, Command> {
    combinator::map(
        tuple((
            alt((tag("pop"), tag("push"))),
            delimited(space1, segment, space1),
            number,
        )),
        |(cmd, seg, n): (&str, Segment, u16)| match cmd {
            "pop" => Command::Pop(seg, n),
            _ => Command::Push(seg, n),
        },
    )(input)
}

fn call_or_function(input: &str) -> IResult<&str, Command> {
    combinator::map(
        tuple((
            alt((tag("call"), tag("function"))),
            delimited(space1, identifier, space1),
            number,
        )),
        |(cmd, ident, n): (&str, &str, u16)| match cmd {
            "call" => Command::Call(ident.to_string(), n),
            _ => Command::Function(ident.to_string(), n),
        },
    )(input)
}

fn binary_cmd(input: &str) -> IResult<&str, Command> {
    alt((pop_or_push, call_or_function))(input)
}

fn command(input: &str) -> IResult<&str, Command> {
    alt((nullary_cmd, unary_cmd, binary_cmd))(input)
}

fn line(input: &str) -> IResult<&str, Option<Command>> {
    preceded(
        space0,
        alt((
            combinator::map(terminated(command, pair(space0, opt(comment))), Some),
            combinator::map(opt(comment), |_| None),
        )),
    )(input)
}

fn parse(input: &str) -> IResult<&str, Vec<Option<Command>>> {
    separated_list0(line_ending, line)(input)
}

const PIECES: [&str; 58] = [
    "add", "sub", "neg", "eq", "gt", "lt", "and", "or", "not", "return", "label", "goto",
    "if-goto", "push", "pop", "call", "function", "local", "argument", "this", "that",
    "constant", "static", "pointer", "temp", " ", " ", " ", "  ", "\t", "\n", "\n", "\n", "\r\n",
    "\r", "//", "/", "0", "7", "42", "007", "65535", "65536", "99999", "x", "Foo.bar", "_a",
    "a_b.c1", "1x", "-", "\u{e9}", "#", ".", "_", "$", "A", "z9", "if",
];

/// Texts made of the pieces above, in an order that a fixed sequence
/// of numbers gives.
fn texts(count: usize) -> Vec<String> {
    let mut state: u64 = 0x2545F4914F6CDD1D;
    let mut next = move |bound: usize| {
        state = state.wrapping_mul(6364136223846793005).wrapping_add(1442695040888963407);
        ((state >> 33) as usize) % bound
    };
    let mut all = vec![];
    for _ in 0..count {
        let mut text = String::new();
        for _ in 0..1 + next(9) {
            text += PIECES[next(PIECES.len())];
        }
        all.push(text);
    }
    all
}

fn same<'a, T: PartialEq + std::fmt::Debug>(
    text: &str,
    ours: Result<(&'a str, T), parser::SyntaxError>,
    theirs: IResult<&'a str, T>,
) {
    match (ours, theirs) {
        (Ok(a), Ok(b)) => assert_eq!(a, b, "on {:?}", text),
        (Err(_), Err(_)) => {}
        (a, b) => panic!("on {:?}: {:?} against {:?}", text, a, b),
    }
}

#[test]
fn both_grammars_read_whole_files_alike() {
    for text in texts(30000) {
        same(&text, parser::parse(&text), parse(&text));
    }
}

#[test]
fn both_grammars_read_lines_and_commands_alike() {
    for text in texts(20000) {
        same(&text, parser::line(&text), line(&text));
        same(&text, parser::command(&text), command(&text));
        same(&text, parser::nullary_cmd(&text), nullary_cmd(&text));
        same(&text, parser::unary_cmd(&text), unary_cmd(&text));
        same(&text, parser::binary_cmd(&text), binary_cmd(&text));
        same(&text, parser::pop_or_push(&text), pop_or_push(&text));
        same(&text, parser::call_or_function(&text), call_or_function(&text));
    }
}

#[test]
fn both_grammars_read_words_alike() {
    for text in texts(20000) {
        same(&text, parser::comment(&text), comment(&text));
        same(&text, parser::number(&text), number(&text));
        same(&text, parser::identifier(&text), identifier(&text));
        same(&text, parser::segment(&text), segment(&text));
    }
}

#[test]
fn both_grammars_read_a_program_alike() {
    let program = "// Computes 1 + 2 + ... + n\r\n\
                   function Main.sum 1 // one local\n\
                   \tpush constant 0\n\
                   \tpop local 0\n\
                   label LOOP\n\
                   \tpush argument 0\n\
                   \tif-goto BODY\n\
                   \tgoto END\n\
                   label BODY\n\
                   \tpush local 0\n  push argument 0\n  add\n  pop local 0\n\
                   \tpush argument 0\n  push constant 1\n  sub\n  pop argument 0\n\
                   \tgoto LOOP\n\
                   label END\n\
                   \tpush local 0\n\
                   \treturn\n\
                   \n\
                   function Sys.init 0\n\
                   \tpush constant 10\n\
                   \tcall Main.sum 1\n\
                   \tpop temp 0\n\
                   label HALT\n\
                   \tgoto HALT";
    same(program, parser::parse(program), parse(program));
    let (rest, commands) = parser::parse(program).unwrap();
    assert_eq!(rest, "");
    assert_eq!(commands.len(), 28);
    assert_eq!(commands.iter().flatten().count(), 26);
}
