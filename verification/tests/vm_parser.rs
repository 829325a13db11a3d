use hack_toolchain::vm::parser;
use hack_toolchain::vm::parser::Command::{Add, Sub};
use hack_toolchain::vm::parser::{
    binary_cmd, command, comment, identifier, nullary_cmd, number, parse, segment, unary_cmd,
    Command, Segment,
};

fn name(s: &str) -> String {
    s.to_string()
}

#[test]
fn test_comments() {
    assert_eq!(comment("// hi"), Ok(("", ())));
    assert!(comment("no-comment").is_err());
}

#[test]
fn test_number() {
    assert_eq!(number("0"), Ok(("", 0)));
    assert_eq!(number("1337"), Ok(("", 1337)));
    assert!(number("-1").is_err());
    assert!(number("65536").is_err()); // u16::MAX + 1
}

#[test]
fn test_segment() {
    assert_eq!(segment("local"), Ok(("", Segment::Local)));
    assert_eq!(segment("that"), Ok(("", Segment::That)));
    assert!(segment("foo").is_err());
}

#[test]
fn test_identifier() {
    assert_eq!(identifier("FOO_0"), Ok(("", "FOO_0")));
    assert_eq!(identifier("bar1"), Ok(("", "bar1")));
    assert_eq!(identifier("Foo.bar"), Ok(("", "Foo.bar")));
    assert!(identifier("1foo").is_err());
}

#[test]
fn test_nullary_cmd() {
    assert_eq!(nullary_cmd("add"), Ok(("", Command::Add)));
    assert_eq!(nullary_cmd("lt"), Ok(("", Command::Lt)));
    assert_eq!(nullary_cmd("return"), Ok(("", Command::Return)));
    assert!(nullary_cmd("push").is_err());
}

#[test]
fn test_unary_cmd() {
    assert_eq!(unary_cmd("label   FOO"), Ok(("", Command::Label(name("FOO")))));
    assert_eq!(unary_cmd("goto    FOO"), Ok(("", Command::Goto(name("FOO")))));
    assert_eq!(unary_cmd("if-goto FOO"), Ok(("", Command::IfGoto(name("FOO")))));
    assert!(unary_cmd("label 1").is_err());
    assert!(unary_cmd("call").is_err());
}

#[test]
fn test_binary_cmd() {
    assert_eq!(
        binary_cmd("push this 0"),
        Ok(("", Command::Push(Segment::This, 0)))
    );
    assert_eq!(
        binary_cmd("pop    that    42"),
        Ok(("", Command::Pop(Segment::That, 42)))
    );
    assert_eq!(binary_cmd("call A.b 1"), Ok(("", Command::Call(name("A.b"), 1))));
    assert_eq!(
        binary_cmd("function C.d 0"),
        Ok(("", Command::Function(name("C.d"), 0)))
    );
    assert!(binary_cmd("add").is_err());
    assert!(binary_cmd("pop").is_err());
    assert!(binary_cmd("push that").is_err());
    assert!(binary_cmd("nope that 1").is_err());
    assert!(binary_cmd("pop this -20").is_err());
    assert!(binary_cmd("pop invalidsegment 2").is_err());
    assert!(binary_cmd("function 1error 2").is_err());
}

#[test]
fn test_command() {
    assert_eq!(command("sub"), Ok(("", Command::Sub)));
    assert_eq!(command("label FOO"), Ok(("", Command::Label(name("FOO")))));
    assert_eq!(
        command("push this 0"),
        Ok(("", Command::Push(Segment::This, 0)))
    );
    assert!(command("").is_err());
    assert!(command("// add").is_err());
}

#[test]
fn test_line() {
    assert_eq!(parser::line("add"), Ok(("", Some(Add))));
    assert_eq!(parser::line("add\n"), Ok(("\n", Some(Add))));
    assert_eq!(parser::line("  add  \n"), Ok(("\n", Some(Add))));
    assert_eq!(parser::line("add// hi\n"), Ok(("\n", Some(Add))));
    assert_eq!(parser::line("add //hi\n"), Ok(("\n", Some(Add))));
    assert_eq!(parser::line("\n"), Ok(("\n", None)));
    assert_eq!(parser::line("  \n"), Ok(("\n", None)));
    assert_eq!(parser::line("// hi\n"), Ok(("\n", None)));
    assert_eq!(parser::line("    // hi\n"), Ok(("\n", None)));
    assert_eq!(parser::line("foo\n"), Ok(("foo\n", None)));
}

#[test]
fn test_parse() {
    assert_eq!(parse(""), Ok(("", vec![None])));
    assert_eq!(parse("\n"), Ok(("", vec![None, None])));
    assert_eq!(parse("\nadd"), Ok(("", vec![None, Some(Add)])));
    assert_eq!(parse("add"), Ok(("", vec![Some(Add)])));
    assert_eq!(parse("add\nfoo"), Ok(("foo", vec![Some(Add), None])));
    assert_eq!(parse("add\n  sub"), Ok(("", vec![Some(Add), Some(Sub)])));
    assert_eq!(parse("add\n// hi\n"), Ok(("", vec![Some(Add), None, None])));
    assert_eq!(parse("pop this \n0"), Ok(("pop this \n0", vec![None])));
}
