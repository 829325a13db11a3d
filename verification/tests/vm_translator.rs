use hack_toolchain::compiler::writer::{can_write, command_to_str, segment_to_str};
use hack_toolchain::vm::code::{boot, translate, translate_lines};
use hack_toolchain::vm::error::Error;
use hack_toolchain::vm::lines::{render, Line};
use hack_toolchain::vm::parser::{parse, Command, Segment};
use hack_toolchain::vm::{translate_program, translate_str, Unit};
use hack_toolchain::assembler::instruction::{Computation, Destination, Jump};

const TAKE_ONE: &str = "@SP\nAM=M-1\nD=M\n";
const TAKE_TWO: &str = "@SP\nAM=M-1\nD=M\n@SP\nA=M-1\n";
const PUSH_D: &str = "@SP\nA=M\nM=D\n@SP\nM=M+1\n";

fn text(source: &str) -> String {
    translate_str(source, "Foo").unwrap()
}

fn labels(assembly: &str) -> Vec<&str> {
    assembly.lines().filter(|l| l.starts_with('(')).collect()
}

#[test]
fn writes_push_for_each_segment() {
    assert_eq!(text("push constant 7"), format!("@7\nD=A\n{PUSH_D}"));
    assert_eq!(text("push local 2"), format!("@2\nD=A\n@LCL\nAD=D+M\nD=M\n{PUSH_D}"));
    assert_eq!(text("push argument 0"), format!("@0\nD=A\n@ARG\nAD=D+M\nD=M\n{PUSH_D}"));
    assert_eq!(text("push this 65535"), format!("@65535\nD=A\n@THIS\nAD=D+M\nD=M\n{PUSH_D}"));
    assert_eq!(text("push that 3"), format!("@3\nD=A\n@THAT\nAD=D+M\nD=M\n{PUSH_D}"));
    assert_eq!(text("push temp 6"), format!("@6\nD=A\n@5\nAD=D+A\nD=M\n{PUSH_D}"));
    assert_eq!(text("push static 4"), format!("@Foo.4\nD=M\n{PUSH_D}"));
    assert_eq!(text("push pointer 0"), format!("@THIS\nD=M\n{PUSH_D}"));
    assert_eq!(text("push pointer 1"), format!("@THAT\nD=M\n{PUSH_D}"));
}

#[test]
fn writes_pop_for_each_segment() {
    let store = "@R13\nA=M\nM=D\n";
    assert_eq!(
        text("pop local 2"),
        format!("@2\nD=A\n@LCL\nD=D+M\n@R13\nM=D\n{TAKE_ONE}{store}")
    );
    assert_eq!(
        text("pop argument 1"),
        format!("@1\nD=A\n@ARG\nD=D+M\n@R13\nM=D\n{TAKE_ONE}{store}")
    );
    assert_eq!(
        text("pop this 0"),
        format!("@0\nD=A\n@THIS\nD=D+M\n@R13\nM=D\n{TAKE_ONE}{store}")
    );
    assert_eq!(
        text("pop that 9"),
        format!("@9\nD=A\n@THAT\nD=D+M\n@R13\nM=D\n{TAKE_ONE}{store}")
    );
    assert_eq!(
        text("pop temp 7"),
        format!("@7\nD=A\n@5\nD=D+A\n@R13\nM=D\n{TAKE_ONE}{store}")
    );
    assert_eq!(text("pop static 12"), format!("{TAKE_ONE}@Foo.12\nM=D\n"));
    assert_eq!(text("pop pointer 0"), format!("{TAKE_ONE}@THIS\nM=D\n"));
    assert_eq!(text("pop pointer 1"), format!("{TAKE_ONE}@THAT\nM=D\n"));
}

#[test]
fn writes_arithmetic() {
    assert_eq!(text("add"), format!("{TAKE_TWO}M=D+M\n"));
    assert_eq!(text("sub"), format!("{TAKE_TWO}M=M-D\n"));
    assert_eq!(text("and"), format!("{TAKE_TWO}M=D&M\n"));
    assert_eq!(text("or"), format!("{TAKE_TWO}M=D|M\n"));
    assert_eq!(text("neg"), "@SP\nA=M-1\nM=-M\n");
    assert_eq!(text("not"), "@SP\nA=M-1\nM=!M\n");
}

#[test]
fn writes_comparisons_with_their_own_labels() {
    let compare = |jump: &str, n: usize| {
        format!(
            "{TAKE_TWO}D=M-D\nM=-1\n@COND_Foo_{n}\nD;{jump}\n@SP\nA=M-1\nM=0\n(COND_Foo_{n})\n"
        )
    };
    assert_eq!(text("eq"), compare("JEQ", 0));
    assert_eq!(text("gt"), compare("JGT", 0));
    assert_eq!(text("lt"), compare("JLT", 0));
    assert_eq!(
        text("eq\nadd\nlt\ngt\n"),
        format!(
            "{}{TAKE_TWO}M=D+M\n{}{}",
            compare("JEQ", 0),
            compare("JLT", 1),
            compare("JGT", 2)
        )
    );
}

#[test]
fn writes_branches() {
    assert_eq!(text("label LOOP"), "(LOOP)\n");
    assert_eq!(text("goto LOOP"), "@LOOP\n0;JMP\n");
    assert_eq!(text("if-goto LOOP"), format!("{TAKE_ONE}@LOOP\nD;JNE\n"));
}

#[test]
fn writes_a_function_with_its_locals() {
    let zero = "@SP\nA=M\nM=0\n@SP\nM=M+1\n";
    assert_eq!(text("function Foo.bar 0"), "(Foo.bar)\n");
    assert_eq!(text("function Foo.bar 1"), format!("(Foo.bar)\n{zero}"));
    assert_eq!(text("function Foo.bar 3"), format!("(Foo.bar)\n{zero}{zero}{zero}"));
}

#[test]
fn writes_a_return() {
    assert_eq!(
        text("return"),
        format!(
            "@LCL\nD=M\n@R14\nM=D\n\
             @5\nA=D-A\nD=M\n@R15\nM=D\n\
             {TAKE_ONE}@ARG\nA=M\nM=D\n\
             D=A\n@SP\nM=D+1\n\
             @R14\nA=M-1\nD=M\n@THAT\nM=D\n\
             @R14\nD=M-1\nA=D-1\nD=M\n@THIS\nM=D\n\
             @R14\nD=M-1\nD=D-1\nA=D-1\nD=M\n@ARG\nM=D\n\
             @R14\nD=M-1\nD=D-1\nD=D-1\nA=D-1\nD=M\n@LCL\nM=D\n\
             @R15\nA=M\n0;JMP\n"
        )
    );
}

fn call_text(function: &str, prefix: &str, arguments: u16, n: usize) -> String {
    format!(
        "@CALL_RET_{prefix}_{n}\nD=A\n{PUSH_D}\
         @LCL\nD=M\n{PUSH_D}@ARG\nD=M\n{PUSH_D}@THIS\nD=M\n{PUSH_D}@THAT\nD=M\n{PUSH_D}\
         @SP\nD=M\n@5\nD=D-A\n@{arguments}\nD=D-A\n@ARG\nM=D\n\
         @SP\nD=M\n@LCL\nM=D\n\
         @{function}\n0;JMP\n(CALL_RET_{prefix}_{n})\n"
    )
}

#[test]
fn writes_calls_with_their_own_return_labels() {
    assert_eq!(text("call Foo.bar 2"), call_text("Foo.bar", "Foo", 2, 0));
    assert_eq!(
        text("call A.b 0\neq\ncall C.d 7\n"),
        format!(
            "{}{}{}",
            call_text("A.b", "Foo", 0, 0),
            text("eq"),
            call_text("C.d", "Foo", 7, 1)
        )
    );
}

#[test]
fn a_program_starts_with_the_stack_and_a_call_of_sys_init() {
    let start = format!("@256\nD=A\n@SP\nM=D\n{}", call_text("Sys.init", "BOOT", 0, 0));
    assert_eq!(boot(), start);
    assert_eq!(translate_program(&[]).unwrap(), start);
    let units = vec![
        Unit { name: "Main".to_string(), source: "call Main.f 0\neq\n".to_string() },
        Unit { name: "Other".to_string(), source: "eq\ncall Other.g 1\n".to_string() },
    ];
    assert_eq!(
        translate_program(&units).unwrap(),
        format!(
            "{start}{}{}",
            translate_str("call Main.f 0\neq\n", "Main").unwrap(),
            translate_str("eq\ncall Other.g 1\n", "Other").unwrap()
        )
    );
}

#[test]
fn made_labels_never_collide() {
    let units = vec![
        Unit { name: "A".to_string(), source: "eq\ngt\ncall A.f 0\ncall A.f 0\nlt\n".to_string() },
        Unit { name: "A_1".to_string(), source: "eq\ncall A.f 0\n".to_string() },
        Unit { name: "B".to_string(), source: "eq\ncall A.f 0\neq\n".to_string() },
    ];
    let assembly = translate_program(&units).unwrap();
    let mut found = labels(&assembly);
    assert_eq!(
        found,
        vec![
            "(CALL_RET_BOOT_0)",
            "(COND_A_0)",
            "(COND_A_1)",
            "(CALL_RET_A_0)",
            "(CALL_RET_A_1)",
            "(COND_A_2)",
            "(COND_A_1_0)",
            "(CALL_RET_A_1_0)",
            "(COND_B_0)",
            "(CALL_RET_B_0)",
            "(COND_B_1)",
        ]
    );
    found.sort();
    found.dedup();
    assert_eq!(found.len(), 11);
}

#[test]
fn two_files_with_one_prefix_make_the_same_labels() {
    let one = translate_str("eq\ncall F.g 0\n", "Same").unwrap();
    let other = translate_str("lt\ncall F.h 1\n", "Same").unwrap();
    assert_eq!(labels(&one), vec!["(COND_Same_0)", "(CALL_RET_Same_0)"]);
    assert_eq!(labels(&one), labels(&other));
    let different = translate_str("lt\ncall F.h 1\n", "Other").unwrap();
    assert_eq!(labels(&different), vec!["(COND_Other_0)", "(CALL_RET_Other_0)"]);
}

#[test]
fn a_translation_starts_its_counters_anew() {
    assert_eq!(text("eq\ncall F.g 0"), text("eq\ncall F.g 0"));
    assert!(text("eq").contains("COND_Foo_0"));
}

#[test]
fn rejects_commands_that_name_no_place() {
    assert_eq!(translate_str("pop constant 3", "Foo"), Err(Error::PopConstant));
    assert_eq!(translate_str("push pointer 2", "Foo"), Err(Error::PointerIndex { index: 2 }));
    assert_eq!(translate_str("pop pointer 65535", "Foo"), Err(Error::PointerIndex { index: 65535 }));
    assert_eq!(
        translate_str("add\npop pointer 2\npop constant 0\n", "Foo"),
        Err(Error::PointerIndex { index: 2 })
    );
    assert_eq!(
        translate(&[Some(Command::Pop(Segment::Constant, 0))], "Foo"),
        Err(Error::PopConstant)
    );
    assert_eq!(Error::PopConstant.to_string(), "`pop constant i` doesn't make sense");
    assert_eq!(
        Error::PointerIndex { index: 2 }.to_string(),
        "pointer segment only supports 0 and 1"
    );
}

#[test]
fn rejects_text_that_is_no_command() {
    assert_eq!(translate_str("add\nfoo\nsub\n", "Foo"), Err(Error::Syntax { line: 2 }));
    assert_eq!(translate_str("push constant 65536", "Foo"), Err(Error::Syntax { line: 1 }));
    assert_eq!(translate_str("\n\n\npop this", "Foo"), Err(Error::Syntax { line: 4 }));
    assert_eq!(translate_str("addx", "Foo"), Err(Error::Syntax { line: 1 }));
    assert_eq!(translate_str("add // ok \r more", "Foo"), Err(Error::Syntax { line: 1 }));
    assert_eq!(translate_str("pop constant 1\nfoo", "Foo"), Err(Error::Syntax { line: 2 }));
    assert_eq!(Error::Syntax { line: 12 }.to_string(), "[line 12] failed to parse entire input");
    let units = vec![
        Unit { name: "Good".to_string(), source: "add\n".to_string() },
        Unit { name: "Bad".to_string(), source: "add\n?\n".to_string() },
        Unit { name: "Worse".to_string(), source: "pop constant 1\n".to_string() },
    ];
    assert_eq!(translate_program(&units), Err(Error::Syntax { line: 2 }));
}

#[test]
fn reads_windows_line_ends_and_comments() {
    assert_eq!(
        text("// header\r\n  push constant 1 // one\r\n\r\n\tadd//sum\n"),
        format!("@1\nD=A\n{PUSH_D}{TAKE_TWO}M=D+M\n")
    );
    assert_eq!(text(""), "");
    assert_eq!(text("\n\n// nothing\n"), "");
}

#[test]
fn empty_lines_give_no_code() {
    let commands = vec![None, Some(Command::Add), None, None, Some(Command::Neg), None];
    assert_eq!(translate(&commands, "Foo").unwrap(), format!("{}{}", text("add"), text("neg")));
    assert_eq!(translate(&[], "Foo").unwrap(), "");
    assert_eq!(translate(&[None], "Foo").unwrap(), "");
}

#[test]
fn lines_are_rendered_one_by_one() {
    let lines = vec![
        Line::Number(0),
        Line::Number(65535),
        Line::Symbol("Foo.1".to_string()),
        Line::Label("END".to_string()),
        Line::Compute { dest: Destination::Null, comp: Computation::Zero, jump: Jump::Null },
        Line::Compute { dest: Destination::Amd, comp: Computation::DOrM, jump: Jump::Null },
        Line::Compute { dest: Destination::Null, comp: Computation::D, jump: Jump::LessEqual },
        Line::Compute { dest: Destination::M, comp: Computation::MMinusD, jump: Jump::NotEqual },
    ];
    assert_eq!(render(&lines), "@0\n@65535\n@Foo.1\n(END)\n0\nAMD=D|M\nD;JLE\nM=M-D;JNE\n");
    assert_eq!(render(&vec![]), "");
    let (_, commands) = parse("push constant 1\neq").unwrap();
    assert_eq!(render(&translate_lines(&commands, "Foo").unwrap()), text("push constant 1\neq"));
}

#[test]
fn writes_the_commands_of_the_compiler() {
    let name = |s: &str| s.to_string();
    assert_eq!(command_to_str(&Command::Add, "Main"), "add");
    assert_eq!(command_to_str(&Command::Function(name("run"), 2), "Main"), "function Main.run 2");
    assert_eq!(command_to_str(&Command::Call(name("Output.print"), 1), "Main"), "call Output.print 1");
    assert_eq!(command_to_str(&Command::Push(Segment::Constant, 42), "Main"), "push constant 42");
    assert_eq!(command_to_str(&Command::Push(Segment::That, 0), "Main"), "push that 0");
    assert!(can_write(&Command::Add));
    assert!(can_write(&Command::Push(Segment::Local, 1)));
    assert!(!can_write(&Command::Sub));
    assert!(!can_write(&Command::Pop(Segment::Local, 1)));
    assert!(!can_write(&Command::Return));
    assert!(!can_write(&Command::Label(name("L"))));
    let segments = [
        (Segment::Local, "local"),
        (Segment::Argument, "argument"),
        (Segment::This, "this"),
        (Segment::That, "that"),
        (Segment::Constant, "constant"),
        (Segment::Static, "static"),
        (Segment::Pointer, "pointer"),
        (Segment::Temp, "temp"),
    ];
    for (segment, text) in segments {
        assert_eq!(segment_to_str(segment), text);
        let written = command_to_str(&Command::Push(segment, 7), "Main");
        assert_eq!(parse(&written), Ok(("", vec![Some(Command::Push(segment, 7))])));
    }
}
