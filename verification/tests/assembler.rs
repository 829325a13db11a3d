use hack_toolchain::assembler::code::{
    translate_a_number, translate_c, translate_comp, translate_dest, translate_jump, Generator,
};
use hack_toolchain::assembler::error::Error;
use hack_toolchain::assembler::instruction::{
    Computation, Destination, DestinationParseError, Instruction, Jump, JumpParseError,
};
use hack_toolchain::assembler::parser::Parser;
use hack_toolchain::assembler::scanner::Scanner;
use hack_toolchain::assembler::token::{Kind, Token};
use hack_toolchain::assembler::{assemble, format_words};

fn lines(text: &str) -> Vec<&str> {
    text.lines().collect()
}

fn scan(source: &str) -> Result<Vec<Token>, Error> {
    let mut scanner = Scanner::new(source);
    let tokens = scanner.scan_tokens()?;
    Ok(tokens.to_vec())
}

fn token(kind: Kind, line: usize, lexeme: &str) -> Token {
    Token::new(kind, line, lexeme.to_string())
}

fn ident(name: &str, line: usize) -> Token {
    token(Kind::Identifier(name.to_string()), line, name)
}

fn parse(source: &str) -> Result<Vec<Instruction>, Error> {
    let tokens = scan(source).unwrap();
    let mut parser = Parser::new(&tokens);
    parser.parse()
}

fn parse_error(source: &str) -> (Token, &'static str) {
    match parse(source) {
        Err(Error::Parse { token, message }) => (token, message),
        other => panic!("expected a parse error, got {:?}", other),
    }
}

fn c(dest: Destination, comp: Computation, jump: Jump) -> Instruction {
    Instruction::C { dest, comp, jump }
}

#[test]
fn assembles_straight_line_program() {
    let out = assemble("@2\nD=A\n@3\nD=D+A\n@0\nM=D\n").unwrap();
    assert_eq!(
        out,
        "0000000000000010\n1110110000010000\n0000000000000011\n\
         1110000010010000\n0000000000000000\n1110001100001000\n"
    );
}

#[test]
fn assembles_labels_and_variables() {
    let out = assemble("(LOOP)\n@i\nM=M+1\n@LOOP\n0;JMP\n").unwrap();
    assert_eq!(
        lines(&out),
        vec![
            "0000000000010000",
            "1111110111001000",
            "0000000000000000",
            "1110101010000111",
        ]
    );
}

#[test]
fn assembly_is_repeatable() {
    let source = "// sum\n@i\nM=1\n(LOOP)\n@i\nD=M\n@100\nD=D-A\n@END\nD;JGT\n@LOOP\n0;JMP\n(END)\n@END\n0;JMP\n";
    assert_eq!(assemble(source), assemble(source));
    assert_eq!(assemble(source).unwrap(), assemble(&source.to_string()).unwrap());
}

#[test]
fn one_line_for_each_instruction_that_is_no_label() {
    let source = "(A)\n(B)\n@1\n\n// note\n(C)\nD=A // load\n(D)\n@A\n0;JMP\n(E)\n";
    let out = assemble(source).unwrap();
    assert_eq!(lines(&out).len(), 4);
    assert_eq!(out.len(), 4 * 17);
    for line in lines(&out) {
        assert_eq!(line.len(), 16);
        assert!(line.chars().all(|c| c == '0' || c == '1'));
    }
    assert_eq!(assemble("").unwrap(), "");
    assert_eq!(assemble("(ONLY)\n").unwrap(), "");
}

#[test]
fn a_symbol_gives_one_word_wherever_it_stands() {
    let out = assemble("@x\n@y\n@x\nD=A\n@y\n@x\n").unwrap();
    let l = lines(&out);
    assert_eq!(l[0], l[2]);
    assert_eq!(l[0], l[5]);
    assert_eq!(l[1], l[4]);
    assert_ne!(l[0], l[1]);
}

#[test]
fn predefined_symbols_have_their_addresses() {
    let mut source = String::new();
    for i in 0..16 {
        source += &format!("@R{}\n", i);
    }
    source += "@SCREEN\n@KBD\n@SP\n@LCL\n@ARG\n@THIS\n@THAT\n";
    let out = assemble(&source).unwrap();
    let l = lines(&out);
    for i in 0..16 {
        assert_eq!(l[i], format!("{:016b}", i));
    }
    assert_eq!(l[0], "0000000000000000");
    assert_eq!(l[15], "0000000000001111");
    assert_eq!(l[16], "0100000000000000");
    assert_eq!(l[17], "0110000000000000");
    assert_eq!(&l[18..], &[
        "0000000000000000",
        "0000000000000001",
        "0000000000000010",
        "0000000000000011",
        "0000000000000100",
    ]);
}

#[test]
fn a_label_may_take_the_name_of_a_predefined_symbol() {
    let out = assemble("@1\n(R0)\n@R0\n").unwrap();
    assert_eq!(lines(&out), vec!["0000000000000001", "0000000000000001"]);
}

#[test]
fn variables_take_the_addresses_from_16_in_order() {
    let out = assemble("@first\n@second\n@R5\n@first\n@third\n@7\n@fourth\n").unwrap();
    assert_eq!(
        lines(&out),
        vec![
            "0000000000010000",
            "0000000000010001",
            "0000000000000101",
            "0000000000010000",
            "0000000000010010",
            "0000000000000111",
            "0000000000010011",
        ]
    );
}

#[test]
fn a_label_that_nothing_refers_to_changes_no_word() {
    let plain = "@i\nM=1\n@i\nD=M\n@2\n0;JMP\n";
    let labelled = "(START)\n@i\nM=1\n(MIDDLE)\n(TWICE)\n@i\nD=M\n@2\n(LATE)\n0;JMP\n(END)\n";
    assert_eq!(assemble(plain), assemble(labelled));
}

#[test]
fn a_label_stands_for_the_address_of_the_next_instruction() {
    let with_label = assemble("@0\n@1\n(HERE)\n(ALSO)\n@2\n@HERE\n@ALSO\n").unwrap();
    let with_number = assemble("@0\n@1\n@2\n@2\n@2\n").unwrap();
    assert_eq!(with_label, with_number);
}

#[test]
fn a_label_behind_the_last_instruction_stays_unbound() {
    let out = assemble("@END\n0;JMP\n(END)\n").unwrap();
    assert_eq!(lines(&out)[0], "0000000000010000");
}

#[test]
fn a_numbers_high_bit_is_cleared() {
    assert_eq!(assemble("@32767\n").unwrap(), "0111111111111111\n");
    assert_eq!(assemble("@32768\n").unwrap(), "0000000000000000\n");
    assert_eq!(assemble("@65535\n").unwrap(), "0111111111111111\n");
    assert_eq!(translate_a_number(40000), 40000 & 0x7FFF);
}

#[test]
fn the_last_line_needs_no_line_break() {
    assert_eq!(assemble("@2\nD=A").unwrap(), "0000000000000010\n1110110000010000\n");
    assert_eq!(assemble("(L)\n@L").unwrap(), "0000000000000000\n");
    assert_eq!(assemble("0;JMP").unwrap(), "1110101010000111\n");
}

#[test]
fn scans_every_kind_of_token() {
    let tokens = scan("@12 (a.b$_1)\n=;!-+&| // c @\r\n\tD").unwrap();
    assert_eq!(
        tokens,
        vec![
            token(Kind::At, 1, "@"),
            token(Kind::Number(12), 1, "12"),
            token(Kind::LeftParen, 1, "("),
            ident("a.b$_1", 1),
            token(Kind::RightParen, 1, ")"),
            token(Kind::LineBreak, 1, "\n"),
            token(Kind::Equal, 2, "="),
            token(Kind::Semicolon, 2, ";"),
            token(Kind::Bang, 2, "!"),
            token(Kind::Minus, 2, "-"),
            token(Kind::Plus, 2, "+"),
            token(Kind::Ampersand, 2, "&"),
            token(Kind::Pipe, 2, "|"),
            token(Kind::LineBreak, 2, "\n"),
            ident("D", 3),
            token(Kind::Eof, 3, ""),
        ]
    );
}

#[test]
fn scans_the_longest_token() {
    assert_eq!(
        scan("12abc").unwrap(),
        vec![token(Kind::Number(12), 1, "12"), ident("abc", 1), token(Kind::Eof, 1, "")]
    );
    assert_eq!(
        scan("007").unwrap(),
        vec![token(Kind::Number(7), 1, "007"), token(Kind::Eof, 1, "")]
    );
    assert_eq!(
        scan("65535").unwrap(),
        vec![token(Kind::Number(65535), 1, "65535"), token(Kind::Eof, 1, "")]
    );
    assert_eq!(scan("").unwrap(), vec![token(Kind::Eof, 1, "")]);
    assert_eq!(scan("// only a comment").unwrap(), vec![token(Kind::Eof, 1, "")]);
    assert_eq!(
        scan("//\n\n").unwrap(),
        vec![
            token(Kind::LineBreak, 1, "\n"),
            token(Kind::LineBreak, 2, "\n"),
            token(Kind::Eof, 3, "")
        ]
    );
}

#[test]
fn scanning_goes_on_where_it_stopped() {
    let mut scanner = Scanner::new("@1");
    assert_eq!(scanner.scan_tokens().unwrap().len(), 3);
    let again = scanner.scan_tokens().unwrap().to_vec();
    assert_eq!(again.len(), 4);
    assert_eq!(again[3], token(Kind::Eof, 1, ""));
}

#[test]
fn scan_errors_name_line_and_lexeme() {
    assert_eq!(
        scan("@1\n@65536\n"),
        Err(Error::Scan { line: 2, lexeme: "65536".to_string(), message: "invalid number" })
    );
    assert_eq!(
        scan("\n\n  #"),
        Err(Error::Scan { line: 3, lexeme: "#".to_string(), message: "unexpected character" })
    );
    assert_eq!(
        scan("D=M/2"),
        Err(Error::Scan { line: 1, lexeme: "/".to_string(), message: "unexpected character" })
    );
    assert_eq!(
        scan("_x"),
        Err(Error::Scan { line: 1, lexeme: "_".to_string(), message: "unexpected character" })
    );
    assert_eq!(
        scan("@\u{e9}"),
        Err(Error::Scan {
            line: 1,
            lexeme: "\u{e9}".to_string(),
            message: "unexpected character"
        })
    );
    assert!(scan("// caf\u{e9} \u{2603}\n@1").is_ok());
    assert_eq!(
        assemble("@1\n?\n").unwrap_err().to_string(),
        "[line 2] scan error at `?`: unexpected character"
    );
}

#[test]
fn parses_the_three_instructions() {
    assert_eq!(
        parse("\n\n@7\n(L)\n@x\nMD=D+1;JGE\n\n").unwrap(),
        vec![
            Instruction::A(token(Kind::Number(7), 3, "7")),
            Instruction::Label(ident("L", 4)),
            Instruction::A(ident("x", 5)),
            c(Destination::Md, Computation::DPlusOne, Jump::GreaterEqual),
        ]
    );
    assert_eq!(parse("").unwrap(), vec![]);
    assert_eq!(parse("\n\n").unwrap(), vec![]);
}

#[test]
fn parses_every_computation() {
    let table = [
        ("0", Computation::Zero, 0b0101010),
        ("1", Computation::One, 0b0111111),
        ("-1", Computation::NegativeOne, 0b0111010),
        ("D", Computation::D, 0b0001100),
        ("A", Computation::A, 0b0110000),
        ("M", Computation::M, 0b1110000),
        ("!D", Computation::NotD, 0b0001101),
        ("!A", Computation::NotA, 0b0110001),
        ("!M", Computation::NotM, 0b1110001),
        ("-D", Computation::NegativeD, 0b0001111),
        ("-A", Computation::NegativeA, 0b0110011),
        ("-M", Computation::NegativeM, 0b1110011),
        ("D+1", Computation::DPlusOne, 0b0011111),
        ("A+1", Computation::APlusOne, 0b0110111),
        ("M+1", Computation::MPlusOne, 0b1110111),
        ("D-1", Computation::DMinusOne, 0b0001110),
        ("A-1", Computation::AMinusOne, 0b0110010),
        ("M-1", Computation::MMinusOne, 0b1110010),
        ("D+A", Computation::DPlusA, 0b0000010),
        ("D+M", Computation::DPlusM, 0b1000010),
        ("D-A", Computation::DMinusA, 0b0010011),
        ("D-M", Computation::DMinusM, 0b1010011),
        ("A-D", Computation::AMinusD, 0b0000111),
        ("M-D", Computation::MMinusD, 0b1000111),
        ("D&A", Computation::DAndA, 0b0000000),
        ("D&M", Computation::DAndM, 0b1000000),
        ("D|A", Computation::DOrA, 0b0010101),
        ("D|M", Computation::DOrM, 0b1010101),
    ];
    for (text, comp, bits) in table {
        assert_eq!(parse(text).unwrap(), vec![c(Destination::Null, comp, Jump::Null)]);
        assert_eq!(parse(&format!("D={}\n", text)).unwrap(), vec![c(Destination::D, comp, Jump::Null)]);
        assert_eq!(comp.as_str(), text);
        assert_eq!(translate_comp(comp), bits << 6);
        assert_eq!(
            assemble(&format!("{}\n", text)).unwrap(),
            format!("111{:07b}000000\n", bits)
        );
    }
}

#[test]
fn encodes_destinations_and_jumps() {
    let dests = [
        ("", Destination::Null, 0), ("M", Destination::M, 1), ("D", Destination::D, 2), ("MD", Destination::Md, 3),
        ("A", Destination::A, 4), ("AM", Destination::Am, 5), ("AD", Destination::Ad, 6), ("AMD", Destination::Amd, 7),
    ];
    for (text, dest, bits) in dests {
        assert_eq!(translate_dest(dest), bits << 3);
        assert_eq!(dest.as_str(), text);
        if dest != Destination::Null {
            assert_eq!(Destination::from_str(text), Ok(dest));
            assert_eq!(
                assemble(&format!("{}=0\n", text)).unwrap(),
                format!("1110101010{:03b}000\n", bits)
            );
        }
    }
    let jumps = [
        ("", Jump::Null, 0), ("JGT", Jump::Greater, 1), ("JEQ", Jump::Equal, 2),
        ("JGE", Jump::GreaterEqual, 3), ("JLT", Jump::Less, 4), ("JNE", Jump::NotEqual, 5),
        ("JLE", Jump::LessEqual, 6), ("JMP", Jump::Unconditional, 7),
    ];
    for (text, jump, bits) in jumps {
        assert_eq!(translate_jump(jump), bits);
        assert_eq!(jump.as_str(), text);
        if jump != Jump::Null {
            assert_eq!(Jump::from_str(text), Ok(jump));
            assert_eq!(
                assemble(&format!("0;{}\n", text)).unwrap(),
                format!("1110101010000{:03b}\n", bits)
            );
        }
    }
    assert_eq!(Destination::from_str("DM"), Err(DestinationParseError));
    assert_eq!(Destination::from_str(""), Err(DestinationParseError));
    assert_eq!(Destination::from_str("AMDX"), Err(DestinationParseError));
    assert_eq!(Jump::from_str("JXX"), Err(JumpParseError));
    assert_eq!(Jump::from_str("jmp"), Err(JumpParseError));
    assert_eq!(
        translate_c(Destination::Amd, Computation::DOrM, Jump::Unconditional),
        0b1111010101111111
    );
    assert_eq!(translate_c(Destination::Null, Computation::DAndA, Jump::Null), 0b1110000000000000);
}

#[test]
fn parse_errors_name_the_token() {
    assert_eq!(parse_error("(1)"), (token(Kind::Number(1), 1, "1"), "expect label name"));
    assert_eq!(parse_error("\n(L"), (token(Kind::Eof, 2, ""), "expect ')' after label name"));
    assert_eq!(parse_error("(L;"), (token(Kind::Semicolon, 1, ";"), "expect ')' after label name"));
    assert_eq!(parse_error("(L) @1"), (token(Kind::At, 1, "@"), "expect end of instruction"));
    assert_eq!(parse_error("@1 2"), (token(Kind::Number(2), 1, "2"), "expect end of instruction"));
    assert_eq!(
        parse_error("@\n"),
        (token(Kind::LineBreak, 1, "\n"), "expect number or identifier after '@'")
    );
    assert_eq!(parse_error("X=1"), (ident("X", 1), "unknown destination"));
    assert_eq!(parse_error("DM=1"), (ident("DM", 1), "unknown destination"));
    assert_eq!(parse_error("D=2"), (token(Kind::Number(2), 1, "2"), "expect 0 or 1"));
    assert_eq!(parse_error("D=-2"), (token(Kind::Number(2), 1, "2"), "expect 1, A, D, or M"));
    assert_eq!(parse_error("D=-X"), (ident("X", 1), "expect 1, A, D, or M"));
    assert_eq!(parse_error("D=!1"), (token(Kind::Number(1), 1, "1"), "expect A, D, or M"));
    assert_eq!(parse_error("D=X"), (ident("X", 1), "expect A, D, or M"));
    assert_eq!(parse_error("D=A+D"), (ident("D", 1), "unknown computation"));
    assert_eq!(parse_error("D=D+"), (token(Kind::Eof, 1, ""), "unknown computation"));
    assert_eq!(parse_error("D=D&1"), (token(Kind::Number(1), 1, "1"), "unknown computation"));
    assert_eq!(parse_error("=D"), (token(Kind::Equal, 1, "="), "unknown computation"));
    assert_eq!(parse_error(")"), (token(Kind::RightParen, 1, ")"), "unknown computation"));
    assert_eq!(parse_error("D=A A"), (token(Kind::Eof, 1, ""), "unknown computation"));
    assert_eq!(parse_error("D=A A\n"), (token(Kind::LineBreak, 1, "\n"), "unknown computation"));
    assert_eq!(
        parse_error("D=0 1"),
        (token(Kind::Number(1), 1, "1"), "expect ';' or end of instruction")
    );
    assert_eq!(
        parse_error("D=D+1 @"),
        (token(Kind::At, 1, "@"), "expect ';' or end of instruction")
    );
    assert_eq!(parse_error("0;JXX"), (ident("JXX", 1), "unknown jump"));
    assert_eq!(parse_error("0;1"), (token(Kind::Number(1), 1, "1"), "expect jump"));
    assert_eq!(parse_error("0;"), (token(Kind::Eof, 1, ""), "expect jump"));
    assert_eq!(parse_error("0;JMP 1"), (token(Kind::Number(1), 1, "1"), "expect end of instruction"));
    assert_eq!(
        assemble("@1\n\nD=D+\n").unwrap_err().to_string(),
        "[line 3] parse error at `\n`: unknown computation"
    );
}

#[test]
fn the_first_error_ends_the_assembly() {
    assert_eq!(
        assemble("@1\nD=2\n#\n"),
        Err(Error::Scan { line: 3, lexeme: "#".to_string(), message: "unexpected character" })
    );
    assert_eq!(
        assemble("D=2\n(1)\n"),
        Err(Error::Parse { token: token(Kind::Number(2), 1, "2"), message: "expect 0 or 1" })
    );
}

#[test]
fn code_errors_name_the_token() {
    let bad = token(Kind::Plus, 4, "+");
    let instructions = vec![Instruction::A(ident("x", 1)), Instruction::Label(bad.clone())];
    let mut generator = Generator::new(&instructions);
    assert_eq!(
        generator.register_labels(),
        Err(Error::Code { token: bad.clone(), message: "expect label identifier" })
    );
    assert_eq!(
        Error::code(&bad, "expect label identifier").to_string(),
        "[line 4] code generation error at `+`: expect label identifier"
    );

    let instructions = vec![Instruction::A(bad.clone()), Instruction::A(token(Kind::Number(3), 5, "3"))];
    let mut generator = Generator::new(&instructions);
    assert_eq!(generator.register_labels(), Ok(()));
    assert_eq!(
        generator.next(),
        Some(Err(Error::Code { token: bad.clone(), message: "expect number or identifier" }))
    );
    assert_eq!(generator.next(), Some(Ok(3)));
    assert_eq!(generator.next(), None);
    assert_eq!(generator.next(), None);

    let label = Instruction::Label(ident("L", 1));
    let mut generator = Generator::new(&[]);
    assert_eq!(
        generator.translate(&label),
        Err(Error::Code { token: ident("L", 1), message: "can't translate a label" })
    );
}

#[test]
fn the_generator_hands_out_one_word_at_a_time() {
    let instructions = parse("(L)\n@L\n(M)\n(N)\nD=A\n@v\n@N\n(O)\n").unwrap();
    let mut generator = Generator::new(&instructions);
    generator.register_labels().unwrap();
    assert_eq!(generator.next(), Some(Ok(0)));
    assert_eq!(generator.next(), Some(Ok(0b1110110000010000)));
    assert_eq!(generator.next(), Some(Ok(16)));
    assert_eq!(generator.next(), Some(Ok(1)));
    assert_eq!(generator.next(), None);

    let mut generator = Generator::new(&instructions);
    generator.register_labels().unwrap();
    assert_eq!(generator.generate(), Ok(vec![0, 0b1110110000010000, 16, 1]));
    assert_eq!(generator.generate(), Ok(vec![]));
}

#[test]
fn variables_run_out_behind_65534() {
    let mut source = String::new();
    for i in 0..65519 {
        source += &format!("@v{}\n", i);
    }
    let out = assemble(&source).unwrap();
    let l = lines(&out);
    assert_eq!(l.len(), 65519);
    assert_eq!(l[0], "0000000000010000");
    assert_eq!(l[65518], format!("{:016b}", 65534 & 0x7FFF));
    source += "@last\n";
    assert_eq!(
        assemble(&source),
        Err(Error::Code { token: ident("last", 65520), message: "out of variable addresses" })
    );
}

#[test]
fn a_label_needs_an_address_of_sixteen_bits() {
    let mut source = String::new();
    for _ in 0..65535 {
        source += "0\n";
    }
    let fits = format!("{}(L)\n@L\n", source);
    let out = assemble(&fits).unwrap();
    assert_eq!(lines(&out)[65535], "0111111111111111");
    let too_far = format!("{}0\n(K)\n(L)\n0\n", source);
    assert_eq!(
        assemble(&too_far),
        Err(Error::Code { token: ident("L", 65538), message: "label address out of range" })
    );
    let unlabelled = format!("{}0\n0\n", source);
    assert_eq!(lines(&assemble(&unlabelled).unwrap()).len(), 65537);
}

#[test]
fn formats_words_as_binary_lines() {
    assert_eq!(format_words(&vec![]), "");
    assert_eq!(
        format_words(&vec![0, 1, 0x8000, 0xFFFF, 0b1010101010101010]),
        "0000000000000000\n0000000000000001\n1000000000000000\n1111111111111111\n1010101010101010\n"
    );
}
