use hack_toolchain::assembler::assemble;
use hack_toolchain::vm::{translate_program, translate_str, Unit};

/// A Hack computer: the registers, the program counter and the memory.
struct Cpu {
    a: u16,
    d: u16,
    pc: usize,
    ram: Vec<u16>,
}

fn new_cpu() -> Cpu {
    Cpu { a: 0, d: 0, pc: 0, ram: vec![0; 32768] }
}

/// The ALU of the Hack computer, by its six control bits.
fn alu(x: u16, y: u16, bits: u16) -> u16 {
    let zx = bits & 0b100000 != 0;
    let nx = bits & 0b010000 != 0;
    let zy = bits & 0b001000 != 0;
    let ny = bits & 0b000100 != 0;
    let f = bits & 0b000010 != 0;
    let no = bits & 0b000001 != 0;
    let mut x = if zx { 0 } else { x };
    if nx {
        x = !x;
    }
    let mut y = if zy { 0 } else { y };
    if ny {
        y = !y;
    }
    let out = if f { x.wrapping_add(y) } else { x & y };
    if no {
        !out
    } else {
        out
    }
}

fn step(cpu: &mut Cpu, rom: &[u16]) {
    let word = rom[cpu.pc];
    if word & 0x8000 == 0 {
        cpu.a = word;
        cpu.pc += 1;
        return;
    }
    let address = (cpu.a & 0x7FFF) as usize;
    let y = if word & 0x1000 != 0 { cpu.ram[address] } else { cpu.a };
    let out = alu(cpu.d, y, (word >> 6) & 0x3F);
    if word & 0b001000 != 0 {
        cpu.ram[address] = out;
    }
    if word & 0b010000 != 0 {
        cpu.d = out;
    }
    if word & 0b100000 != 0 {
        cpu.a = out;
    }
    let value = out as i16;
    let jump = (word & 0b100 != 0 && value < 0)
        || (word & 0b010 != 0 && value == 0)
        || (word & 0b001 != 0 && value > 0);
    if jump {
        cpu.pc = (cpu.a & 0x7FFF) as usize;
    } else {
        cpu.pc += 1;
    }
}

fn words(hack: &str) -> Vec<u16> {
    hack.lines().map(|l| u16::from_str_radix(l, 2).unwrap()).collect()
}

/// Runs the assembly from its first instruction until the program counter
/// leaves it or `limit` steps are done.
fn run(cpu: &mut Cpu, assembly: &str, limit: usize) {
    let rom = words(&assemble(assembly).unwrap());
    cpu.pc = 0;
    let mut steps = 0;
    while cpu.pc < rom.len() && steps < limit {
        step(cpu, &rom);
        steps += 1;
    }
}

#[test]
fn test_add() {
    translate_str(
        "push constant 7
             push constant 8
             add",
        "Foo",
    )
    .unwrap();
}

#[test]
fn add_leaves_the_sum_on_the_stack() {
    let assembly = translate_str("push constant 7\npush constant 8\nadd\n", "Foo").unwrap();
    let mut cpu = new_cpu();
    cpu.ram[0] = 256;
    run(&mut cpu, &assembly, 1000);
    assert_eq!(cpu.ram[256], 15);
    assert_eq!(cpu.ram[0], 257);
}

/// Runs one comparison. A closing loop follows it: the assembler binds a
/// label only where an instruction follows.
fn compare(command: &str, x: u16, y: u16) -> u16 {
    let source = format!(
        "push constant {}\npush constant {}\n{}\nlabel END\ngoto END\n",
        x, y, command
    );
    let assembly = translate_str(&source, "Foo").unwrap();
    assert_eq!(assembly.matches("(COND_Foo_0)").count(), 1);
    assert_eq!(assembly.matches("COND_Foo_1").count(), 0);
    let mut cpu = new_cpu();
    cpu.ram[0] = 256;
    run(&mut cpu, &assembly, 1000);
    assert_eq!(cpu.ram[0], 257);
    cpu.ram[256]
}

#[test]
fn eq_pushes_minus_one_or_zero() {
    assert_eq!(compare("eq", 3, 3), 0xFFFF);
    assert_eq!(compare("eq", 3, 4), 0);
}

#[test]
fn gt_and_lt_compare_the_second_with_the_top() {
    assert_eq!(compare("gt", 4, 3), 0xFFFF);
    assert_eq!(compare("gt", 3, 4), 0);
    assert_eq!(compare("gt", 3, 3), 0);
    assert_eq!(compare("lt", 3, 4), 0xFFFF);
    assert_eq!(compare("lt", 4, 3), 0);
    assert_eq!(compare("lt", 3, 3), 0);
}

fn binary(command: &str, x: u16, y: u16) -> u16 {
    let source = format!("push constant {}\npush constant {}\n{}\n", x, y, command);
    let assembly = translate_str(&source, "Foo").unwrap();
    let mut cpu = new_cpu();
    cpu.ram[0] = 256;
    run(&mut cpu, &assembly, 1000);
    assert_eq!(cpu.ram[0], 257);
    cpu.ram[256]
}

fn unary(command: &str, x: u16) -> u16 {
    let source = format!("push constant {}\n{}\n", x, command);
    let assembly = translate_str(&source, "Foo").unwrap();
    let mut cpu = new_cpu();
    cpu.ram[0] = 256;
    run(&mut cpu, &assembly, 1000);
    assert_eq!(cpu.ram[0], 257);
    cpu.ram[256]
}

#[test]
fn arithmetic_combines_the_two_top_values() {
    assert_eq!(binary("add", 7, 8), 15);
    assert_eq!(binary("sub", 8, 3), 5);
    assert_eq!(binary("sub", 3, 8), 0xFFFB);
    assert_eq!(binary("and", 12, 10), 8);
    assert_eq!(binary("or", 12, 10), 14);
    assert_eq!(unary("neg", 5), 0xFFFB);
    assert_eq!(unary("not", 5), 0xFFFA);
}

#[test]
fn statics_of_two_files_do_not_alias() {
    let a = translate_str("push constant 1\npop static 0\n", "FileA").unwrap();
    let b = translate_str("push constant 2\npop static 0\n", "FileB").unwrap();
    let assembly = a + &b;
    assert!(assembly.contains("@FileA.0\n"));
    assert!(assembly.contains("@FileB.0\n"));
    let mut cpu = new_cpu();
    cpu.ram[0] = 256;
    run(&mut cpu, &assembly, 1000);
    assert_eq!(cpu.ram[16], 1);
    assert_eq!(cpu.ram[17], 2);
    assert_eq!(cpu.ram[0], 256);
}

#[test]
fn program_mentions_the_statics_of_each_file() {
    let units = vec![
        Unit { name: "FileA".to_string(), source: "push static 0\n".to_string() },
        Unit { name: "FileB".to_string(), source: "push static 0\n".to_string() },
    ];
    let assembly = translate_program(&units).unwrap();
    assert!(assembly.starts_with("@256\nD=A\n@SP\nM=D\n@CALL_RET_BOOT_0\n"));
    assert!(assembly.contains("@Sys.init\n0;JMP\n(CALL_RET_BOOT_0)\n"));
    assert!(assembly.contains("@FileA.0\n"));
    assert!(assembly.contains("@FileB.0\n"));
}

#[test]
fn call_and_return_restore_the_frame() {
    let source = "push constant 10\n\
                  push constant 20\n\
                  call Foo.bar 2\n\
                  label END\n\
                  goto END\n\
                  function Foo.bar 1\n\
                  return\n";
    let assembly = translate_str(source, "Foo").unwrap();
    let mut cpu = new_cpu();
    cpu.ram[0] = 256;
    cpu.ram[1] = 300;
    cpu.ram[2] = 400;
    cpu.ram[3] = 3000;
    cpu.ram[4] = 4000;
    run(&mut cpu, &assembly, 2000);
    assert_eq!(cpu.ram[1], 300);
    assert_eq!(cpu.ram[2], 400);
    assert_eq!(cpu.ram[3], 3000);
    assert_eq!(cpu.ram[4], 4000);
    assert_eq!(cpu.ram[0], 256 + 2 - 2 + 1);
    assert_eq!(cpu.ram[256], 0);
}

#[test]
fn call_without_arguments_returns_to_the_caller() {
    let source = "call Foo.seven 0\n\
                  label END\n\
                  goto END\n\
                  function Foo.seven 0\n\
                  push constant 7\n\
                  return\n";
    let assembly = translate_str(source, "Foo").unwrap();
    let mut cpu = new_cpu();
    cpu.ram[0] = 256;
    cpu.ram[1] = 300;
    cpu.ram[2] = 400;
    cpu.ram[3] = 3000;
    cpu.ram[4] = 4000;
    run(&mut cpu, &assembly, 2000);
    assert_eq!(cpu.ram[0], 257);
    assert_eq!(cpu.ram[256], 7);
    assert_eq!(cpu.ram[1], 300);
    assert_eq!(cpu.ram[2], 400);
    assert_eq!(cpu.ram[3], 3000);
    assert_eq!(cpu.ram[4], 4000);
}

#[test]
fn segments_are_addressed_by_their_discipline() {
    let source = "push constant 11\npop local 2\n\
                  push constant 12\npop argument 1\n\
                  push constant 13\npop this 3\n\
                  push constant 14\npop that 4\n\
                  push constant 15\npop temp 6\n\
                  push constant 3030\npop pointer 0\n\
                  push constant 3040\npop pointer 1\n\
                  push temp 6\npush pointer 0\npush pointer 1\n";
    let assembly = translate_str(source, "Foo").unwrap();
    let mut cpu = new_cpu();
    cpu.ram[0] = 256;
    cpu.ram[1] = 300;
    cpu.ram[2] = 400;
    cpu.ram[3] = 3000;
    cpu.ram[4] = 4000;
    run(&mut cpu, &assembly, 5000);
    assert_eq!(cpu.ram[302], 11);
    assert_eq!(cpu.ram[401], 12);
    assert_eq!(cpu.ram[3003], 13);
    assert_eq!(cpu.ram[4004], 14);
    assert_eq!(cpu.ram[11], 15);
    assert_eq!(cpu.ram[3], 3030);
    assert_eq!(cpu.ram[4], 3040);
    assert_eq!(cpu.ram[0], 259);
    assert_eq!(&cpu.ram[256..259], &[15, 3030, 3040]);
}

#[test]
fn if_goto_jumps_on_a_value_that_is_not_zero() {
    let source = "push constant 1\nif-goto SKIP\npush constant 5\nlabel SKIP\npush constant 6\n";
    let assembly = translate_str(source, "Foo").unwrap();
    let mut cpu = new_cpu();
    cpu.ram[0] = 256;
    run(&mut cpu, &assembly, 1000);
    assert_eq!(cpu.ram[0], 257);
    assert_eq!(cpu.ram[256], 6);
    let source = "push constant 0\nif-goto SKIP\npush constant 5\nlabel SKIP\npush constant 6\n";
    let assembly = translate_str(source, "Foo").unwrap();
    let mut cpu = new_cpu();
    cpu.ram[0] = 256;
    run(&mut cpu, &assembly, 1000);
    assert_eq!(cpu.ram[0], 258);
    assert_eq!(&cpu.ram[256..258], &[5, 6]);
}
