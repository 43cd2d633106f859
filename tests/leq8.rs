use leq8::assembly::{assemble, AsmError, AsmErrorKind};
use leq8::instructions::{Instruction, NUM_INSTRUCTIONS};
use leq8::vm::{Machine, Register, RunError, StepResult};

fn image(bytes: &[u8]) -> [u8; 256] {
    let mut p = [0u8; 256];
    p[..bytes.len()].copy_from_slice(bytes);
    p
}

fn machine_with(bytes: &[u8]) -> Machine {
    let mut m = Machine::new();
    m.load_program(image(bytes));
    m
}

fn err(kind: AsmErrorKind, line: usize) -> Result<[u8; 256], AsmError> {
    Err(AsmError { kind, line })
}

#[test]
fn every_mnemonic_round_trips() {
    for id in 0..NUM_INSTRUCTIONS {
        let op = Instruction::from_id(id).unwrap();
        assert_eq!(op.id(), id);
        let name = op.mnemonic();
        assert_eq!(Instruction::from_mnemonic(&name), Some(op));
    }
    assert_eq!(Instruction::from_id(26), None);
    assert_eq!(Instruction::from_id(255), None);
    assert_eq!(Instruction::from_mnemonic(b"nop"), None);
    assert_eq!(Instruction::from_mnemonic(b""), None);
    assert_eq!(Instruction::from_mnemonic(b"FSH"), None);
}

#[test]
fn catalog_ids_and_arities() {
    assert_eq!(Instruction::from_mnemonic(b"noop"), Some(Instruction::NoOp));
    assert_eq!(Instruction::from_mnemonic(b"jnz").unwrap().id(), 2);
    assert_eq!(Instruction::from_mnemonic(b"add").unwrap().id(), 13);
    assert_eq!(Instruction::from_mnemonic(b"fsh").unwrap().id(), 25);
    assert_eq!(Instruction::from_mnemonic(b"or").unwrap().id(), 16);
    assert_eq!(Instruction::Jump.num_args(), 1);
    assert_eq!(Instruction::FillVRam.num_args(), 1);
    assert_eq!(Instruction::WriteVRam.num_args(), 1);
    assert_eq!(Instruction::Swap.num_args(), 0);
    assert_eq!(Instruction::Flush.num_args(), 0);
    assert_eq!(Instruction::Flush.mnemonic(), b"fsh".to_vec());
}

#[test]
fn end_to_end_program_flushes() {
    let src = "sta 128\nstb 128\n'loop\nadd\njnz 'loop\nfsh\n";
    let program = assemble(src.as_bytes()).unwrap();
    assert_eq!(&program[..8], &[3, 128, 4, 128, 13, 2, 4, 25]);
    assert!(program[8..].iter().all(|&b| b == 0));
    let mut m = Machine::new();
    m.load_program(program);
    let frame = m.loop_till_flush(1000).unwrap();
    assert_eq!(frame, [0u8; 256]);
    assert_eq!(m.read_reg(Register::A), 128);
    assert_eq!(m.read_reg(Register::B), 0);
    assert_eq!(m.read_reg(Register::IP), 8);
}

#[test]
fn forward_and_backward_references_agree() {
    let forward = assemble(b"jmp 'end\nnoop\n'end\nfsh").unwrap();
    assert_eq!(&forward[..4], &[1, 3, 0, 25]);
    let backward = assemble(b"noop\n'start\njmp 'start").unwrap();
    assert_eq!(&backward[..3], &[0, 1, 1]);
    let a = assemble(b"jmp 'x\n'x\n'y\njnz 'y\nfsh").unwrap();
    let b = assemble(b"jmp 'x\n'y\n'x\njnz 'y\nfsh").unwrap();
    assert_eq!(a, b);
    assert_eq!(&a[..5], &[1, 2, 2, 2, 25]);
}

#[test]
fn comments_and_whitespace_are_ignored() {
    let src = "  // a comment line\n\tsta 5   // set A\r\n\n   \nstb +7\r\nfsh//done";
    let program = assemble(src.as_bytes()).unwrap();
    assert_eq!(&program[..5], &[3, 5, 4, 7, 25]);
}

#[test]
fn empty_source_gives_zero_image() {
    assert_eq!(assemble(b""), Ok([0u8; 256]));
    assert_eq!(assemble(b"\n\n// only comments\n"), Ok([0u8; 256]));
}

#[test]
fn assembly_errors_name_the_line() {
    assert_eq!(assemble(b"noop\nfoo"), err(AsmErrorKind::UnknownMnemonic, 2));
    assert_eq!(assemble(b"sta"), err(AsmErrorKind::ArityMismatch, 1));
    assert_eq!(assemble(b"add 1"), err(AsmErrorKind::ArityMismatch, 1));
    assert_eq!(assemble(b"sta 1,2"), err(AsmErrorKind::ArityMismatch, 1));
    assert_eq!(assemble(b"sta 256"), err(AsmErrorKind::InvalidOperandLiteral, 1));
    assert_eq!(assemble(b"\nsta x"), err(AsmErrorKind::InvalidOperandLiteral, 2));
    assert_eq!(assemble(b"sta -1"), err(AsmErrorKind::InvalidOperandLiteral, 1));
    assert_eq!(assemble(b"'a\nnoop\n'a"), err(AsmErrorKind::DuplicateLabel, 3));
    assert_eq!(assemble(b"noop\njmp 'nowhere\nfsh"), err(AsmErrorKind::UnknownLabel, 2));
}

#[test]
fn literal_bounds() {
    assert_eq!(assemble(b"sta 255").unwrap()[1], 255);
    assert_eq!(assemble(b"sta 0").unwrap()[1], 0);
    assert_eq!(assemble(b"sta 007").unwrap()[1], 7);
}

#[test]
fn overflowing_the_image_fails() {
    let full = "sta 1\n".repeat(128);
    let program = assemble(full.as_bytes()).unwrap();
    assert_eq!(program[254], 3);
    assert_eq!(program[255], 1);
    let over = "sta 1\n".repeat(129);
    assert_eq!(assemble(over.as_bytes()), err(AsmErrorKind::ProgramOverflow, 129));
    let half = format!("{}noop\nsta 1", "sta 1\n".repeat(127));
    assert_eq!(assemble(half.as_bytes()), err(AsmErrorKind::ProgramOverflow, 129));
    let one_more = format!("{}noop", full);
    assert_eq!(assemble(one_more.as_bytes()), err(AsmErrorKind::ProgramOverflow, 129));
}

#[test]
fn add_wraps() {
    let mut m = machine_with(&[3, 200, 4, 100, 13]);
    assert_eq!(m.step(), None);
    assert_eq!(m.step(), None);
    assert_eq!(m.step(), None);
    assert_eq!(m.read_reg(Register::B), 44);
    assert_eq!(m.read_reg(Register::A), 200);
    assert_eq!(m.read_reg(Register::IP), 5);
}

#[test]
fn inc_and_dec_wrap() {
    let mut m = machine_with(&[3, 255, 22]);
    m.step();
    m.step();
    assert_eq!(m.read_reg(Register::A), 0);
    let mut m = machine_with(&[3, 0, 23]);
    m.step();
    m.step();
    assert_eq!(m.read_reg(Register::A), 255);
}

#[test]
fn mul_mod_and_bitwise() {
    let mut m = machine_with(&[3, 16, 4, 17, 14]);
    for _ in 0..3 {
        m.step();
    }
    assert_eq!(m.read_reg(Register::B), 16);
    let mut m = machine_with(&[3, 7, 4, 50, 15]);
    for _ in 0..3 {
        m.step();
    }
    assert_eq!(m.read_reg(Register::B), 1);
    let mut m = machine_with(&[3, 0b1100, 4, 0b1010, 16, 17]);
    for _ in 0..3 {
        m.step();
    }
    assert_eq!(m.read_reg(Register::B), 0b1110);
    m.step();
    assert_eq!(m.read_reg(Register::B), 0b1100);
    let mut m = machine_with(&[3, 0b1100, 4, 0b1010, 18, 19]);
    for _ in 0..3 {
        m.step();
    }
    assert_eq!(m.read_reg(Register::B), 0b0110);
    m.step();
    assert_eq!(m.read_reg(Register::B), 0b1111_1001);
}

#[test]
fn mod_by_zero_is_reported() {
    let mut m = machine_with(&[4, 9, 15]);
    m.step();
    assert_eq!(m.step(), Some(StepResult::DivisionByZero));
    assert_eq!(m.read_reg(Register::IP), 2);
    assert_eq!(m.read_reg(Register::B), 9);
}

#[test]
fn shifts() {
    let mut m = machine_with(&[4, 0b1000_0011, 20, 1]);
    m.step();
    m.step();
    assert_eq!(m.read_reg(Register::B), 0b0000_0110);
    let mut m = machine_with(&[4, 0b1000_0011, 21, 1]);
    m.step();
    m.step();
    assert_eq!(m.read_reg(Register::B), 0b0100_0001);
    let mut m = machine_with(&[4, 255, 20, 8]);
    m.step();
    m.step();
    assert_eq!(m.read_reg(Register::B), 0);
    let mut m = machine_with(&[4, 255, 21, 200]);
    m.step();
    m.step();
    assert_eq!(m.read_reg(Register::B), 0);
}

#[test]
fn swap_ram_and_input() {
    let mut m = machine_with(&[3, 1, 4, 2, 5]);
    for _ in 0..3 {
        m.step();
    }
    assert_eq!(m.read_reg(Register::A), 2);
    assert_eq!(m.read_reg(Register::B), 1);
    let mut m = machine_with(&[4, 42, 6, 10, 4, 0, 7, 10, 3, 11, 8, 4, 0, 9]);
    for _ in 0..4 {
        m.step();
    }
    assert_eq!(m.read_reg(Register::B), 42);
    for _ in 0..3 {
        m.step();
    }
    assert_eq!(m.read_reg(Register::B), 0);
    m.step();
    assert_eq!(m.read_reg(Register::B), 42);
    let mut m = machine_with(&[12, 0b0101]);
    m.write_reg(Register::INP, 0b1111);
    m.step();
    assert_eq!(m.read_reg(Register::B), 0b0101);
}

#[test]
fn fill_then_read_vram() {
    let mut m = machine_with(&[24, 0x2a, 3, 0, 11, 3, 200, 11, 3, 255, 11, 25]);
    m.step();
    for a in [0u8, 200, 255] {
        m.step();
        m.step();
        assert_eq!(m.read_reg(Register::A), a);
        assert_eq!(m.read_reg(Register::B), 0x2a);
    }
    let frame = m.loop_till_flush(10).unwrap();
    assert_eq!(frame, [0x2a; 256]);
}

#[test]
fn write_vram_at_a() {
    let mut m = machine_with(&[3, 17, 10, 9, 25]);
    let frame = m.loop_till_flush(10).unwrap();
    let mut expected = [0u8; 256];
    expected[17] = 9;
    assert_eq!(frame, expected);
}

#[test]
fn unknown_opcode_is_not_executed() {
    let mut m = machine_with(&[3, 4, 26]);
    m.step();
    m.step();
    assert_eq!(m.step(), Some(StepResult::UnknownOp(26)));
    assert_eq!(m.read_reg(Register::IP), 2);
    assert_eq!(m.step(), Some(StepResult::UnknownOp(26)));
    assert_eq!(m.read_reg(Register::IP), 2);
    assert_eq!(m.read_reg(Register::A), 4);
    let mut m = machine_with(&[255]);
    assert_eq!(m.loop_till_flush(5), Err(RunError::Stopped(StepResult::UnknownOp(255))));
}

#[test]
fn operand_past_the_end() {
    let mut p = [0u8; 256];
    p[0] = 1;
    p[1] = 255;
    p[255] = 3;
    let mut m = Machine::new();
    m.load_program(p);
    assert_eq!(m.step(), None);
    assert_eq!(m.read_reg(Register::IP), 255);
    assert_eq!(m.step(), Some(StepResult::ArgOutOfBounds));
    assert_eq!(m.read_reg(Register::IP), 255);
    assert_eq!(m.read_reg(Register::A), 0);
}

#[test]
fn running_off_the_end() {
    let mut m = Machine::new();
    assert_eq!(m.loop_till_flush(1000), Err(RunError::Stopped(StepResult::EndOfProgram)));
    assert_eq!(m.read_reg(Register::IP), 255);
    let mut p = [0u8; 256];
    p[255] = 25;
    let mut m = Machine::new();
    m.load_program(p);
    m.write_reg(Register::IP, 255);
    assert_eq!(m.step(), Some(StepResult::EndOfProgram));
}

#[test]
fn jumps_and_step_limit() {
    let mut m = machine_with(&[1, 0]);
    assert_eq!(m.loop_till_flush(50), Err(RunError::StepLimit));
    assert_eq!(m.loop_till_flush(0), Err(RunError::StepLimit));
    let mut m = machine_with(&[2, 7, 25]);
    assert_eq!(m.step(), None);
    assert_eq!(m.read_reg(Register::IP), 2);
    let mut m = machine_with(&[4, 1, 2, 7]);
    m.step();
    assert_eq!(m.step(), None);
    assert_eq!(m.read_reg(Register::IP), 7);
}

#[test]
fn frames_continue_after_flush() {
    let src = "'top\nrdi 15\nflv 0\nmvv 3\nfsh\njmp 'top";
    let program = assemble(src.as_bytes()).unwrap();
    let mut m = Machine::new();
    m.load_program(program);
    m.write_reg(Register::INP, 0b0010);
    let frame = m.loop_till_flush(100).unwrap();
    assert_eq!(frame[0], 3);
    assert_eq!(m.read_reg(Register::B), 2);
    m.write_reg(Register::INP, 0b1000);
    m.loop_till_flush(100).unwrap();
    assert_eq!(m.read_reg(Register::B), 8);
}

#[test]
fn label_after_full_image_gets_address_zero() {
    let src = format!("jmp 'end\n{}'end", "sta 1\n".repeat(127));
    let program = assemble(src.as_bytes()).unwrap();
    assert_eq!(program[0], 1);
    assert_eq!(program[1], 0);
    assert_eq!(program[255], 1);
}
