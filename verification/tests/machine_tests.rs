use emulator::assembler::ParseError;
use emulator::cpu::Cpu;
use emulator::cpu::LoadError;
use emulator::cpu::RuntimeError;
use emulator::cpu::StepOutcome;

#[test]
fn fresh_machine_is_all_zero() {
    let m = Cpu::new();
    assert_eq!(m.ip(), 0);
    assert!(!m.is_halted());
    assert_eq!(m.insn_memory().len(), 128);
    assert_eq!(m.data_memory().len(), 1024);
    assert_eq!(m.registers().len(), 256);
    assert!(m.insn_memory().iter().all(|&w| w == 0));
    assert!(m.data_memory().iter().all(|&w| w == 0));
    assert!(m.registers().iter().all(|&w| w == 0));
}

#[test]
fn halt_on_sentinel_after_one_step() {
    let mut m = Cpu::new();
    m.load("move 1 r0").unwrap();
    // Instruction memory index 1 is the zero word, so exactly one step
    // executes and the next one halts.
    assert_eq!(m.step(), Ok(StepOutcome::Executed));
    assert!(!m.is_halted());
    assert_eq!(m.ip(), 1);
    assert_eq!(m.step(), Ok(StepOutcome::Halted));
    assert!(m.is_halted());
    assert_eq!(m.ip(), 1);
    assert_eq!(m.registers()[0], 1);
    // Further steps keep reporting the halt without touching state.
    assert_eq!(m.step(), Ok(StepOutcome::Halted));
    assert_eq!(m.ip(), 1);
}

#[test]
fn deterministic_program_run() {
    let program = "MOVE 0xBAD,R0\nMOVE 0xCAFE,R1\nADD R0,R1,R2\nSTORE R2,0x2";
    let mut m = Cpu::new();
    m.load(program).unwrap();
    m.run().unwrap();
    assert_eq!(m.registers()[0], 0xBAD);
    assert_eq!(m.registers()[1], 0xCAFE);
    assert_eq!(m.registers()[2], 0xBAD + 0xCAFE);
    assert_eq!(m.registers()[2], 0xD6AB);
    assert_eq!(m.data_memory()[2], 0xD6AB);
    assert_eq!(m.ip(), 4);
    assert!(m.is_halted());
    // Running the same program on a second machine gives the same state.
    let mut m2 = Cpu::new();
    m2.load(program).unwrap();
    m2.run().unwrap();
    assert_eq!(m.registers(), m2.registers());
    assert_eq!(m.data_memory(), m2.data_memory());
    assert_eq!(m.insn_memory(), m2.insn_memory());
    assert_eq!(m.ip(), m2.ip());
}

#[test]
fn load_store_move_data_flow() {
    let mut m = Cpu::new();
    m.load("move 77 r3\nstore r3 0x10\nload 0x10 r9").unwrap();
    m.run().unwrap();
    assert_eq!(m.registers()[3], 77);
    assert_eq!(m.data_memory()[0x10], 77);
    assert_eq!(m.registers()[9], 77);
    assert_eq!(m.ip(), 3);
}

#[test]
fn sub_wraps_below_zero() {
    // r0 = 5, r1 = 10: 5 - 10 wraps to 2^32 - 5.
    let mut m = Cpu::new();
    m.load("move 5 r0\nmove 10 r1\nsub r0 r1 r2").unwrap();
    m.run().unwrap();
    assert_eq!(m.registers()[2], u32::MAX - 4);
    assert_eq!(m.registers()[2], 4294967291);
}

#[test]
fn add_wraps_above_max() {
    let mut m = Cpu::new();
    m.load("move 0xffffffff r0\nmove 3 r1\nadd r0 r1 r2").unwrap();
    m.run().unwrap();
    assert_eq!(m.registers()[2], 2);
}

#[test]
fn blank_lines_are_skipped() {
    let mut m = Cpu::new();
    m.load("\n\nmove 4 r1\n   \n\t\nmove 6 r2\n\n").unwrap();
    m.run().unwrap();
    assert_eq!(m.registers()[1], 4);
    assert_eq!(m.registers()[2], 6);
    assert_eq!(m.ip(), 2);
}

#[test]
fn capacity_at_128_lines_loads() {
    let mut lines: Vec<String> = Vec::new();
    for _ in 0..128 {
        lines.push("move 1 r0".to_string());
    }
    let program = lines.join("\n");
    let mut m = Cpu::new();
    assert_eq!(m.load(&program), Ok(()));
    // All 128 instructions execute, then the counter runs off the end
    // before any halt word can be fetched.
    assert_eq!(m.run(), Err(RuntimeError::ProgramCounterOutOfRange));
    assert_eq!(m.ip(), 128);
    assert!(!m.is_halted());
}

#[test]
fn capacity_exceeded_at_129_lines() {
    let mut lines: Vec<String> = Vec::new();
    for _ in 0..129 {
        lines.push("move 1 r0".to_string());
    }
    let program = lines.join("\n");
    let mut m = Cpu::new();
    assert_eq!(m.load(&program), Err(LoadError::ProgramTooLarge));
    // Nothing was stored: the machine still holds only zero words.
    assert!(m.insn_memory().iter().all(|&w| w == 0));
    assert_eq!(m.ip(), 0);
    assert!(!m.is_halted());
}

#[test]
fn malformed_line_rejected_with_position() {
    let mut m = Cpu::new();
    m.load("move 7 r1").unwrap();
    m.run().unwrap();
    // A failed load reports the 1-based line of the first bad line and
    // leaves the machine exactly as it was.
    let ip_before = m.ip();
    let reg_before = m.registers()[1];
    let err = m.load("move 1 r2\n\nload 0x1234").unwrap_err();
    assert_eq!(
        err,
        LoadError::Parse { line: 3, err: ParseError::MissingOperand }
    );
    assert_eq!(m.ip(), ip_before);
    assert!(m.is_halted());
    assert_eq!(m.registers()[1], reg_before);
    assert_eq!(m.registers()[2], 0);
}

#[test]
fn load_resets_previous_state() {
    let mut m = Cpu::new();
    m.load("move 9 r5\nstore r5 0x3").unwrap();
    m.run().unwrap();
    assert_eq!(m.registers()[5], 9);
    assert_eq!(m.data_memory()[3], 9);
    // A successful reload starts from a completely fresh machine.
    m.load("move 2 r0").unwrap();
    assert_eq!(m.registers()[5], 0);
    assert_eq!(m.data_memory()[3], 0);
    assert_eq!(m.ip(), 0);
    assert!(!m.is_halted());
    m.run().unwrap();
    assert_eq!(m.registers()[0], 2);
}

#[test]
fn parse_error_line_numbers_count_blank_lines() {
    let mut m = Cpu::new();
    let err = m.load("\nmove 1 r1\n\nbogus 1 r1").unwrap_err();
    assert_eq!(
        err,
        LoadError::Parse { line: 4, err: ParseError::UnknownMnemonic }
    );
}

#[test]
fn run_on_empty_program_halts_immediately() {
    let mut m = Cpu::new();
    m.load("").unwrap();
    assert_eq!(m.run(), Ok(()));
    assert!(m.is_halted());
    assert_eq!(m.ip(), 0);
}

#[test]
fn instruction_words_stored_in_line_order() {
    let mut m = Cpu::new();
    m.load("move 1 r0\nmove 2 r1").unwrap();
    let w0 = m.insn_memory()[0];
    let w1 = m.insn_memory()[1];
    assert_eq!(w0 >> 56, 3);
    assert_eq!(w0 & 0xFFFF_FFFF, 1);
    assert_eq!(w1 & 0xFFFF_FFFF, 2);
    assert_eq!((w1 >> 32) & 0xFF, 1);
    assert!(m.insn_memory()[2..].iter().all(|&w| w == 0));
}
