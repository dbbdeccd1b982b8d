use emulator::assembler::ParseError;
use emulator::assembler::parse_number;
use emulator::insn::Insn;
use emulator::opcode::Opcode;

fn chars(s: &str) -> Vec<char> {
    s.chars().collect()
}

#[test]
fn testing_load_insn() {
    // 0x1234 is 4660, past the 1024-word data memory: Load addresses
    // must fit data memory, so this line is rejected.
    let result = Insn::bin_translation("load 0x1234 r1");
    assert_eq!(result, Err(ParseError::AddressOutOfRange));
}

#[test]
fn testing_store_insn() {
    let result = Insn::bin_translation("store r1 0x1234");
    assert_eq!(result, Err(ParseError::AddressOutOfRange));
}

#[test]
fn testing_move_lowercase_insn() {
    let result = Insn::bin_translation("move 0xbad r120").unwrap();
    let expected =
        Insn::new(0b00000011_00000000_00000000_01111000_00000000000000000000101110101101);
    assert_eq!(result, expected);
}

#[test]
fn testing_move_mixedcase_insn() {
    let result = Insn::bin_translation("Move 0xBAD r120").unwrap();
    let expected =
        Insn::new(0b00000011_00000000_00000000_01111000_00000000000000000000101110101101);
    assert_eq!(result, expected);
}

#[test]
fn testing_move_tabs_spaces_insn() {
    let result = Insn::bin_translation("\t   move\t0xbad       r120").unwrap();
    let expected =
        Insn::new(0b00000011_00000000_00000000_01111000_00000000000000000000101110101101);
    assert_eq!(result, expected);
}

#[test]
fn testing_add_insn() {
    let result = Insn::bin_translation("add r10 r20 r42").unwrap();
    let expected =
        Insn::new(0b00000100_00001010_00010100_00101010_00000000000000000000000000000000);
    assert_eq!(result, expected);
}

#[test]
fn testing_sub_insn() {
    let result = Insn::bin_translation("sub r10 r20 r42").unwrap();
    let expected =
        Insn::new(0b00000101_00001010_00010100_00101010_00000000000000000000000000000000);
    assert_eq!(result, expected);
}

#[test]
fn round_trip_fields() {
    let ins = Insn::bin_translation("move 0xbad r120").unwrap();
    assert!(matches!(ins.get_opcode(), Some(Opcode::Move)));
    assert_eq!(ins.get_dest(), 120);
    assert_eq!(ins.get_immediate(), 0xBAD);
    assert_eq!(ins.get_src1(), 0);
    assert_eq!(ins.get_src2(), 0);

    let ins = Insn::bin_translation("load 0x3ff r7").unwrap();
    assert!(matches!(ins.get_opcode(), Some(Opcode::Load)));
    assert_eq!(ins.get_immediate(), 0x3FF);
    assert_eq!(ins.get_dest(), 7);
    assert_eq!(ins.get_src1(), 0);
    assert_eq!(ins.get_src2(), 0);

    let ins = Insn::bin_translation("store r9 1023").unwrap();
    assert!(matches!(ins.get_opcode(), Some(Opcode::Store)));
    assert_eq!(ins.get_src1(), 9);
    assert_eq!(ins.get_immediate(), 1023);
    assert_eq!(ins.get_src2(), 0);
    assert_eq!(ins.get_dest(), 0);

    let ins = Insn::bin_translation("sub r1 r2 r3").unwrap();
    assert!(matches!(ins.get_opcode(), Some(Opcode::Sub)));
    assert_eq!(ins.get_src1(), 1);
    assert_eq!(ins.get_src2(), 2);
    assert_eq!(ins.get_dest(), 3);
    assert_eq!(ins.get_immediate(), 0);
}

#[test]
fn case_and_whitespace_insensitive() {
    let a = Insn::bin_translation("move 0xbad r120").unwrap();
    let b = Insn::bin_translation("Move 0xBAD r120").unwrap();
    let c = Insn::bin_translation("\t move\t0xbad\tr120").unwrap();
    let d = Insn::bin_translation("MOVE 0xBAD,R120").unwrap();
    assert_eq!(a, b);
    assert_eq!(a, c);
    assert_eq!(a, d);
}

#[test]
fn hex_prefix_must_be_lowercase() {
    // Only the 0x prefix itself is case-sensitive; its digits are not.
    assert_eq!(
        Insn::bin_translation("move 0X1A r1"),
        Err(ParseError::BadNumericLiteral)
    );
}

#[test]
fn numeric_literal_forms_agree() {
    let dec = Insn::bin_translation("move 2989 r1").unwrap();
    let hex = Insn::bin_translation("move 0xbad r1").unwrap();
    let bin = Insn::bin_translation("move 0b101110101101 r1").unwrap();
    assert_eq!(dec, hex);
    assert_eq!(dec, bin);
    assert_eq!(dec.to_u64(), hex.to_u64());
}

#[test]
fn parse_number_forms() {
    assert_eq!(parse_number(&chars("2989")), Some(2989));
    assert_eq!(parse_number(&chars("0xbad")), Some(0xBAD));
    assert_eq!(parse_number(&chars("0xBAD")), Some(0xBAD));
    assert_eq!(parse_number(&chars("0b101110101101")), Some(0xBAD));
    assert_eq!(parse_number(&chars("0")), Some(0));
    assert_eq!(parse_number(&chars("0xffffffff")), Some(u32::MAX));
    assert_eq!(parse_number(&chars("4294967295")), Some(u32::MAX));
    assert_eq!(parse_number(&chars("4294967296")), None);
    assert_eq!(parse_number(&chars("0x100000000")), None);
    assert_eq!(parse_number(&chars("")), None);
    assert_eq!(parse_number(&chars("0x")), None);
    assert_eq!(parse_number(&chars("0b")), None);
    assert_eq!(parse_number(&chars("0b102")), None);
    assert_eq!(parse_number(&chars("12q")), None);
    assert_eq!(parse_number(&chars("-5")), None);
    assert_eq!(parse_number(&chars("+5")), None);
}

#[test]
fn mnemonic_lookup() {
    assert!(matches!(Opcode::from_string("load"), Some(Opcode::Load)));
    assert!(matches!(Opcode::from_string("STORE"), Some(Opcode::Store)));
    assert!(matches!(Opcode::from_string("Move"), Some(Opcode::Move)));
    assert!(matches!(Opcode::from_string("aDd"), Some(Opcode::Add)));
    assert!(matches!(Opcode::from_string("sub"), Some(Opcode::Sub)));
    assert!(Opcode::from_string("jump").is_none());
    assert!(Opcode::from_string("").is_none());
    assert!(Opcode::from_string("loads").is_none());
}

#[test]
fn tag_lookup() {
    assert!(matches!(Opcode::from_u64(1), Some(Opcode::Load)));
    assert!(matches!(Opcode::from_u64(2), Some(Opcode::Store)));
    assert!(matches!(Opcode::from_u64(3), Some(Opcode::Move)));
    assert!(matches!(Opcode::from_u64(4), Some(Opcode::Add)));
    assert!(matches!(Opcode::from_u64(5), Some(Opcode::Sub)));
    assert!(Opcode::from_u64(0).is_none());
    assert!(Opcode::from_u64(6).is_none());
    assert!(Opcode::from_u64(255).is_none());
    assert_eq!(Opcode::Load.to_u64(), 1);
    assert_eq!(Opcode::Sub.to_u64(), 5);
}

#[test]
fn parse_error_variants() {
    assert_eq!(
        Insn::bin_translation(""),
        Err(ParseError::MissingMnemonic)
    );
    assert_eq!(
        Insn::bin_translation("   \t "),
        Err(ParseError::MissingMnemonic)
    );
    assert_eq!(
        Insn::bin_translation("jump r1 r2"),
        Err(ParseError::UnknownMnemonic)
    );
    assert_eq!(
        Insn::bin_translation("load 0x1234"),
        Err(ParseError::MissingOperand)
    );
    assert_eq!(
        Insn::bin_translation("add r1 r2"),
        Err(ParseError::MissingOperand)
    );
    assert_eq!(
        Insn::bin_translation("move"),
        Err(ParseError::MissingOperand)
    );
    assert_eq!(
        Insn::bin_translation("move 5 x5"),
        Err(ParseError::BadRegisterToken)
    );
    assert_eq!(
        Insn::bin_translation("move 5 r"),
        Err(ParseError::BadRegisterToken)
    );
    assert_eq!(
        Insn::bin_translation("move 5 r1x"),
        Err(ParseError::BadRegisterToken)
    );
    assert_eq!(
        Insn::bin_translation("move 1 r256"),
        Err(ParseError::RegisterOutOfRange)
    );
    assert_eq!(
        Insn::bin_translation("add r1 r2 r999"),
        Err(ParseError::RegisterOutOfRange)
    );
    assert_eq!(
        Insn::bin_translation("move 0xZZ r1"),
        Err(ParseError::BadNumericLiteral)
    );
    assert_eq!(
        Insn::bin_translation("load 0x400 r1"),
        Err(ParseError::AddressOutOfRange)
    );
    assert_eq!(
        Insn::bin_translation("store r1 1024"),
        Err(ParseError::AddressOutOfRange)
    );
    // The register operand is read before the address range is checked.
    assert_eq!(
        Insn::bin_translation("load 0x1234 r300"),
        Err(ParseError::RegisterOutOfRange)
    );
}

#[test]
fn boundary_values_assemble() {
    let ins = Insn::bin_translation("load 1023 r255").unwrap();
    assert_eq!(ins.get_immediate(), 1023);
    assert_eq!(ins.get_dest(), 255);
    let ins = Insn::bin_translation("move 0xffffffff r0").unwrap();
    assert_eq!(ins.get_immediate(), u32::MAX);
    assert_eq!(ins.get_dest(), 0);
}

#[test]
fn setters_do_not_disturb_other_fields() {
    let mut ins = Insn::new(0);
    ins.set_opcode(3);
    ins.set_src1(0xAA);
    ins.set_src2(0xBB);
    ins.set_dest(0xCC);
    ins.set_immediate(0xDEAD_BEEF);
    assert_eq!(ins.get_src1(), 0xAA);
    assert_eq!(ins.get_src2(), 0xBB);
    assert_eq!(ins.get_dest(), 0xCC);
    assert_eq!(ins.get_immediate(), 0xDEAD_BEEF);
    assert!(matches!(ins.get_opcode(), Some(Opcode::Move)));
    // Overwrite one field; the others stay put.
    ins.set_src1(0x11);
    assert_eq!(ins.get_src1(), 0x11);
    assert_eq!(ins.get_src2(), 0xBB);
    assert_eq!(ins.get_dest(), 0xCC);
    assert_eq!(ins.get_immediate(), 0xDEAD_BEEF);
    assert_eq!(
        ins.to_u64(),
        0x03_11_BB_CC_DEAD_BEEF_u64
    );
}

#[test]
fn word_round_trip() {
    let w = 0x0102_0304_0506_0708_u64;
    let ins = Insn::new(w);
    assert_eq!(ins.to_u64(), w);
    assert!(matches!(ins.get_opcode(), Some(Opcode::Load)));
    assert_eq!(ins.get_src1(), 0x02);
    assert_eq!(ins.get_src2(), 0x03);
    assert_eq!(ins.get_dest(), 0x04);
    assert_eq!(ins.get_immediate(), 0x0506_0708);
    // A word whose tag is not 1..=5 decodes to no opcode.
    assert!(Insn::new(0).get_opcode().is_none());
    assert!(Insn::new(0x07_00_00_00_00000000).get_opcode().is_none());
}
