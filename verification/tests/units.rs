//! The opcode table and the operands.
use rustpython_compiler_core::bytecode::{BinaryOperator, Instruction};
use tier2::bytecode::{CodeUnit, OpArgState};
use tier2::frame;

#[test]
fn every_byte_is_an_opcode_where_the_instruction_set_says_so() {
    for op in 0..=255u8 {
        assert_eq!(CodeUnit::new(op, 3).is_some(), Instruction::try_from(op).is_ok());
    }
    assert!(CodeUnit::new(121, 0).is_none());
    assert!(CodeUnit::new(120, 0).is_some());
    assert!(CodeUnit::new(212, 0).is_none());
}

#[test]
fn every_opcode_has_the_base_and_the_caches_of_its_table() {
    let plain = |op: u8| match op {
        3 | 129..=142 => 44,
        143..=150 | 154..=165 | 250 => 52,
        151..=153 | 251 => 55,
        166..=168 => 56,
        169..=170 => 57,
        171..=174 | 237 => 70,
        175..=176 | 253 => 75,
        177..=189 => 80,
        190..=191 => 82,
        192..=193 => 92,
        194..=195 | 249 => 96,
        196 | 245 => 128,
        197 => 106,
        198..=200 => 110,
        201..=202 => 38,
        203..=208 => 39,
        209..=211 => 119,
        234 => 9,
        235 => 30,
        236 => 10,
        239 => 77,
        240 => 28,
        241 => 103,
        242 => 100,
        243 => 101,
        244 => 102,
        246 => 35,
        247 => 120,
        248 => 68,
        252 => 4,
        _ => op,
    };
    let caches = |base: u8| match base {
        80 => 9,
        44 => 5,
        92 | 110 => 4,
        52 | 55 | 39 => 3,
        56 | 57 | 70 | 75 | 96 | 100..=103 | 106 | 38 | 119 => 1,
        _ => 0,
    };
    for op in 0..=255u8 {
        if let Some(unit) = CodeUnit::new(op, 0) {
            assert_eq!(unit.base(), plain(op), "opcode {op}");
            assert_eq!(unit.cache_entries(), caches(plain(op)), "opcode {op}");
        }
    }
}

#[test]
fn operand_bytes_gather_in_front_of_the_next_instruction() {
    let extend = |arg| CodeUnit::new(u8::from(Instruction::ExtendedArg), arg).unwrap();
    let nop = CodeUnit::new(u8::from(Instruction::Nop), 4).unwrap();
    let mut state = OpArgState::new();
    assert_eq!(state.get(nop), (nop.op, 4));
    assert_eq!(state.get(extend(1)).1, 1);
    assert_eq!(state.get(extend(2)).1, 0x102);
    assert_eq!(state.get(extend(3)).1, 0x10203);
    assert_eq!(state.get(extend(0xFF)).1, 0x10203FF);
    assert_eq!(state.get(nop).1, 0x0203FF04);
    assert_eq!(state.get(nop).1, 4);
}

#[test]
fn binary_operators_end_with_the_subscript() {
    assert_eq!(frame::binary_op(0), Ok(0));
    assert_eq!(frame::binary_op(BinaryOperator::Subscr as u64), Ok(26));
    assert_eq!(frame::binary_op(27), Err(frame::Fault::BadBinaryOp));
    assert_eq!(frame::binary_op(0x1_0000_0005), Ok(5));
    assert_eq!(frame::binary_op(300), Err(frame::Fault::BadBinaryOp));
    for op in 0..600u32 {
        assert_eq!(frame::binary_op(op as u64).is_ok(), BinaryOperator::try_from(op).is_ok());
    }
}
