//! The bytes of each instruction.
use tier2::assembler::{Assembler, Cond, Reg};

fn code(f: impl FnOnce(&mut Assembler)) -> Vec<u8> {
    let mut a = Assembler::new();
    f(&mut a);
    a.finish()
}

#[test]
fn mov_reg_reg() {
    assert_eq!(code(|a| a.mov_rr(Reg::Rax, Reg::Rcx)), [0x48, 0x89, 0xC8]);
    assert_eq!(code(|a| a.mov_rr(Reg::R12, Reg::Rbx)), [0x49, 0x89, 0xDC]);
    assert_eq!(code(|a| a.mov_rr(Reg::Rbx, Reg::R12)), [0x4C, 0x89, 0xE3]);
}

#[test]
fn mov_load_store_disp32() {
    assert_eq!(
        code(|a| a.mov_rm(Reg::Rax, Reg::Rcx, 8)),
        [0x48, 0x8B, 0x81, 8, 0, 0, 0]
    );
    assert_eq!(
        code(|a| a.mov_mr(Reg::Rcx, 8, Reg::Rax)),
        [0x48, 0x89, 0x81, 8, 0, 0, 0]
    );
    assert_eq!(
        code(|a| a.mov_rm(Reg::R9, Reg::R12, -16)),
        [0x4D, 0x8B, 0x8C, 0x24, 0xF0, 0xFF, 0xFF, 0xFF]
    );
    assert_eq!(
        code(|a| a.mov_rm(Reg::Rax, Reg::Rbp, 0)),
        [0x48, 0x8B, 0x85, 0, 0, 0, 0]
    );
}

#[test]
fn mov_imm() {
    assert_eq!(
        code(|a| a.mov_ri(Reg::Rax, 0x1122334455667788)),
        [0x48, 0xB8, 0x88, 0x77, 0x66, 0x55, 0x44, 0x33, 0x22, 0x11]
    );
    assert_eq!(
        code(|a| a.mov_ri(Reg::R10, 1)),
        [0x49, 0xBA, 1, 0, 0, 0, 0, 0, 0, 0]
    );
    assert_eq!(
        code(|a| a.mov_mi32(Reg::Rbx, 4, -1)),
        [0x48, 0xC7, 0x83, 4, 0, 0, 0, 0xFF, 0xFF, 0xFF, 0xFF]
    );
}

#[test]
fn arith() {
    assert_eq!(code(|a| a.add_rr(Reg::Rax, Reg::Rcx)), [0x48, 0x01, 0xC8]);
    assert_eq!(code(|a| a.sub_rr(Reg::Rax, Reg::Rcx)), [0x48, 0x29, 0xC8]);
    assert_eq!(
        code(|a| a.add_ri(Reg::Rsp, 32)),
        [0x48, 0x81, 0xC4, 32, 0, 0, 0]
    );
    assert_eq!(
        code(|a| a.sub_ri(Reg::Rsp, 32)),
        [0x48, 0x81, 0xEC, 32, 0, 0, 0]
    );
    assert_eq!(code(|a| a.cmp_rr(Reg::Rax, Reg::Rcx)), [0x48, 0x39, 0xC8]);
    assert_eq!(
        code(|a| a.cmp_ri(Reg::Rax, 7)),
        [0x48, 0x81, 0xF8, 7, 0, 0, 0]
    );
    assert_eq!(code(|a| a.test_rr(Reg::Rax, Reg::Rax)), [0x48, 0x85, 0xC0]);
    assert_eq!(
        code(|a| a.and_ri(Reg::Rax, 1)),
        [0x48, 0x81, 0xE0, 1, 0, 0, 0]
    );
    assert_eq!(
        code(|a| a.or_ri(Reg::Rax, 1)),
        [0x48, 0x81, 0xC8, 1, 0, 0, 0]
    );
    assert_eq!(code(|a| a.sar_ri(Reg::Rax, 1)), [0x48, 0xC1, 0xF8, 1]);
    assert_eq!(code(|a| a.shl_ri(Reg::Rax, 1)), [0x48, 0xC1, 0xE0, 1]);
    assert_eq!(
        code(|a| a.imul_rr(Reg::Rax, Reg::Rcx)),
        [0x48, 0x0F, 0xAF, 0xC1]
    );
}

#[test]
fn thirty_two_bit_moves_and_indexed_moves() {
    assert_eq!(
        code(|a| a.mov_rm32(Reg::R12, Reg::Rax, 0)),
        [0x44, 0x8B, 0xA0, 0, 0, 0, 0]
    );
    assert_eq!(
        code(|a| a.mov_mr32(Reg::Rax, 0, Reg::R12)),
        [0x44, 0x89, 0xA0, 0, 0, 0, 0]
    );
    assert_eq!(
        code(|a| a.mov_rm32(Reg::Rax, Reg::Rcx, 4)),
        [0x8B, 0x81, 4, 0, 0, 0]
    );
    assert_eq!(
        code(|a| a.mov_rm_idx8(Reg::Rax, Reg::R14, Reg::R12, 0)),
        [0x4B, 0x8B, 0x44, 0xE6, 0x00]
    );
    assert_eq!(
        code(|a| a.mov_rm_idx8(Reg::Rax, Reg::R14, Reg::R12, -8)),
        [0x4B, 0x8B, 0x44, 0xE6, 0xF8]
    );
    assert_eq!(
        code(|a| a.mov_mr_idx8(Reg::R14, Reg::R12, 0, Reg::Rax)),
        [0x4B, 0x89, 0x44, 0xE6, 0x00]
    );
}

#[test]
fn locked_refcount_ops_and_bit_ops() {
    assert_eq!(
        code(|a| a.lock_xadd(Reg::Rax, 0, Reg::Rdx)),
        [0xF0, 0x48, 0x0F, 0xC1, 0x90, 0, 0, 0, 0]
    );
    assert_eq!(
        code(|a| a.lock_add_mi(Reg::Rax, 0, 1)),
        [0xF0, 0x48, 0x81, 0x80, 0, 0, 0, 0, 1, 0, 0, 0]
    );
    assert_eq!(code(|a| a.and_rr(Reg::Rax, Reg::Rcx)), [0x48, 0x21, 0xC8]);
    assert_eq!(code(|a| a.shr_ri(Reg::Rcx, 61)), [0x48, 0xC1, 0xE9, 61]);
}

#[test]
fn stack_and_calls() {
    assert_eq!(code(|a| a.push(Reg::Rbx)), [0x53]);
    assert_eq!(code(|a| a.push(Reg::R12)), [0x41, 0x54]);
    assert_eq!(code(|a| a.pop(Reg::Rbx)), [0x5B]);
    assert_eq!(code(|a| a.pop(Reg::R12)), [0x41, 0x5C]);
    assert_eq!(code(|a| a.call_r(Reg::Rax)), [0xFF, 0xD0]);
    assert_eq!(code(|a| a.call_r(Reg::R11)), [0x41, 0xFF, 0xD3]);
    assert_eq!(code(|a| a.ret()), [0xC3]);
    assert_eq!(code(|a| a.jmp_r(Reg::Rax)), [0xFF, 0xE0]);
    assert_eq!(code(|a| a.jmp_r(Reg::R11)), [0x41, 0xFF, 0xE3]);
}

#[test]
fn forward_and_backward_jumps() {
    let bytes = code(|a| {
        let top = a.bind_new();
        let out = a.new_label();
        a.jcc(Cond::E, out);
        a.jmp(top);
        a.bind(out);
        a.ret();
    });
    assert_eq!(
        bytes,
        [0x0F, 0x84, 5, 0, 0, 0, 0xE9, 0xF5, 0xFF, 0xFF, 0xFF, 0xC3]
    );
}

fn condition_byte(cond: Cond) -> u8 {
    code(|a| {
        let l = a.new_label();
        a.jcc(cond, l);
        a.bind(l);
    })[1]
}

#[test]
fn conditions_encode_distinct_opcodes() {
    assert_eq!(condition_byte(Cond::NE), 0x85);
    assert_eq!(condition_byte(Cond::L), 0x8C);
    assert_eq!(condition_byte(Cond::GE), 0x8D);
    assert_eq!(condition_byte(Cond::LE), 0x8E);
    assert_eq!(condition_byte(Cond::G), 0x8F);
    assert_eq!(condition_byte(Cond::O), 0x80);
}

#[test]
#[should_panic]
fn unbound_label_panics() {
    code(|a| {
        let l = a.new_label();
        a.jmp(l);
    });
}

#[test]
fn remaining_conditions() {
    assert_eq!(condition_byte(Cond::NO), 0x81);
    assert_eq!(condition_byte(Cond::B), 0x82);
    assert_eq!(condition_byte(Cond::AE), 0x83);
    assert_eq!(condition_byte(Cond::E), 0x84);
    assert_eq!(condition_byte(Cond::BE), 0x86);
    assert_eq!(condition_byte(Cond::A), 0x87);
    assert_eq!(condition_byte(Cond::S), 0x88);
    assert_eq!(condition_byte(Cond::NS), 0x89);
}

#[test]
fn subtract_from_memory() {
    assert_eq!(
        code(|a| a.sub_mi(Reg::Rbx, 32, 1)),
        [0x48, 0x81, 0xAB, 32, 0, 0, 0, 1, 0, 0, 0]
    );
    assert_eq!(
        code(|a| a.sub_mi(Reg::R12, -8, -2)),
        [0x49, 0x81, 0xAC, 0x24, 0xF8, 0xFF, 0xFF, 0xFF, 0xFE, 0xFF, 0xFF, 0xFF]
    );
}

#[test]
fn finishing_without_a_place_for_a_label_gives_nothing() {
    let mut a = Assembler::new();
    let l = a.new_label();
    a.jmp(l);
    assert_eq!(a.label_offset(l), None);
    assert_eq!(a.checked_finish(), None);
}

#[test]
fn length_counts_bytes_and_labels_take_none() {
    let mut a = Assembler::default();
    assert!(a.is_empty());
    let l = a.bind_new();
    assert_eq!(a.len(), 0);
    a.ret();
    let m = a.bind_new();
    a.jmp(l);
    assert_eq!(a.len(), 6);
    assert!(!a.is_empty());
    assert_eq!(a.label_offset(l), Some(0));
    assert_eq!(a.label_offset(m), Some(1));
    assert_eq!(a.checked_finish(), Some(vec![0xC3, 0xE9, 0xFA, 0xFF, 0xFF, 0xFF]));
}

#[test]
fn negated_conditions_differ_in_the_lowest_bit() {
    let pairs = [
        (Cond::O, Cond::NO),
        (Cond::B, Cond::AE),
        (Cond::E, Cond::NE),
        (Cond::BE, Cond::A),
        (Cond::S, Cond::NS),
        (Cond::L, Cond::GE),
        (Cond::LE, Cond::G),
    ];
    let mut seen = vec![];
    for (c, d) in pairs {
        assert_eq!(condition_byte(c) % 2, 0);
        assert_eq!(0x80 + c.code(), condition_byte(c));
        assert_eq!(c.code() ^ 1, d.code());
        assert_eq!(condition_byte(c) ^ 1, condition_byte(d));
        seen.push(condition_byte(c));
        seen.push(condition_byte(d));
    }
    seen.sort();
    seen.dedup();
    assert_eq!(seen.len(), 14);
    assert!(!seen.contains(&0x8A) && !seen.contains(&0x8B));
}

#[test]
fn code_of_two_runs_is_the_code_of_each_in_turn() {
    fn first(a: &mut Assembler) {
        let top = a.bind_new();
        let out = a.new_label();
        a.jcc(Cond::E, out);
        a.jmp(top);
        a.bind(out);
    }
    fn second(a: &mut Assembler) {
        let out = a.new_label();
        a.push(Reg::R12);
        a.jmp(out);
        a.mov_ri(Reg::Rax, 7);
        a.bind(out);
        a.ret();
    }
    let both = code(|a| {
        first(a);
        second(a);
    });
    assert_eq!(both, [code(first), code(second)].concat());
    assert_eq!(code(first).len(), 11);
}
