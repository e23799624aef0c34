//! How the architecture lays out the bytes of an instruction.
//!
//! Registers are told by their numbers, from 0 to 15: three bits of a number stand in the operand
//! bytes, the fourth in the prefix.
use crate::assembler::{Cond, Reg};
use crate::insn;
use crate::insn::{Alu, Insn, Item, Shift};
use vstd::prelude::*;

verus! {

/// The four bytes of a number, the lowest first; a negative one is counted from the top.
pub open spec fn four_bytes(x: int) -> Seq<u8> {
    seq![
        (x % 0x100) as u8,
        (x / 0x100 % 0x100) as u8,
        (x / 0x1_0000 % 0x100) as u8,
        (x / 0x100_0000 % 0x100) as u8,
    ]
}

/// The prefix of a 64-bit operation: bit 2 is for the register of the middle bits, bit 0 for
/// the one of the low bits.
pub open spec fn wide_prefix(middle: int, low: int) -> u8 {
    (0x48 + middle / 8 * 4 + low / 8) as u8
}

/// An operation on two registers.
pub open spec fn two_registers(op: Seq<u8>, middle: int, low: int) -> Seq<u8> {
    seq![wide_prefix(middle, low)] + op + seq![(0xC0 + middle % 8 * 8 + low % 8) as u8]
}

/// An operand in memory at a distance of 32 bits from a register. The number 4, and 12, would
/// say that more follows, so that a byte has to say that nothing does.
pub open spec fn in_memory(middle: int, base: int, disp: int) -> Seq<u8> {
    let first = (0x80 + middle % 8 * 8 + base % 8) as u8;
    if base == 4 || base == 12 {
        seq![first, 0x24u8] + four_bytes(disp)
    } else {
        seq![first] + four_bytes(disp)
    }
}

/// An operand in memory at eight times an index and a distance of 8 bits from a register.
pub open spec fn in_table(middle: int, base: int, index: int, disp: int) -> Seq<u8> {
    seq![
        (0x44 + middle % 8 * 8) as u8,
        (0xC0 + index % 8 * 8 + base % 8) as u8,
        (disp % 0x100) as u8,
    ]
}

proof fn lemma_numbers(r: Reg)
    ensures
        0 <= r.number() < 16,
        r.low_bits() == r.number() % 8,
        insn::bit(r.is_ext()) == r.number() / 8,
        (r.low_bits() == 4) == (r.number() == 4 || r.number() == 12),
{
}

proof fn lemma_four(x: i32)
    ensures
        insn::le4(insn::twos32(x as int)) == four_bytes(x as int),
{
    let y = insn::twos32(x as int);
    lemma_turns(x as int, if x < 0 {
        1
    } else {
        0
    });
    assert(insn::le4(y) =~= four_bytes(x as int));
}

/// Whole turns of 32 bits do not show in the four bytes.
proof fn lemma_turns(x: int, q: int)
    ensures
        (x + 0x1_0000_0000 * q) % 0x100 == x % 0x100,
        (x + 0x1_0000_0000 * q) / 0x100 % 0x100 == x / 0x100 % 0x100,
        (x + 0x1_0000_0000 * q) / 0x1_0000 % 0x100 == x / 0x1_0000 % 0x100,
        (x + 0x1_0000_0000 * q) / 0x100_0000 % 0x100 == x / 0x100_0000 % 0x100,
{
    lemma_quotients(x, q);
    lemma_low_byte(x, 0x100_0000 * q);
    lemma_low_byte(x / 0x100, 0x1_0000 * q);
    lemma_low_byte(x / 0x1_0000, 0x100 * q);
    lemma_low_byte(x / 0x100_0000, q);
}

#[verifier::spinoff_prover]
proof fn lemma_quotients(x: int, q: int)
    ensures
        (x + 0x1_0000_0000 * q) / 0x100 == x / 0x100 + 0x100_0000 * q,
        (x + 0x1_0000_0000 * q) / 0x1_0000 == x / 0x1_0000 + 0x1_0000 * q,
        (x + 0x1_0000_0000 * q) / 0x100_0000 == x / 0x100_0000 + 0x100 * q,
{
    vstd::arithmetic::div_mod::lemma_hoist_over_denominator(x, 0x100_0000 * q, 0x100);
    vstd::arithmetic::div_mod::lemma_hoist_over_denominator(x, 0x1_0000 * q, 0x1_0000);
    vstd::arithmetic::div_mod::lemma_hoist_over_denominator(x, 0x100 * q, 0x100_0000);
}

#[verifier::spinoff_prover]
proof fn lemma_low_byte(x: int, q: int)
    ensures
        (x + 0x100 * q) % 0x100 == x % 0x100,
{
    vstd::arithmetic::div_mod::lemma_mod_multiples_vanish(q, x, 0x100);
}

proof fn lemma_memory(middle: Reg, digit: int, base: Reg, disp: i32)
    requires
        0 <= digit < 8,
    ensures
        insn::modrm_mem(digit, base, disp) == in_memory(digit, base.number(), disp as int),
        insn::modrm_mem(middle.low_bits(), base, disp) == in_memory(
            middle.number(),
            base.number(),
            disp as int,
        ),
{
    lemma_numbers(base);
    lemma_numbers(middle);
    lemma_four(disp);
    assert(insn::modrm_mem(digit, base, disp) =~= in_memory(digit, base.number(), disp as int));
    assert(insn::modrm_mem(middle.low_bits(), base, disp) =~= in_memory(
        middle.number(),
        base.number(),
        disp as int,
    ));
}

/// Operations on two registers: the destination is in the low bits, but for the product, whose
/// destination is in the middle bits.
pub proof fn law_register_forms(d: Reg, s: Reg)
    ensures
        insn::encode(Insn::MovRR { dst: d, src: s }) == two_registers(
            seq![0x89u8],
            s.number(),
            d.number(),
        ),
        insn::encode(Insn::AluRR { op: Alu::Add, dst: d, src: s }) == two_registers(
            seq![0x01u8],
            s.number(),
            d.number(),
        ),
        insn::encode(Insn::AluRR { op: Alu::Or, dst: d, src: s }) == two_registers(
            seq![0x09u8],
            s.number(),
            d.number(),
        ),
        insn::encode(Insn::AluRR { op: Alu::And, dst: d, src: s }) == two_registers(
            seq![0x21u8],
            s.number(),
            d.number(),
        ),
        insn::encode(Insn::AluRR { op: Alu::Sub, dst: d, src: s }) == two_registers(
            seq![0x29u8],
            s.number(),
            d.number(),
        ),
        insn::encode(Insn::AluRR { op: Alu::Cmp, dst: d, src: s }) == two_registers(
            seq![0x39u8],
            s.number(),
            d.number(),
        ),
        insn::encode(Insn::TestRR { a: d, b: s }) == two_registers(
            seq![0x85u8],
            s.number(),
            d.number(),
        ),
        insn::encode(Insn::ImulRR { dst: d, src: s }) == two_registers(
            seq![0x0Fu8, 0xAFu8],
            d.number(),
            s.number(),
        ),
{
    lemma_numbers(d);
    lemma_numbers(s);
    assert(insn::encode(Insn::MovRR { dst: d, src: s }) =~= two_registers(
        seq![0x89u8],
        s.number(),
        d.number(),
    ));
    assert(insn::encode(Insn::AluRR { op: Alu::Add, dst: d, src: s }) =~= two_registers(
        seq![0x01u8],
        s.number(),
        d.number(),
    ));
    assert(insn::encode(Insn::AluRR { op: Alu::Or, dst: d, src: s }) =~= two_registers(
        seq![0x09u8],
        s.number(),
        d.number(),
    ));
    assert(insn::encode(Insn::AluRR { op: Alu::And, dst: d, src: s }) =~= two_registers(
        seq![0x21u8],
        s.number(),
        d.number(),
    ));
    assert(insn::encode(Insn::AluRR { op: Alu::Sub, dst: d, src: s }) =~= two_registers(
        seq![0x29u8],
        s.number(),
        d.number(),
    ));
    assert(insn::encode(Insn::AluRR { op: Alu::Cmp, dst: d, src: s }) =~= two_registers(
        seq![0x39u8],
        s.number(),
        d.number(),
    ));
    assert(insn::encode(Insn::TestRR { a: d, b: s }) =~= two_registers(
        seq![0x85u8],
        s.number(),
        d.number(),
    ));
    assert(insn::encode(Insn::ImulRR { dst: d, src: s }) =~= two_registers(
        seq![0x0Fu8, 0xAFu8],
        d.number(),
        s.number(),
    ));
}

/// An operation on a register and a constant: its kind is in the middle bits.
pub open spec fn with_constant(op: u8, kind: int, low: int, constant: Seq<u8>) -> Seq<u8> {
    seq![wide_prefix(0, low), op, (0xC0 + kind * 8 + low % 8) as u8] + constant
}

/// Operations on a register and a constant.
pub proof fn law_constant_forms(d: Reg, imm: i32, n: u8)
    ensures
        insn::encode(Insn::AluRI { op: Alu::Add, dst: d, imm }) == with_constant(
            0x81,
            0,
            d.number(),
            four_bytes(imm as int),
        ),
        insn::encode(Insn::AluRI { op: Alu::Or, dst: d, imm }) == with_constant(
            0x81,
            1,
            d.number(),
            four_bytes(imm as int),
        ),
        insn::encode(Insn::AluRI { op: Alu::And, dst: d, imm }) == with_constant(
            0x81,
            4,
            d.number(),
            four_bytes(imm as int),
        ),
        insn::encode(Insn::AluRI { op: Alu::Sub, dst: d, imm }) == with_constant(
            0x81,
            5,
            d.number(),
            four_bytes(imm as int),
        ),
        insn::encode(Insn::AluRI { op: Alu::Cmp, dst: d, imm }) == with_constant(
            0x81,
            7,
            d.number(),
            four_bytes(imm as int),
        ),
        insn::encode(Insn::ShiftRI { op: Shift::Shl, dst: d, imm: n }) == with_constant(
            0xC1,
            4,
            d.number(),
            seq![n],
        ),
        insn::encode(Insn::ShiftRI { op: Shift::Shr, dst: d, imm: n }) == with_constant(
            0xC1,
            5,
            d.number(),
            seq![n],
        ),
        insn::encode(Insn::ShiftRI { op: Shift::Sar, dst: d, imm: n }) == with_constant(
            0xC1,
            7,
            d.number(),
            seq![n],
        ),
{
    lemma_numbers(d);
    lemma_four(imm);
    assert(insn::encode(Insn::AluRI { op: Alu::Add, dst: d, imm }) =~= with_constant(
        0x81,
        0,
        d.number(),
        four_bytes(imm as int),
    ));
    assert(insn::encode(Insn::AluRI { op: Alu::Or, dst: d, imm }) =~= with_constant(
        0x81,
        1,
        d.number(),
        four_bytes(imm as int),
    ));
    assert(insn::encode(Insn::AluRI { op: Alu::And, dst: d, imm }) =~= with_constant(
        0x81,
        4,
        d.number(),
        four_bytes(imm as int),
    ));
    assert(insn::encode(Insn::AluRI { op: Alu::Sub, dst: d, imm }) =~= with_constant(
        0x81,
        5,
        d.number(),
        four_bytes(imm as int),
    ));
    assert(insn::encode(Insn::AluRI { op: Alu::Cmp, dst: d, imm }) =~= with_constant(
        0x81,
        7,
        d.number(),
        four_bytes(imm as int),
    ));
    assert(insn::encode(Insn::ShiftRI { op: Shift::Shl, dst: d, imm: n }) =~= with_constant(
        0xC1,
        4,
        d.number(),
        seq![n],
    ));
    assert(insn::encode(Insn::ShiftRI { op: Shift::Shr, dst: d, imm: n }) =~= with_constant(
        0xC1,
        5,
        d.number(),
        seq![n],
    ));
    assert(insn::encode(Insn::ShiftRI { op: Shift::Sar, dst: d, imm: n }) =~= with_constant(
        0xC1,
        7,
        d.number(),
        seq![n],
    ));
}

/// A constant of 64 bits comes behind the opcode, which holds the register.
pub proof fn law_wide_constant_form(d: Reg, wide: u64)
    ensures
        insn::encode(Insn::MovRI { dst: d, imm: wide }) == seq![
            wide_prefix(0, d.number()),
            (0xB8 + d.number() % 8) as u8,
        ] + four_bytes(wide as int) + four_bytes(wide as int / 0x1_0000_0000),
{
    lemma_numbers(d);
    let low = wide as int % 0x1_0000_0000;
    let q = wide as int / 0x1_0000_0000;
    lemma_turns(low, q);
    assert(wide == low + 0x1_0000_0000 * q);
    assert(insn::le4(low) =~= four_bytes(wide as int));
    assert(insn::le4(q) =~= four_bytes(q));
    assert(insn::rex(true, Reg::Rax, d) =~= seq![wide_prefix(0, d.number())]);
    assert(insn::encode(Insn::MovRI { dst: d, imm: wide }) =~= seq![
        wide_prefix(0, d.number()),
        (0xB8 + d.number() % 8) as u8,
    ] + four_bytes(wide as int) + four_bytes(q));
}

/// The prefix of a 32-bit operation, which is left out where it would say nothing.
pub open spec fn narrow_prefix(middle: int, low: int) -> Seq<u8> {
    if middle < 8 && low < 8 {
        seq![]
    } else {
        seq![(0x40 + middle / 8 * 4 + low / 8) as u8]
    }
}

/// Operations on a register and a word of memory.
#[verifier::rlimit(30)]
pub proof fn law_memory_forms(r: Reg, base: Reg, disp: i32)
    ensures
        ({
            let m = in_memory(r.number(), base.number(), disp as int);
            let wide = wide_prefix(r.number(), base.number());
            let narrow = narrow_prefix(r.number(), base.number());
            &&& insn::encode(Insn::MovRM { dst: r, base, disp }) == seq![wide, 0x8Bu8] + m
            &&& insn::encode(Insn::MovMR { base, disp, src: r }) == seq![wide, 0x89u8] + m
            &&& insn::encode(Insn::MovRM32 { dst: r, base, disp }) == narrow + seq![0x8Bu8] + m
            &&& insn::encode(Insn::MovMR32 { base, disp, src: r }) == narrow + seq![0x89u8] + m
            &&& insn::encode(Insn::LockXadd { base, disp, src: r }) == seq![
                0xF0u8,
                wide,
                0x0Fu8,
                0xC1u8,
            ] + m
        }),
{
    lemma_numbers(r);
    lemma_numbers(base);
    lemma_memory(r, 0, base, disp);
    let m = in_memory(r.number(), base.number(), disp as int);
    let wide = wide_prefix(r.number(), base.number());
    assert(insn::rex(true, r, base) =~= seq![wide]);
    assert(insn::rex(false, r, base) =~= narrow_prefix(r.number(), base.number()));
    assert(insn::encode(Insn::MovRM { dst: r, base, disp }) =~= seq![wide, 0x8Bu8] + m);
    assert(insn::encode(Insn::MovMR { base, disp, src: r }) =~= seq![wide, 0x89u8] + m);
    assert(insn::encode(Insn::LockXadd { base, disp, src: r }) =~= seq![
        0xF0u8,
        wide,
        0x0Fu8,
        0xC1u8,
    ] + m);
}

/// Operations on a word of memory and a constant: the kind is in the middle bits.
pub proof fn law_memory_and_constant_forms(base: Reg, disp: i32, imm: i32)
    ensures
        ({
            let wide = wide_prefix(0, base.number());
            let plain = in_memory(0, base.number(), disp as int) + four_bytes(imm as int);
            let minus = in_memory(5, base.number(), disp as int) + four_bytes(imm as int);
            &&& insn::encode(Insn::LockAddMI { base, disp, imm }) == seq![0xF0u8, wide, 0x81u8]
                + plain
            &&& insn::encode(Insn::SubMI { base, disp, imm }) == seq![wide, 0x81u8] + minus
            &&& insn::encode(Insn::MovMI32 { base, disp, imm }) == seq![wide, 0xC7u8] + plain
        }),
{
    lemma_numbers(base);
    lemma_four(imm);
    lemma_memory(Reg::Rax, 0, base, disp);
    lemma_memory(Reg::Rax, 5, base, disp);
    let wide = wide_prefix(0, base.number());
    let plain = in_memory(0, base.number(), disp as int) + four_bytes(imm as int);
    let minus = in_memory(5, base.number(), disp as int) + four_bytes(imm as int);
    assert(insn::rex(true, Reg::Rax, base) =~= seq![wide]);
    assert(insn::encode(Insn::LockAddMI { base, disp, imm }) =~= seq![0xF0u8, wide, 0x81u8]
        + plain);
    assert(insn::encode(Insn::SubMI { base, disp, imm }) =~= seq![wide, 0x81u8] + minus);
    assert(insn::encode(Insn::MovMI32 { base, disp, imm }) =~= seq![wide, 0xC7u8] + plain);
}

/// Operations on a register and a word of a table: bit 1 of the prefix is for the index.
pub proof fn law_table_forms(r: Reg, base: Reg, index: Reg, disp: i8)
    ensures
        ({
            let m = in_table(r.number(), base.number(), index.number(), disp as int);
            let wide = (0x48 + r.number() / 8 * 4 + index.number() / 8 * 2 + base.number()
                / 8) as u8;
            &&& insn::encode(Insn::MovRMIdx8 { dst: r, base, index, disp }) == seq![wide, 0x8Bu8]
                + m
            &&& insn::encode(Insn::MovMRIdx8 { base, index, disp, src: r }) == seq![wide, 0x89u8]
                + m
        }),
{
    lemma_numbers(r);
    lemma_numbers(base);
    lemma_numbers(index);
    let m = in_table(r.number(), base.number(), index.number(), disp as int);
    let wide = (0x48 + r.number() / 8 * 4 + index.number() / 8 * 2 + base.number() / 8) as u8;
    assert(insn::modrm_idx8(r.low_bits(), base, index, disp) =~= m);
    assert(insn::encode(Insn::MovRMIdx8 { dst: r, base, index, disp }) =~= seq![wide, 0x8Bu8] + m);
    assert(insn::encode(Insn::MovMRIdx8 { base, index, disp, src: r }) =~= seq![wide, 0x89u8] + m);
}

/// The instructions on one register have a prefix only for the upper eight.
pub proof fn law_short_forms(r: Reg)
    ensures
        ({
            let n = r.number();
            let prefix = narrow_prefix(0, n);
            &&& insn::encode(Insn::Push { r }) == prefix + seq![(0x50 + n % 8) as u8]
            &&& insn::encode(Insn::Pop { r }) == prefix + seq![(0x58 + n % 8) as u8]
            &&& insn::encode(Insn::CallR { r }) == prefix + seq![0xFFu8, (0xD0 + n % 8) as u8]
            &&& insn::encode(Insn::JmpR { r }) == prefix + seq![0xFFu8, (0xE0 + n % 8) as u8]
            &&& insn::encode(Insn::Ret) == seq![0xC3u8]
        }),
{
    lemma_numbers(r);
    let n = r.number();
    let prefix = narrow_prefix(0, n);
    assert(insn::rex(false, Reg::Rax, r) =~= prefix);
    assert(insn::encode(Insn::CallR { r }) =~= prefix + seq![0xFFu8, (0xD0 + n % 8) as u8]);
    assert(insn::encode(Insn::JmpR { r }) =~= prefix + seq![0xFFu8, (0xE0 + n % 8) as u8]);
}

/// A jump holds its distance in four bytes behind the opcode; the condition is in the opcode.
pub proof fn law_jump_forms(c: Cond, l: nat, distance: i32)
    ensures
        insn::item_bytes(Item::Jmp(l), insn::twos32(distance as int)) == seq![0xE9u8] + four_bytes(
            distance as int,
        ),
        insn::item_bytes(Item::Jcc(c, l), insn::twos32(distance as int)) == seq![
            0x0Fu8,
            (0x80 + c.number()) as u8,
        ] + four_bytes(distance as int),
{
    lemma_four(distance);
}

} // verus!
