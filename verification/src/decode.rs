//! Reading machine code back: what the architecture takes a run of bytes to be.
use crate::assembler::{Cond, Reg};
use crate::insn;
use crate::insn::{Alu, Insn, Item, Shift};
use crate::layout;
use vstd::prelude::*;

verus! {

/// What is fetched: an instruction, or a jump relative to the byte behind it.
pub enum Fetched {
    Op(Insn),
    Jmp(int),
    Jcc(Cond, int),
}

/// The register with the number.
pub open spec fn reg_of(n: int) -> Reg {
    if n == 0 {
        Reg::Rax
    } else if n == 1 {
        Reg::Rcx
    } else if n == 2 {
        Reg::Rdx
    } else if n == 3 {
        Reg::Rbx
    } else if n == 4 {
        Reg::Rsp
    } else if n == 5 {
        Reg::Rbp
    } else if n == 6 {
        Reg::Rsi
    } else if n == 7 {
        Reg::Rdi
    } else if n == 8 {
        Reg::R8
    } else if n == 9 {
        Reg::R9
    } else if n == 10 {
        Reg::R10
    } else if n == 11 {
        Reg::R11
    } else if n == 12 {
        Reg::R12
    } else if n == 13 {
        Reg::R13
    } else if n == 14 {
        Reg::R14
    } else {
        Reg::R15
    }
}

/// The condition with the number.
pub open spec fn cond_of(n: int) -> Option<Cond> {
    if n == 0x0 {
        Some(Cond::O)
    } else if n == 0x1 {
        Some(Cond::NO)
    } else if n == 0x2 {
        Some(Cond::B)
    } else if n == 0x3 {
        Some(Cond::AE)
    } else if n == 0x4 {
        Some(Cond::E)
    } else if n == 0x5 {
        Some(Cond::NE)
    } else if n == 0x6 {
        Some(Cond::BE)
    } else if n == 0x7 {
        Some(Cond::A)
    } else if n == 0x8 {
        Some(Cond::S)
    } else if n == 0x9 {
        Some(Cond::NS)
    } else if n == 0xC {
        Some(Cond::L)
    } else if n == 0xD {
        Some(Cond::GE)
    } else if n == 0xE {
        Some(Cond::LE)
    } else if n == 0xF {
        Some(Cond::G)
    } else {
        None
    }
}

pub open spec fn alu_of(digit: int) -> Option<Alu> {
    if digit == 0 {
        Some(Alu::Add)
    } else if digit == 1 {
        Some(Alu::Or)
    } else if digit == 4 {
        Some(Alu::And)
    } else if digit == 5 {
        Some(Alu::Sub)
    } else if digit == 7 {
        Some(Alu::Cmp)
    } else {
        None
    }
}

pub open spec fn shift_of(digit: int) -> Option<Shift> {
    if digit == 4 {
        Some(Shift::Shl)
    } else if digit == 5 {
        Some(Shift::Shr)
    } else if digit == 7 {
        Some(Shift::Sar)
    } else {
        None
    }
}

/// The number in four bytes, least significant first.
pub open spec fn word_at(s: Seq<u8>, p: int) -> int {
    s[p] + 0x100 * s[p + 1] + 0x1_0000 * s[p + 2] + 0x100_0000 * s[p + 3]
}

/// The signed number in four bytes.
pub open spec fn signed_at(s: Seq<u8>, p: int) -> int {
    let v = word_at(s, p);
    if v >= 0x8000_0000 {
        v - 0x1_0000_0000
    } else {
        v
    }
}

/// The signed number in one byte.
pub open spec fn signed_byte_at(s: Seq<u8>, p: int) -> int {
    if s[p] >= 0x80 {
        s[p] - 0x100
    } else {
        s[p] as int
    }
}

/// The bits of a register-extension prefix.
pub struct Prefix {
    pub w: bool,
    pub r: int,
    pub x: int,
    pub b: int,
}

pub open spec fn is_prefix(byte: u8) -> bool {
    0x40 <= byte < 0x50
}

pub open spec fn prefix_of(byte: u8) -> Prefix {
    Prefix {
        w: byte as int / 8 % 2 == 1,
        r: byte as int / 4 % 2,
        x: byte as int / 2 % 2,
        b: byte as int % 2,
    }
}

/// The operand at an operand byte.
pub enum Place {
    Register(Reg),
    /// `[base + disp]`
    Memory(Reg, int),
    /// `[base + index * 8 + disp]`
    Indexed(Reg, Reg, int),
}

/// The operand whose operand byte is at `p`, and how many bytes it takes. Only the forms of
/// this assembler are known.
pub open spec fn operand(s: Seq<u8>, p: int, x: Prefix) -> Option<(Place, int)> {
    let form = s[p] as int / 64;
    let low = s[p] as int % 8;
    if form == 3 {
        Some((Place::Register(reg_of(low + 8 * x.b)), 1))
    } else if form == 2 && low != 4 {
        Some((Place::Memory(reg_of(low + 8 * x.b), signed_at(s, p + 1)), 5))
    } else if form == 2 && s[p + 1] == 0x24 && x.x == 0 {
        Some((Place::Memory(reg_of(4 + 8 * x.b), signed_at(s, p + 2)), 6))
    } else if form == 1 && low == 4 {
        let index = s[p + 1] as int / 8 % 8 + 8 * x.x;
        if s[p + 1] as int / 64 == 3 && index != 4 {
            Some(
                (
                    Place::Indexed(
                        reg_of(s[p + 1] as int % 8 + 8 * x.b),
                        reg_of(index),
                        signed_byte_at(s, p + 2),
                    ),
                    3,
                ),
            )
        } else {
            None
        }
    } else {
        None
    }
}

/// The middle bits of an operand byte.
pub open spec fn digit_at(s: Seq<u8>, p: int) -> int {
    s[p] as int / 8 % 8
}

/// The register of the middle bits of an operand byte.
pub open spec fn reg_at(s: Seq<u8>, p: int, x: Prefix) -> Reg {
    reg_of(digit_at(s, p) + 8 * x.r)
}

pub open spec fn fetched(i: Insn, len: int) -> Option<(Fetched, int)> {
    Some((Fetched::Op(i), len))
}

/// The instruction whose opcode is at `p`, behind the prefixes.
pub open spec fn decode_opcode(s: Seq<u8>, p: int, lock: bool, x: Prefix) -> Option<(Fetched, int)> {
    let o = s[p] as int;
    if o == 0x89 || o == 0x8B {
        let reg = reg_at(s, p + 1, x);
        match operand(s, p + 1, x) {
            Some((Place::Register(rm), n)) => if x.w && o == 0x89 {
                fetched(Insn::MovRR { dst: rm, src: reg }, p + 1 + n)
            } else {
                None
            },
            Some((Place::Memory(base, disp), n)) => fetched(
                if x.w {
                    if o == 0x8B {
                        Insn::MovRM { dst: reg, base, disp: disp as i32 }
                    } else {
                        Insn::MovMR { base, disp: disp as i32, src: reg }
                    }
                } else {
                    if o == 0x8B {
                        Insn::MovRM32 { dst: reg, base, disp: disp as i32 }
                    } else {
                        Insn::MovMR32 { base, disp: disp as i32, src: reg }
                    }
                },
                p + 1 + n,
            ),
            Some((Place::Indexed(base, index, disp), n)) => if x.w {
                fetched(
                    if o == 0x8B {
                        Insn::MovRMIdx8 { dst: reg, base, index, disp: disp as i8 }
                    } else {
                        Insn::MovMRIdx8 { base, index, disp: disp as i8, src: reg }
                    },
                    p + 1 + n,
                )
            } else {
                None
            },
            None => None,
        }
    } else if o < 0x40 && o % 8 == 1 {
        match (alu_of(o / 8), operand(s, p + 1, x)) {
            (Some(op), Some((Place::Register(rm), n))) => if x.w {
                fetched(Insn::AluRR { op, dst: rm, src: reg_at(s, p + 1, x) }, p + 1 + n)
            } else {
                None
            },
            _ => None,
        }
    } else if o == 0x85 {
        match operand(s, p + 1, x) {
            Some((Place::Register(rm), n)) => if x.w {
                fetched(Insn::TestRR { a: rm, b: reg_at(s, p + 1, x) }, p + 1 + n)
            } else {
                None
            },
            _ => None,
        }
    } else if o == 0x81 && x.w {
        let digit = digit_at(s, p + 1);
        match operand(s, p + 1, x) {
            Some((Place::Register(rm), n)) => match alu_of(digit) {
                Some(op) => fetched(
                    Insn::AluRI { op, dst: rm, imm: signed_at(s, p + 1 + n) as i32 },
                    p + 5 + n,
                ),
                None => None,
            },
            Some((Place::Memory(base, disp), n)) => {
                let imm = signed_at(s, p + 1 + n) as i32;
                if lock && digit == 0 {
                    fetched(Insn::LockAddMI { base, disp: disp as i32, imm }, p + 5 + n)
                } else if !lock && digit == 5 {
                    fetched(Insn::SubMI { base, disp: disp as i32, imm }, p + 5 + n)
                } else {
                    None
                }
            },
            _ => None,
        }
    } else if o == 0xC7 && x.w && digit_at(s, p + 1) == 0 {
        match operand(s, p + 1, x) {
            Some((Place::Memory(base, disp), n)) => fetched(
                Insn::MovMI32 { base, disp: disp as i32, imm: signed_at(s, p + 1 + n) as i32 },
                p + 5 + n,
            ),
            _ => None,
        }
    } else if o == 0xC1 && x.w {
        match (shift_of(digit_at(s, p + 1)), operand(s, p + 1, x)) {
            (Some(op), Some((Place::Register(rm), n))) => fetched(
                Insn::ShiftRI { op, dst: rm, imm: s[p + 1 + n] },
                p + 2 + n,
            ),
            _ => None,
        }
    } else if 0xB8 <= o < 0xC0 && x.w {
        fetched(
            Insn::MovRI {
                dst: reg_of(o - 0xB8 + 8 * x.b),
                imm: (word_at(s, p + 1) + 0x1_0000_0000 * word_at(s, p + 5)) as u64,
            },
            p + 9,
        )
    } else if 0x50 <= o < 0x58 {
        fetched(Insn::Push { r: reg_of(o - 0x50 + 8 * x.b) }, p + 1)
    } else if 0x58 <= o < 0x60 {
        fetched(Insn::Pop { r: reg_of(o - 0x58 + 8 * x.b) }, p + 1)
    } else if o == 0xFF {
        match operand(s, p + 1, x) {
            Some((Place::Register(r), n)) => if digit_at(s, p + 1) == 2 {
                fetched(Insn::CallR { r }, p + 1 + n)
            } else if digit_at(s, p + 1) == 4 {
                fetched(Insn::JmpR { r }, p + 1 + n)
            } else {
                None
            },
            _ => None,
        }
    } else if o == 0xC3 {
        fetched(Insn::Ret, p + 1)
    } else if o == 0xE9 {
        Some((Fetched::Jmp(signed_at(s, p + 1)), p + 5))
    } else if o == 0x0F {
        let second = s[p + 1] as int;
        if second == 0xAF && x.w {
            match operand(s, p + 2, x) {
                Some((Place::Register(rm), n)) => fetched(
                    Insn::ImulRR { dst: reg_at(s, p + 2, x), src: rm },
                    p + 2 + n,
                ),
                _ => None,
            }
        } else if second == 0xC1 && lock && x.w {
            match operand(s, p + 2, x) {
                Some((Place::Memory(base, disp), n)) => fetched(
                    Insn::LockXadd { base, disp: disp as i32, src: reg_at(s, p + 2, x) },
                    p + 2 + n,
                ),
                _ => None,
            }
        } else if 0x80 <= second < 0x90 {
            match cond_of(second - 0x80) {
                Some(cond) => Some((Fetched::Jcc(cond, signed_at(s, p + 2)), p + 6)),
                None => None,
            }
        } else {
            None
        }
    } else {
        None
    }
}

/// The instruction at the start of the bytes, and how many bytes it takes.
#[verifier::opaque]
pub open spec fn decode(s: Seq<u8>) -> Option<(Fetched, int)> {
    let lock = s[0] == 0xF0;
    let p = if lock {
        1int
    } else {
        0
    };
    if is_prefix(s[p]) {
        decode_opcode(s, p + 1, lock, prefix_of(s[p]))
    } else {
        decode_opcode(s, p, lock, Prefix { w: false, r: 0, x: 0, b: 0 })
    }
}

/// The instruction has a meaning of its own. The stack pointer cannot be an index: the
/// architecture reads its number as "no index".
pub open spec fn encodable(i: Insn) -> bool {
    match i {
        Insn::MovRMIdx8 { index, .. } => index != Reg::Rsp,
        Insn::MovMRIdx8 { index, .. } => index != Reg::Rsp,
        _ => true,
    }
}

/// The bytes stand at `p`.
#[verifier::opaque]
spec fn has(s: Seq<u8>, p: int, bytes: Seq<u8>) -> bool {
    &&& 0 <= p
    &&& p + bytes.len() <= s.len()
    &&& forall|k: int| 0 <= k < bytes.len() ==> #[trigger] s[p + k] == bytes[k]
}

proof fn lemma_has_front(bytes: Seq<u8>, rest: Seq<u8>)
    ensures
        has(bytes + rest, 0, bytes),
{
    reveal(has);
}

proof fn lemma_has_parts(s: Seq<u8>, p: int, x: Seq<u8>, y: Seq<u8>)
    requires
        has(s, p, x + y),
    ensures
        has(s, p, x),
        has(s, p + x.len(), y),
{
    reveal(has);
    assert forall|k: int| 0 <= k < x.len() implies #[trigger] s[p + k] == x[k] by {
        assert(s[p + k] == (x + y)[k]);
    }
    assert forall|k: int| 0 <= k < y.len() implies #[trigger] s[p + x.len() + k] == y[k] by {
        assert(s[p + (x.len() + k)] == (x + y)[x.len() + k]);
    }
}

proof fn lemma_reg(r: Reg)
    ensures
        reg_of(r.low_bits() + 8 * insn::bit(r.is_ext())) == r,
        0 <= r.low_bits() < 8,
{
}

proof fn lemma_word(s: Seq<u8>, p: int, v: int)
    requires
        0 <= v < 0x1_0000_0000,
        has(s, p, insn::le4(v)),
    ensures
        word_at(s, p) == v,
{
    reveal(has);
    assert(s[p + 0] == insn::le4(v)[0]);
    assert(s[p + 1] == insn::le4(v)[1]);
    assert(s[p + 2] == insn::le4(v)[2]);
    assert(s[p + 3] == insn::le4(v)[3]);
}

proof fn lemma_signed(s: Seq<u8>, p: int, v: int)
    requires
        i32::MIN <= v <= i32::MAX,
        has(s, p, insn::le4(insn::twos32(v))),
    ensures
        signed_at(s, p) == v,
{
    lemma_word(s, p, insn::twos32(v));
}

proof fn lemma_prefix(w: bool, reg: Reg, rm: Reg)
    ensures
        insn::rex(w, reg, rm).len() == 1 ==> {
            &&& is_prefix(insn::rex(w, reg, rm)[0])
            &&& prefix_of(insn::rex(w, reg, rm)[0]) == (Prefix {
                w,
                r: insn::bit(reg.is_ext()),
                x: 0,
                b: insn::bit(rm.is_ext()),
            })
        },
        insn::rex(w, reg, rm).len() == 0 ==> !w && !reg.is_ext() && !rm.is_ext(),
        insn::rex(w, reg, rm).len() <= 1,
        w ==> insn::rex(w, reg, rm).len() == 1,
{
}

proof fn lemma_operand_rr(s: Seq<u8>, p: int, x: Prefix, reg: int, rm: Reg)
    requires
        0 <= reg < 8,
        has(s, p, insn::modrm_rr(reg, rm)),
        x.b == insn::bit(rm.is_ext()),
    ensures
        operand(s, p, x) == Some((Place::Register(rm), 1int)),
        digit_at(s, p) == reg,
{
    reveal(has);
    assert(s[p + 0] == insn::modrm_rr(reg, rm)[0]);
    lemma_reg(rm);
}

proof fn lemma_operand_mem(s: Seq<u8>, p: int, x: Prefix, reg: int, base: Reg, disp: i32)
    requires
        0 <= reg < 8,
        has(s, p, insn::modrm_mem(reg, base, disp)),
        x.b == insn::bit(base.is_ext()),
        x.x == 0,
    ensures
        operand(s, p, x) == Some(
            (Place::Memory(base, disp as int), insn::modrm_mem(reg, base, disp).len() as int),
        ),
        digit_at(s, p) == reg,
{
    reveal(has);
    let bytes = insn::modrm_mem(reg, base, disp);
    let tail = insn::le4(insn::twos32(disp as int));
    assert(s[p + 0] == bytes[0]);
    lemma_reg(base);
    let n = bytes.len() - 4;
    assert(has(s, p + n, tail)) by {
        assert forall|k: int| 0 <= k < 4 implies #[trigger] s[p + n + k] == tail[k] by {
            assert(s[p + (n + k)] == bytes[n + k]);
        }
    }
    lemma_signed(s, p + n, disp as int);
    if base.low_bits() == 4 {
        assert(s[p + 1] == bytes[1]);
    }
}

proof fn lemma_operand_idx(
    s: Seq<u8>,
    p: int,
    x: Prefix,
    reg: int,
    base: Reg,
    index: Reg,
    disp: i8,
)
    requires
        0 <= reg < 8,
        has(s, p, insn::modrm_idx8(reg, base, index, disp)),
        x.b == insn::bit(base.is_ext()),
        x.x == insn::bit(index.is_ext()),
        index != Reg::Rsp,
    ensures
        operand(s, p, x) == Some((Place::Indexed(base, index, disp as int), 3int)),
        digit_at(s, p) == reg,
{
    reveal(has);
    let bytes = insn::modrm_idx8(reg, base, index, disp);
    assert(s[p + 0] == bytes[0]);
    assert(s[p + 1] == bytes[1]);
    assert(s[p + 2] == bytes[2]);
    lemma_reg(base);
    lemma_reg(index);
}

/// Splits the bytes at the front into prefix, opcode and the rest.
proof fn lemma_front(s: Seq<u8>, p: int, rex: Seq<u8>, op: Seq<u8>, tail: Seq<u8>)
    requires
        has(s, p, rex + op + tail),
    ensures
        has(s, p, rex),
        has(s, p + rex.len(), op),
        has(s, p + rex.len() + op.len(), tail),
{
    lemma_has_parts(s, p, rex + op, tail);
    lemma_has_parts(s, p, rex, op);
}

/// The instruction stands at the start of the bytes.
#[verifier::opaque]
spec fn starts(s: Seq<u8>, i: Insn) -> bool {
    has(s, 0, insn::encode(i))
}

/// The instruction is read at the start of the bytes.
#[verifier::opaque]
spec fn reads(s: Seq<u8>, i: Insn) -> bool {
    decode(s) == Some((Fetched::Op(i), insn::encode(i).len() as int))
}

/// Every instruction reads back as itself, whatever comes behind it.
pub proof fn law_decode_encode(i: Insn, rest: Seq<u8>)
    requires
        encodable(i),
    ensures
        decode(insn::encode(i) + rest) == Some((Fetched::Op(i), insn::encode(i).len() as int)),
{
    assert(starts(insn::encode(i) + rest, i)) by {
        reveal(starts);
        lemma_has_front(insn::encode(i), rest);
    }
    lemma_reads(insn::encode(i) + rest, i);
    reveal(reads);
}

proof fn lemma_reads(s: Seq<u8>, i: Insn)
    requires
        encodable(i),
        starts(s, i),
    ensures
        reads(s, i),
{
    if i is MovRR || i is MovRM || i is MovMR || i is MovRM32 || i is MovMR32 {
        lemma_reads_moves(s, i);
    } else if i is MovRI || i is MovRMIdx8 || i is MovMRIdx8 || i is LockXadd || i is LockAddMI || i
        is SubMI || i is MovMI32 {
        lemma_reads_memory(s, i);
    } else if i is AluRR || i is TestRR || i is AluRI || i is ShiftRI || i is ImulRR {
        lemma_reads_arithmetic(s, i);
    } else {
        lemma_reads_control(s, i);
    }
}

proof fn lemma_reads_moves(s: Seq<u8>, i: Insn)
    requires
        encodable(i),
        starts(s, i),
        i is MovRR || i is MovRM || i is MovMR || i is MovRM32 || i is MovMR32,
    ensures
        reads(s, i),
{
    match i {
        Insn::MovRR { dst, src } => lemma_rr(s, i, 0x89, src, dst),
        Insn::MovRM { dst, base, disp } => lemma_rm64(s, i, 0x8B, dst, base, disp),
        Insn::MovMR { base, disp, src } => lemma_rm64(s, i, 0x89, src, base, disp),
        Insn::MovRM32 { dst, base, disp } => lemma_rm32(s, i, 0x8B, dst, base, disp),
        Insn::MovMR32 { base, disp, src } => lemma_rm32(s, i, 0x89, src, base, disp),
        _ => {},
    }
}

proof fn lemma_reads_memory(s: Seq<u8>, i: Insn)
    requires
        encodable(i),
        starts(s, i),
        i is MovRI || i is MovRMIdx8 || i is MovMRIdx8 || i is LockXadd || i is LockAddMI || i
            is SubMI || i is MovMI32,
    ensures
        reads(s, i),
{
    match i {
        Insn::MovRI { dst, imm } => lemma_imm(s, dst, imm),
        Insn::MovRMIdx8 { dst, base, index, disp } => lemma_idx(s, i, 0x8B, dst, base, index, disp),
        Insn::MovMRIdx8 { base, index, disp, src } => lemma_idx(s, i, 0x89, src, base, index, disp),
        Insn::LockXadd { base, disp, src } => lemma_xadd(s, base, disp, src),
        Insn::LockAddMI { base, disp, imm } => lemma_lock_add(s, base, disp, imm),
        Insn::SubMI { base, disp, imm } => lemma_mi(s, i, 0x81, 5, base, disp, imm),
        Insn::MovMI32 { base, disp, imm } => lemma_mi(s, i, 0xC7, 0, base, disp, imm),
        _ => {},
    }
}

proof fn lemma_reads_arithmetic(s: Seq<u8>, i: Insn)
    requires
        encodable(i),
        starts(s, i),
        i is AluRR || i is TestRR || i is AluRI || i is ShiftRI || i is ImulRR,
    ensures
        reads(s, i),
{
    match i {
        Insn::AluRR { op, dst, src } => lemma_rr(s, i, (8 * op.digit() + 1) as u8, src, dst),
        Insn::TestRR { a, b } => lemma_rr(s, i, 0x85, b, a),
        Insn::AluRI { op, dst, imm } => lemma_alu_imm(s, op, dst, imm),
        Insn::ShiftRI { op, dst, imm } => lemma_shift(s, op, dst, imm),
        Insn::ImulRR { dst, src } => lemma_imul(s, dst, src),
        _ => {},
    }
}

proof fn lemma_reads_control(s: Seq<u8>, i: Insn)
    requires
        encodable(i),
        starts(s, i),
        i is Push || i is Pop || i is CallR || i is JmpR || i is Ret,
    ensures
        reads(s, i),
{
    match i {
        Insn::Push { r } => lemma_short(s, i, 0x50, r),
        Insn::Pop { r } => lemma_short(s, i, 0x58, r),
        Insn::CallR { r } => lemma_indirect(s, i, 2, r),
        Insn::JmpR { r } => lemma_indirect(s, i, 4, r),
        Insn::Ret => lemma_ret(s),
        _ => {},
    }
}

#[verifier::spinoff_prover]
#[verifier::rlimit(40)]
proof fn lemma_rr(s: Seq<u8>, i: Insn, op: u8, reg: Reg, rm: Reg)
    requires
        starts(s, i),
        match i {
            Insn::MovRR { dst, src } => op == 0x89 && src == reg && dst == rm,
            Insn::AluRR { op: a, dst, src } => op == 8 * a.digit() + 1 && src == reg && dst == rm,
            Insn::TestRR { a, b } => op == 0x85 && b == reg && a == rm,
            _ => false,
        },
    ensures
        reads(s, i),
{
    reveal(has);
    reveal(starts);
    reveal(reads);
    reveal(decode);
    lemma_prefix(true, reg, rm);
    lemma_reg(reg);
    lemma_front(s, 0, insn::rex(true, reg, rm), seq![op], insn::modrm_rr(reg.low_bits(), rm));
    assert(s[0int + 0] == insn::rex(true, reg, rm)[0]);
    assert(s[1int + 0] == op);
    lemma_operand_rr(s, 2, prefix_of(s[0]), reg.low_bits(), rm);
}

#[verifier::spinoff_prover]
#[verifier::rlimit(40)]
proof fn lemma_rm64(s: Seq<u8>, i: Insn, op: u8, reg: Reg, base: Reg, disp: i32)
    requires
        starts(s, i),
        i == (Insn::MovRM { dst: reg, base, disp }) && op == 0x8B || i == (Insn::MovMR {
            base,
            disp,
            src: reg,
        }) && op == 0x89,
    ensures
        reads(s, i),
{
    let rex = insn::rex(true, reg, base);
    let mem = insn::modrm_mem(reg.low_bits(), base, disp);
    assert(insn::encode(i) == rex + seq![op] + mem);
    lemma_prefix(true, reg, base);
    lemma_reg(reg);
    assert(has(s, 0, rex + seq![op] + mem)) by {
        reveal(starts);
    }
    lemma_front(s, 0, rex, seq![op], mem);
    reveal(has);
    reveal(decode);
    reveal(reads);
    assert(s[0int + 0] == rex[0]);
    assert(s[1int + 0] == op);
    lemma_operand_mem(s, 2, prefix_of(s[0]), reg.low_bits(), base, disp);
}

#[verifier::spinoff_prover]
#[verifier::rlimit(40)]
proof fn lemma_rm32(s: Seq<u8>, i: Insn, op: u8, reg: Reg, base: Reg, disp: i32)
    requires
        starts(s, i),
        i == (Insn::MovRM32 { dst: reg, base, disp }) && op == 0x8B || i == (Insn::MovMR32 {
            base,
            disp,
            src: reg,
        }) && op == 0x89,
    ensures
        reads(s, i),
{
    let rex = insn::rex(false, reg, base);
    let mem = insn::modrm_mem(reg.low_bits(), base, disp);
    assert(insn::encode(i) == rex + seq![op] + mem);
    lemma_prefix(false, reg, base);
    lemma_reg(reg);
    assert(has(s, 0, rex + seq![op] + mem)) by {
        reveal(starts);
    }
    lemma_front(s, 0, rex, seq![op], mem);
    reveal(has);
    reveal(decode);
    reveal(reads);
    if rex.len() == 1 {
        assert(s[0int + 0] == rex[0]);
        assert(s[1int + 0] == op);
        lemma_operand_mem(s, 2, prefix_of(s[0]), reg.low_bits(), base, disp);
    } else {
        assert(s[0int + 0] == op);
        let x = Prefix { w: false, r: 0, x: 0, b: 0 };
        lemma_operand_mem(s, 1, x, reg.low_bits(), base, disp);
    }
}

#[verifier::spinoff_prover]
#[verifier::rlimit(40)]
proof fn lemma_imm(s: Seq<u8>, dst: Reg, imm: u64)
    requires
        starts(s, Insn::MovRI { dst, imm }),
    ensures
        reads(s, Insn::MovRI { dst, imm }),
{
    reveal(has);
    reveal(starts);
    reveal(reads);
    reveal(decode);
    let rex = insn::rex(true, Reg::Rax, dst);
    let op = seq![(0xB8 + dst.low_bits()) as u8];
    lemma_prefix(true, Reg::Rax, dst);
    lemma_reg(dst);
    lemma_front(s, 0, rex, op, insn::le8(imm as int));
    assert(s[0int + 0] == rex[0]);
    assert(s[1int + 0] == op[0]);
    let lo = imm as int % 0x1_0000_0000;
    let hi = imm as int / 0x1_0000_0000;
    lemma_has_parts(s, 2, insn::le4(lo), insn::le4(hi));
    lemma_word(s, 2, lo);
    lemma_word(s, 6, hi);
}

#[verifier::spinoff_prover]
#[verifier::rlimit(40)]
proof fn lemma_idx(s: Seq<u8>, i: Insn, op: u8, reg: Reg, base: Reg, index: Reg, disp: i8)
    requires
        starts(s, i),
        index != Reg::Rsp,
        match i {
            Insn::MovRMIdx8 { dst, base: b, index: x, disp: d } => op == 0x8B && dst == reg && b
                == base && x == index && d == disp,
            Insn::MovMRIdx8 { src, base: b, index: x, disp: d } => op == 0x89 && src == reg && b
                == base && x == index && d == disp,
            _ => false,
        },
    ensures
        reads(s, i),
{
    reveal(has);
    reveal(starts);
    reveal(reads);
    reveal(decode);
    let rex = insn::rex_idx(reg, index, base);
    lemma_reg(reg);
    lemma_front(s, 0, rex, seq![op], insn::modrm_idx8(reg.low_bits(), base, index, disp));
    assert(s[0int + 0] == rex[0]);
    assert(s[1int + 0] == op);
    assert(prefix_of(s[0]) == (Prefix {
        w: true,
        r: insn::bit(reg.is_ext()),
        x: insn::bit(index.is_ext()),
        b: insn::bit(base.is_ext()),
    }));
    lemma_operand_idx(s, 2, prefix_of(s[0]), reg.low_bits(), base, index, disp);
}

#[verifier::spinoff_prover]
#[verifier::rlimit(40)]
proof fn lemma_xadd(s: Seq<u8>, base: Reg, disp: i32, src: Reg)
    requires
        starts(s, Insn::LockXadd { base, disp, src }),
    ensures
        reads(s, Insn::LockXadd { base, disp, src }),
{
    reveal(has);
    reveal(starts);
    reveal(reads);
    reveal(decode);
    let rex = insn::rex(true, src, base);
    let mem = insn::modrm_mem(src.low_bits(), base, disp);
    lemma_prefix(true, src, base);
    lemma_reg(src);
    lemma_has_parts(s, 0, seq![0xF0u8] + rex + seq![0x0Fu8, 0xC1u8], mem);
    lemma_front(s, 0, seq![0xF0u8], rex, seq![0x0Fu8, 0xC1u8]);
    assert(s[0int + 0] == 0xF0u8);
    assert(s[1int + 0] == rex[0]);
    assert(s[2int + 0] == 0x0Fu8);
    assert(s[2int + 1] == 0xC1u8);
    lemma_operand_mem(s, 4, prefix_of(s[1]), src.low_bits(), base, disp);
}

#[verifier::spinoff_prover]
#[verifier::rlimit(40)]
proof fn lemma_lock_add(s: Seq<u8>, base: Reg, disp: i32, imm: i32)
    requires
        starts(s, Insn::LockAddMI { base, disp, imm }),
    ensures
        reads(s, Insn::LockAddMI { base, disp, imm }),
{
    reveal(has);
    reveal(starts);
    reveal(reads);
    reveal(decode);
    let rex = insn::rex(true, Reg::Rax, base);
    let mem = insn::modrm_mem(0, base, disp);
    let tail = insn::le4(insn::twos32(imm as int));
    lemma_prefix(true, Reg::Rax, base);
    lemma_has_parts(s, 0, seq![0xF0u8] + rex + seq![0x81u8] + mem, tail);
    lemma_has_parts(s, 0, seq![0xF0u8] + rex + seq![0x81u8], mem);
    lemma_front(s, 0, seq![0xF0u8], rex, seq![0x81u8]);
    assert(s[0int + 0] == 0xF0u8);
    assert(s[1int + 0] == rex[0]);
    assert(s[2int + 0] == 0x81u8);
    lemma_operand_mem(s, 3, prefix_of(s[1]), 0, base, disp);
    lemma_signed(s, 3 + mem.len() as int, imm as int);
}

#[verifier::spinoff_prover]
#[verifier::rlimit(40)]
proof fn lemma_mi(s: Seq<u8>, i: Insn, op: u8, digit: int, base: Reg, disp: i32, imm: i32)
    requires
        starts(s, i),
        i == (Insn::SubMI { base, disp, imm }) && op == 0x81 && digit == 5 || i == (Insn::MovMI32 {
            base,
            disp,
            imm,
        }) && op == 0xC7 && digit == 0,
    ensures
        reads(s, i),
{
    reveal(has);
    reveal(starts);
    reveal(reads);
    reveal(decode);
    let rex = insn::rex(true, Reg::Rax, base);
    let mem = insn::modrm_mem(digit, base, disp);
    let tail = insn::le4(insn::twos32(imm as int));
    lemma_prefix(true, Reg::Rax, base);
    lemma_has_parts(s, 0, rex + seq![op] + mem, tail);
    lemma_front(s, 0, rex, seq![op], mem);
    assert(s[0int + 0] == rex[0]);
    assert(s[1int + 0] == op);
    lemma_operand_mem(s, 2, prefix_of(s[0]), digit, base, disp);
    lemma_signed(s, 2 + mem.len() as int, imm as int);
}

#[verifier::spinoff_prover]
#[verifier::rlimit(40)]
proof fn lemma_alu_imm(s: Seq<u8>, op: Alu, dst: Reg, imm: i32)
    requires
        starts(s, Insn::AluRI { op, dst, imm }),
    ensures
        reads(s, Insn::AluRI { op, dst, imm }),
{
    reveal(has);
    reveal(starts);
    reveal(reads);
    reveal(decode);
    let rex = insn::rex(true, Reg::Rax, dst);
    let tail = insn::le4(insn::twos32(imm as int));
    lemma_prefix(true, Reg::Rax, dst);
    lemma_has_parts(s, 0, rex + seq![0x81u8] + insn::modrm_rr(op.digit(), dst), tail);
    lemma_front(s, 0, rex, seq![0x81u8], insn::modrm_rr(op.digit(), dst));
    assert(s[0int + 0] == rex[0]);
    assert(s[1int + 0] == 0x81u8);
    lemma_operand_rr(s, 2, prefix_of(s[0]), op.digit(), dst);
    lemma_signed(s, 3, imm as int);
}

#[verifier::spinoff_prover]
#[verifier::rlimit(40)]
proof fn lemma_shift(s: Seq<u8>, op: Shift, dst: Reg, imm: u8)
    requires
        starts(s, Insn::ShiftRI { op, dst, imm }),
    ensures
        reads(s, Insn::ShiftRI { op, dst, imm }),
{
    reveal(has);
    reveal(starts);
    reveal(reads);
    reveal(decode);
    let rex = insn::rex(true, Reg::Rax, dst);
    lemma_prefix(true, Reg::Rax, dst);
    lemma_has_parts(s, 0, rex + seq![0xC1u8] + insn::modrm_rr(op.digit(), dst), seq![imm]);
    lemma_front(s, 0, rex, seq![0xC1u8], insn::modrm_rr(op.digit(), dst));
    assert(s[0int + 0] == rex[0]);
    assert(s[1int + 0] == 0xC1u8);
    assert(s[3int + 0] == imm);
    lemma_operand_rr(s, 2, prefix_of(s[0]), op.digit(), dst);
}

#[verifier::spinoff_prover]
#[verifier::rlimit(40)]
proof fn lemma_imul(s: Seq<u8>, dst: Reg, src: Reg)
    requires
        starts(s, Insn::ImulRR { dst, src }),
    ensures
        reads(s, Insn::ImulRR { dst, src }),
{
    reveal(has);
    reveal(starts);
    reveal(reads);
    reveal(decode);
    let rex = insn::rex(true, dst, src);
    let op = seq![0x0Fu8, 0xAFu8];
    lemma_prefix(true, dst, src);
    lemma_reg(dst);
    lemma_front(s, 0, rex, op, insn::modrm_rr(dst.low_bits(), src));
    assert(s[0int + 0] == rex[0]);
    assert(s[1int + 0] == op[0]);
    assert(s[1int + 1] == op[1]);
    lemma_operand_rr(s, 3, prefix_of(s[0]), dst.low_bits(), src);
}

#[verifier::spinoff_prover]
#[verifier::rlimit(40)]
proof fn lemma_short(s: Seq<u8>, i: Insn, op: int, r: Reg)
    requires
        starts(s, i),
        i == (Insn::Push { r }) && op == 0x50 || i == (Insn::Pop { r }) && op == 0x58,
    ensures
        reads(s, i),
{
    reveal(has);
    reveal(starts);
    reveal(reads);
    reveal(decode);
    let rex = insn::rex(false, Reg::Rax, r);
    let tail = seq![(op + r.low_bits()) as u8];
    lemma_prefix(false, Reg::Rax, r);
    lemma_reg(r);
    lemma_has_parts(s, 0, rex, tail);
    let p = rex.len() as int;
    assert(s[p + 0] == tail[0]);
    if p == 1 {
        assert(s[0int + 0] == rex[0]);
    }
}

proof fn lemma_ret(s: Seq<u8>)
    requires
        starts(s, Insn::Ret),
    ensures
        reads(s, Insn::Ret),
{
    reveal(has);
    reveal(starts);
    reveal(reads);
    reveal(decode);
    assert(s[0int + 0] == insn::encode(Insn::Ret)[0]);
}

#[verifier::spinoff_prover]
#[verifier::rlimit(40)]
proof fn lemma_indirect(s: Seq<u8>, i: Insn, digit: int, r: Reg)
    requires
        starts(s, i),
        i == (Insn::CallR { r }) && digit == 2 || i == (Insn::JmpR { r }) && digit == 4,
    ensures
        reads(s, i),
{
    let rex = insn::rex(false, Reg::Rax, r);
    lemma_prefix(false, Reg::Rax, r);
    assert(insn::encode(i) == rex + seq![0xFFu8] + insn::modrm_rr(digit, r));
    assert(has(s, 0, rex + seq![0xFFu8] + insn::modrm_rr(digit, r))) by {
        reveal(starts);
    }
    lemma_front(s, 0, rex, seq![0xFFu8], insn::modrm_rr(digit, r));
    reveal(has);
    reveal(decode);
    reveal(reads);
    if rex.len() == 1 {
        assert(s[0int + 0] == rex[0]);
        assert(s[1int + 0] == 0xFFu8);
        lemma_operand_rr(s, 2, prefix_of(s[0]), digit, r);
    } else {
        assert(s[0int + 0] == 0xFFu8);
        lemma_operand_rr(s, 1, Prefix { w: false, r: 0, x: 0, b: 0 }, digit, r);
    }
}

proof fn lemma_decode_jump(target: int, rest: Seq<u8>)
    requires
        i32::MIN <= target <= i32::MAX,
    ensures
        decode(seq![0xE9u8] + insn::le4(insn::twos32(target)) + rest) == Some(
            (Fetched::Jmp(target), 5int),
        ),
{
    let field = insn::le4(insn::twos32(target));
    let s = seq![0xE9u8] + field + rest;
    lemma_has_front(seq![0xE9u8] + field, rest);
    lemma_has_parts(s, 0, seq![0xE9u8], field);
    lemma_signed(s, 1, target);
    reveal(decode);
    assert(s[0] == 0xE9u8);
}

proof fn lemma_decode_branch(cond: Cond, target: int, rest: Seq<u8>)
    requires
        i32::MIN <= target <= i32::MAX,
    ensures
        decode(
            seq![0x0Fu8, (0x80 + cond.number()) as u8] + insn::le4(insn::twos32(target)) + rest,
        ) == Some((Fetched::Jcc(cond, target), 6int)),
{
    let field = insn::le4(insn::twos32(target));
    let op = seq![0x0Fu8, (0x80 + cond.number()) as u8];
    let s = op + field + rest;
    lemma_has_front(op + field, rest);
    lemma_has_parts(s, 0, op, field);
    lemma_signed(s, 2, target);
    reveal(decode);
    assert(s[0] == 0x0Fu8);
    assert(s[1] == op[1]);
    assert(cond_of(cond.number()) == Some(cond));
}

/// The bytes behind line `k` of the code, when line `k` and those before it are taken away.
proof fn lemma_line(items: Seq<Item>, all: Seq<Item>, done: int, k: int) -> (parts: (
    Seq<u8>,
    Seq<u8>,
))
    requires
        0 <= k < items.len() <= done,
    ensures
        insn::code_upto(items, done, all) == parts.0 + insn::item_bytes(
            items[k],
            insn::resolved_field(items, k, all),
        ) + parts.1,
        parts.0.len() == insn::offset(items, k),
    decreases items.len(),
{
    let last = items.len() - 1;
    let front = items.drop_last();
    if k == last {
        assert(items.take(k) =~= front);
        layout::lemma_code_upto_len(front, done, all);
        let pre = insn::code_upto(front, done, all);
        assert(insn::code_upto(items, done, all) =~= pre + insn::item_bytes(
            items[k],
            insn::resolved_field(items, k, all),
        ) + seq![]);
        (pre, seq![])
    } else {
        let (pre, post) = lemma_line(front, all, done, k);
        assert(front.take(k) =~= items.take(k));
        assert(front[k] == items[k]);
        let more = insn::item_bytes(items.last(), insn::resolved_field(items, last, all));
        assert(insn::code_upto(items, done, all) =~= pre + insn::item_bytes(
            items[k],
            insn::resolved_field(items, k, all),
        ) + (post + more));
        (pre, post + more)
    }
}

/// What line `k` of a listing is read as.
pub open spec fn line_reads(items: Seq<Item>, k: int) -> bool {
    let at = insn::offset(items, k);
    let read = decode(insn::assemble(items).skip(at as int));
    match items[k] {
        Item::Op(i) => encodable(i) ==> read == Some((Fetched::Op(i), insn::item_len(items[k]) as int)),
        Item::Jmp(l) => match read {
            Some((Fetched::Jmp(rel), n)) => {
                &&& n == insn::item_len(items[k])
                &&& insn::label_at(items, l) matches Some(to)
                &&& to == at + n + rel
            },
            _ => false,
        },
        Item::Jcc(cond, l) => match read {
            Some((Fetched::Jcc(c, rel), n)) => {
                &&& c == cond
                &&& n == insn::item_len(items[k])
                &&& insn::label_at(items, l) matches Some(to)
                &&& to == at + n + rel
            },
            _ => false,
        },
        Item::Bind(_) => true,
    }
}

/// Finished code reads back as its listing: at the offset of each line stands the line's
/// instruction, and a jump goes to the offset its label is bound to.
pub proof fn law_code_reads_back(items: Seq<Item>, k: int)
    requires
        insn::jumps_resolve(items),
        0 <= k < items.len(),
    ensures
        line_reads(items, k),
{
    let (pre, post) = lemma_line(items, items, items.len() as int, k);
    assert(insn::jump_resolves(items, k));
    let bytes = insn::item_bytes(items[k], insn::resolved_field(items, k, items));
    let at = insn::offset(items, k) as int;
    assert(insn::assemble(items).skip(at) =~= bytes + post);
    match items[k] {
        Item::Op(i) => {
            if encodable(i) {
                law_decode_encode(i, post);
            }
        },
        Item::Jmp(l) => {
            lemma_decode_jump(
                insn::displacement((at + 1) as nat, insn::label_at(items, l).unwrap()),
                post,
            );
        },
        Item::Jcc(cond, l) => {
            lemma_decode_branch(
                cond,
                insn::displacement((at + 2) as nat, insn::label_at(items, l).unwrap()),
                post,
            );
        },
        Item::Bind(_) => {},
    }
}

} // verus!
