//! The instruction forms the assembler knows, and the bytes each one stands for.
use crate::assembler::{Cond, Reg};
use vstd::prelude::*;

verus! {

/// The arithmetic operations that take a destination and a source.
pub enum Alu {
    Add,
    Or,
    And,
    Sub,
    Cmp,
}

impl Alu {
    /// The three-bit number the architecture gives the operation.
    pub open spec fn digit(self) -> int {
        match self {
            Alu::Add => 0,
            Alu::Or => 1,
            Alu::And => 4,
            Alu::Sub => 5,
            Alu::Cmp => 7,
        }
    }
}

/// The shifts by a constant.
pub enum Shift {
    Shl,
    Shr,
    Sar,
}

impl Shift {
    /// The three-bit number the architecture gives the shift.
    pub open spec fn digit(self) -> int {
        match self {
            Shift::Shl => 4,
            Shift::Shr => 5,
            Shift::Sar => 7,
        }
    }
}

/// One machine instruction without a label operand.
///
/// A memory operand `[base + disp]` carries a 32-bit displacement, an indexed one is
/// `[base + index * 8 + disp]` with an 8-bit displacement.
#[allow(inconsistent_fields)]
pub enum Insn {
    /// `dst = src`
    MovRR { dst: Reg, src: Reg },
    /// `dst = [base + disp]`
    MovRM { dst: Reg, base: Reg, disp: i32 },
    /// `[base + disp] = src`
    MovMR { base: Reg, disp: i32, src: Reg },
    /// `dst = imm`
    MovRI { dst: Reg, imm: u64 },
    /// `dst = [base + disp]`, 32 bits, upper half cleared
    MovRM32 { dst: Reg, base: Reg, disp: i32 },
    /// `[base + disp] = src`, lower 32 bits
    MovMR32 { base: Reg, disp: i32, src: Reg },
    /// `dst = [base + index * 8 + disp]`
    MovRMIdx8 { dst: Reg, base: Reg, index: Reg, disp: i8 },
    /// `[base + index * 8 + disp] = src`
    MovMRIdx8 { base: Reg, index: Reg, disp: i8, src: Reg },
    /// atomically `[base + disp] += src`, with the old word left in `src`
    LockXadd { base: Reg, disp: i32, src: Reg },
    /// atomically `[base + disp] += imm`
    LockAddMI { base: Reg, disp: i32, imm: i32 },
    /// `[base + disp] -= imm`
    SubMI { base: Reg, disp: i32, imm: i32 },
    /// `[base + disp] = imm`, sign-extended to 64 bits
    MovMI32 { base: Reg, disp: i32, imm: i32 },
    /// `dst = dst op src` (`Cmp` only sets the flags)
    AluRR { op: Alu, dst: Reg, src: Reg },
    /// sets the flags of `a & b`
    TestRR { a: Reg, b: Reg },
    /// `dst = dst op imm` (`Cmp` only sets the flags)
    AluRI { op: Alu, dst: Reg, imm: i32 },
    /// `dst = dst shifted by imm`
    ShiftRI { op: Shift, dst: Reg, imm: u8 },
    /// `dst = dst * src`
    ImulRR { dst: Reg, src: Reg },
    Push { r: Reg },
    Pop { r: Reg },
    /// indirect call through `r`
    CallR { r: Reg },
    /// indirect jump through `r`
    JmpR { r: Reg },
    Ret,
}

/// The 32-bit two's complement of `x`.
pub open spec fn twos32(x: int) -> int {
    if x < 0 {
        x + 0x1_0000_0000
    } else {
        x
    }
}

/// The 8-bit two's complement of `x`.
pub open spec fn twos8(x: int) -> int {
    if x < 0 {
        x + 0x100
    } else {
        x
    }
}

/// The four bytes of `v`, least significant first.
pub open spec fn le4(v: int) -> Seq<u8> {
    seq![
        (v % 256) as u8,
        (v / 0x100 % 256) as u8,
        (v / 0x1_0000 % 256) as u8,
        (v / 0x100_0000 % 256) as u8,
    ]
}

/// The eight bytes of `v`, least significant first.
pub open spec fn le8(v: int) -> Seq<u8> {
    le4(v % 0x1_0000_0000) + le4(v / 0x1_0000_0000)
}

pub open spec fn bit(b: bool) -> int {
    if b {
        1
    } else {
        0
    }
}

/// The prefix that widens the operands to 64 bits (`w`) and carries the fourth bit of the
/// `reg` and `rm` register numbers. It is left out where it would say nothing.
pub open spec fn rex(w: bool, reg: Reg, rm: Reg) -> Seq<u8> {
    let b = 0x40 + 8 * bit(w) + 4 * bit(reg.is_ext()) + bit(rm.is_ext());
    if b == 0x40 {
        seq![]
    } else {
        seq![b as u8]
    }
}

/// The prefix of an indexed operand: always 64-bit, with the fourth bit of three registers.
pub open spec fn rex_idx(reg: Reg, index: Reg, base: Reg) -> Seq<u8> {
    seq![(0x48 + 4 * bit(reg.is_ext()) + 2 * bit(index.is_ext()) + bit(base.is_ext())) as u8]
}

/// The operand byte of a register pair.
pub open spec fn modrm_rr(reg: int, rm: Reg) -> Seq<u8> {
    seq![(0xC0 + 8 * reg + rm.low_bits()) as u8]
}

/// The operand bytes of a register and `[base + disp]`. A base whose low bits are those of
/// the stack pointer needs the extra byte that says "no index".
pub open spec fn modrm_mem(reg: int, base: Reg, disp: i32) -> Seq<u8> {
    seq![(0x80 + 8 * reg + base.low_bits()) as u8] + (if base.low_bits() == 4 {
        seq![0x24u8]
    } else {
        seq![]
    }) + le4(twos32(disp as int))
}

/// The operand bytes of a register and `[base + index * 8 + disp]`.
pub open spec fn modrm_idx8(reg: int, base: Reg, index: Reg, disp: i8) -> Seq<u8> {
    seq![
        (0x44 + 8 * reg) as u8,
        (0xC0 + 8 * index.low_bits() + base.low_bits()) as u8,
        twos8(disp as int) as u8,
    ]
}

/// The bytes of one instruction.
pub open spec fn encode(i: Insn) -> Seq<u8> {
    match i {
        Insn::MovRR { dst, src } => rex(true, src, dst) + seq![0x89u8] + modrm_rr(
            src.low_bits(),
            dst,
        ),
        Insn::MovRM { dst, base, disp } => rex(true, dst, base) + seq![0x8Bu8] + modrm_mem(
            dst.low_bits(),
            base,
            disp,
        ),
        Insn::MovMR { base, disp, src } => rex(true, src, base) + seq![0x89u8] + modrm_mem(
            src.low_bits(),
            base,
            disp,
        ),
        Insn::MovRI { dst, imm } => rex(true, Reg::Rax, dst) + seq![
            (0xB8 + dst.low_bits()) as u8,
        ] + le8(imm as int),
        Insn::MovRM32 { dst, base, disp } => rex(false, dst, base) + seq![0x8Bu8] + modrm_mem(
            dst.low_bits(),
            base,
            disp,
        ),
        Insn::MovMR32 { base, disp, src } => rex(false, src, base) + seq![0x89u8] + modrm_mem(
            src.low_bits(),
            base,
            disp,
        ),
        Insn::MovRMIdx8 { dst, base, index, disp } => rex_idx(dst, index, base) + seq![0x8Bu8]
            + modrm_idx8(dst.low_bits(), base, index, disp),
        Insn::MovMRIdx8 { base, index, disp, src } => rex_idx(src, index, base) + seq![0x89u8]
            + modrm_idx8(src.low_bits(), base, index, disp),
        Insn::LockXadd { base, disp, src } => seq![0xF0u8] + rex(true, src, base) + seq![
            0x0Fu8,
            0xC1u8,
        ] + modrm_mem(src.low_bits(), base, disp),
        Insn::LockAddMI { base, disp, imm } => seq![0xF0u8] + rex(true, Reg::Rax, base) + seq![
            0x81u8,
        ] + modrm_mem(0, base, disp) + le4(twos32(imm as int)),
        Insn::SubMI { base, disp, imm } => rex(true, Reg::Rax, base) + seq![0x81u8] + modrm_mem(
            5,
            base,
            disp,
        ) + le4(twos32(imm as int)),
        Insn::MovMI32 { base, disp, imm } => rex(true, Reg::Rax, base) + seq![0xC7u8] + modrm_mem(
            0,
            base,
            disp,
        ) + le4(twos32(imm as int)),
        Insn::AluRR { op, dst, src } => rex(true, src, dst) + seq![(8 * op.digit() + 1) as u8]
            + modrm_rr(src.low_bits(), dst),
        Insn::TestRR { a, b } => rex(true, b, a) + seq![0x85u8] + modrm_rr(b.low_bits(), a),
        Insn::AluRI { op, dst, imm } => rex(true, Reg::Rax, dst) + seq![0x81u8] + modrm_rr(
            op.digit(),
            dst,
        ) + le4(twos32(imm as int)),
        Insn::ShiftRI { op, dst, imm } => rex(true, Reg::Rax, dst) + seq![0xC1u8] + modrm_rr(
            op.digit(),
            dst,
        ) + seq![imm],
        Insn::ImulRR { dst, src } => rex(true, dst, src) + seq![0x0Fu8, 0xAFu8] + modrm_rr(
            dst.low_bits(),
            src,
        ),
        Insn::Push { r } => rex(false, Reg::Rax, r) + seq![(0x50 + r.low_bits()) as u8],
        Insn::Pop { r } => rex(false, Reg::Rax, r) + seq![(0x58 + r.low_bits()) as u8],
        Insn::CallR { r } => rex(false, Reg::Rax, r) + seq![0xFFu8] + modrm_rr(2, r),
        Insn::JmpR { r } => rex(false, Reg::Rax, r) + seq![0xFFu8] + modrm_rr(4, r),
        Insn::Ret => seq![0xC3u8],
    }
}

/// One line of a listing.
pub enum Item {
    Op(Insn),
    /// jump to the label
    Jmp(nat),
    /// jump to the label if the condition holds
    Jcc(Cond, nat),
    /// the place the label stands for
    Bind(nat),
}

/// What has been assembled so far: the lines in order, and how many labels were handed out.
#[verifier::ext_equal]
pub struct Listing {
    pub items: Seq<Item>,
    pub labels: nat,
}

impl Listing {
    pub open spec fn empty() -> Listing {
        Listing { items: seq![], labels: 0 }
    }

    /// The listing with one line more.
    pub open spec fn push(self, item: Item) -> Listing {
        Listing { items: self.items.push(item), labels: self.labels }
    }

    /// The listing with one instruction more.
    pub open spec fn op(self, i: Insn) -> Listing {
        self.push(Item::Op(i))
    }

    /// The listing with one label more.
    pub open spec fn fresh(self) -> Listing {
        Listing { items: self.items, labels: self.labels + 1 }
    }

    /// The listing with several lines and several labels more.
    pub open spec fn append(self, items: Seq<Item>, labels: nat) -> Listing {
        Listing { items: self.items + items, labels: self.labels + labels }
    }
}

/// The displacement field of a jump, counted from the end of its four bytes.
pub open spec fn displacement(at: nat, target: nat) -> int {
    target - (at + 4)
}

/// How many bytes come before the displacement field of a line.
pub open spec fn jump_opcode_len(item: Item) -> nat {
    match item {
        Item::Jmp(_) => 1,
        Item::Jcc(_, _) => 2,
        _ => 0,
    }
}

/// The label a line jumps to.
pub open spec fn jump_label(item: Item) -> Option<nat> {
    match item {
        Item::Jmp(l) => Some(l),
        Item::Jcc(_, l) => Some(l),
        _ => None,
    }
}

/// How many bytes a line takes.
pub open spec fn item_len(item: Item) -> nat {
    match item {
        Item::Op(i) => encode(i).len(),
        Item::Jmp(_) => 5,
        Item::Jcc(_, _) => 6,
        Item::Bind(_) => 0,
    }
}

/// How many bytes the lines take.
pub open spec fn code_len(items: Seq<Item>) -> nat
    decreases items.len(),
{
    if items.len() == 0 {
        0
    } else {
        code_len(items.drop_last()) + item_len(items.last())
    }
}

/// The offset in the code at which line `k` stands.
pub open spec fn offset(items: Seq<Item>, k: int) -> nat {
    code_len(items.take(k))
}

/// The offset the label is bound to.
pub open spec fn label_at(items: Seq<Item>, label: nat) -> Option<nat>
    decreases items.len(),
{
    if items.len() == 0 {
        None
    } else if items.last() == Item::Bind(label) {
        Some(code_len(items.drop_last()))
    } else {
        label_at(items.drop_last(), label)
    }
}

/// The bytes of a line, with the field of a jump holding `field`.
pub open spec fn item_bytes(item: Item, field: int) -> Seq<u8> {
    match item {
        Item::Op(i) => encode(i),
        Item::Jmp(_) => seq![0xE9u8] + le4(field),
        Item::Jcc(cond, _) => seq![0x0Fu8, (0x80 + cond.number()) as u8] + le4(field),
        Item::Bind(_) => seq![],
    }
}

/// The field of line `k` of `items` in the finished code, in which jumps reach the places
/// that `all` binds their labels to.
pub open spec fn resolved_field(items: Seq<Item>, k: int, all: Seq<Item>) -> int {
    match jump_label(items[k]) {
        Some(l) => twos32(
            displacement(
                offset(items, k) + jump_opcode_len(items[k]),
                label_at(all, l).unwrap(),
            ),
        ),
        None => 0,
    }
}

/// The code of `items` in which the jumps among the first `done` lines are resolved and the
/// others hold zero.
pub open spec fn code_upto(items: Seq<Item>, done: int, all: Seq<Item>) -> Seq<u8>
    decreases items.len(),
{
    if items.len() == 0 {
        seq![]
    } else {
        let k = items.len() - 1;
        code_upto(items.drop_last(), done, all) + item_bytes(
            items.last(),
            if k < done {
                resolved_field(items, k, all)
            } else {
                0
            },
        )
    }
}

/// The finished code of a listing: the bytes of its lines one after another, with every jump
/// resolved.
pub open spec fn assemble(items: Seq<Item>) -> Seq<u8> {
    code_upto(items, items.len() as int, items)
}

/// Line `k` can be finished: if it is a jump, its label is bound and near enough.
pub open spec fn jump_resolves(items: Seq<Item>, k: int) -> bool {
    match jump_label(items[k]) {
        Some(l) => {
            &&& label_at(items, l) is Some
            &&& i32::MIN <= displacement(
                offset(items, k) + jump_opcode_len(items[k]),
                label_at(items, l).unwrap(),
            ) <= i32::MAX
        },
        None => true,
    }
}

/// Every jump can be finished.
pub open spec fn jumps_resolve(items: Seq<Item>) -> bool {
    forall|k: int| 0 <= k < items.len() ==> #[trigger] jump_resolves(items, k)
}

/// The displacement fields of the jumps, in order, each with its label.
pub open spec fn fixups_of(items: Seq<Item>) -> Seq<(nat, nat)>
    decreases items.len(),
{
    if items.len() == 0 {
        seq![]
    } else {
        let rest = fixups_of(items.drop_last());
        match jump_label(items.last()) {
            Some(l) => rest.push(
                (code_len(items.drop_last()) + jump_opcode_len(items.last()), l),
            ),
            None => rest,
        }
    }
}

} // verus!
