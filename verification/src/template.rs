//! The listing that each bytecode instruction is compiled to.
//!
//! Registers keep their role throughout: `CTX` holds the address of the context, `TOP` the
//! number of values on the stack, `LOCALS` and `STACK` the addresses of the first local and
//! of the first stack slot. `SCRATCH` survives helper calls.
//!
//! A template is a function of the first label number it may use.
use crate::assembler::{Cond, Reg};
use crate::bytecode;
use crate::bytecode::CodeUnit;
use crate::codegen::{HelperId, BORROW_TAG};
use crate::exec::Abi;
use crate::insn::{Alu, Insn, Item, Shift};
use vstd::prelude::*;

verus! {

pub const CTX: Reg = Reg::Rbx;
pub const TOP: Reg = Reg::R12;
pub const LOCALS: Reg = Reg::R13;
pub const STACK: Reg = Reg::R14;
pub const SCRATCH: Reg = Reg::R15;

/// Byte offsets of the fields of a context.
pub const CTX_LOCALS: i32 = 8;
pub const CTX_STACK_TOP: i32 = 16;
pub const CTX_NLOCALSPLUS: i32 = 24;
pub const CTX_BREAKER: i32 = 32;

/// Which bit of a strong count marks an object that is never dropped.
pub const LEAKED_SHIFT: u8 = 61;

/// How many upper bits of a strong count are flags.
pub const FLAG_BITS: u8 = 3;

/// The mask that clears the borrow tag of a stack value.
pub const UNTAG: i32 = -2;

/// The distance of the topmost value from the first free stack slot.
pub const TOP_SLOT: i8 = -8;

/// What generated code has baked in.
pub struct Facts {
    pub helpers: spec_fn(HelperId) -> u64,
    pub refcount_offset: i32,
    pub true_ptr: u64,
    pub false_ptr: u64,
    pub none_ptr: u64,
    /// The address of the interned small int, where there is one.
    pub small_int: spec_fn(i32) -> Option<u64>,
    pub abi: Abi,
    /// How many units there are. Unit `i` has label `i`, the epilogue has label `len`.
    pub len: nat,
}

/// Leaves with `lasti` as the result.
#[verifier::opaque]
pub open spec fn exit(f: Facts, lasti: int) -> Seq<Item> {
    seq![Item::Op(Insn::MovRI { dst: Reg::Rax, imm: lasti as u64 }), Item::Jmp(f.len)]
}

/// Writes the stack height to the shared word.
#[verifier::opaque]
pub open spec fn sync_out() -> Seq<Item> {
    seq![
        Item::Op(Insn::MovRM { dst: Reg::Rcx, base: CTX, disp: CTX_STACK_TOP }),
        Item::Op(Insn::MovMR32 { base: Reg::Rcx, disp: 0, src: TOP }),
    ]
}

/// Reads the stack height from the shared word.
#[verifier::opaque]
pub open spec fn sync_in() -> Seq<Item> {
    seq![
        Item::Op(Insn::MovRM { dst: Reg::Rcx, base: CTX, disp: CTX_STACK_TOP }),
        Item::Op(Insn::MovRM32 { dst: TOP, base: Reg::Rcx, disp: 0 }),
    ]
}

#[verifier::opaque]
pub open spec fn call_raw(f: Facts, id: HelperId) -> Seq<Item> {
    seq![
        Item::Op(Insn::MovRR { dst: f.abi.first_arg(), src: CTX }),
        Item::Op(Insn::MovRI { dst: Reg::Rax, imm: (f.helpers)(id) }),
        Item::Op(Insn::CallR { r: Reg::Rax }),
    ]
}

/// Calls a helper with a constant operand; after an error leaves just behind unit `idx`.
#[verifier::opaque]
pub open spec fn call(f: Facts, id: HelperId, arg: u64, idx: int, l: nat) -> Seq<Item> {
    sync_out() + seq![Item::Op(Insn::MovRI { dst: f.abi.second_arg(), imm: arg })]
            + call_raw(f, id) + sync_in() + seq![
            Item::Op(Insn::TestRR { a: Reg::Rax, b: Reg::Rax }),
            Item::Jcc(Cond::NS, l),
        ] + exit(f, idx + 1) + seq![Item::Bind(l)]
}

/// Calls a helper with the operand in a register.
#[verifier::opaque]
pub open spec fn call_with_reg_arg(f: Facts, id: HelperId, arg: Reg) -> Seq<Item> {
    sync_out() + seq![Item::Op(Insn::MovRR { dst: f.abi.second_arg(), src: arg })] + call_raw(f, id)
        + sync_in()
}

#[verifier::opaque]
pub open spec fn push(r: Reg) -> Seq<Item> {
    seq![
        Item::Op(Insn::MovMRIdx8 { base: STACK, index: TOP, disp: 0, src: r }),
        Item::Op(Insn::AluRI { op: Alu::Add, dst: TOP, imm: 1 }),
    ]
}

#[verifier::opaque]
pub open spec fn pop(r: Reg) -> Seq<Item> {
    seq![
        Item::Op(Insn::AluRI { op: Alu::Sub, dst: TOP, imm: 1 }),
        Item::Op(Insn::MovRMIdx8 { dst: r, base: STACK, index: TOP, disp: 0 }),
    ]
}

#[verifier::opaque]
pub open spec fn peek(r: Reg) -> Seq<Item> {
    seq![Item::Op(Insn::MovRMIdx8 { dst: r, base: STACK, index: TOP, disp: TOP_SLOT })]
}

#[verifier::opaque]
pub open spec fn incref(f: Facts, obj: Reg) -> Seq<Item> {
    seq![Item::Op(Insn::LockAddMI { base: obj, disp: f.refcount_offset, imm: 1 })]
}

/// Decrements the strong count of the object in `rax`; hands the object to the drop helper
/// when the count reaches zero.
#[verifier::opaque]
pub open spec fn decref_rax(f: Facts, l: nat) -> Seq<Item> {
    seq![
            Item::Op(Insn::MovRI { dst: Reg::Rdx, imm: u64::MAX }),
            Item::Op(Insn::LockXadd { base: Reg::Rax, disp: f.refcount_offset, src: Reg::Rdx }),
            Item::Op(Insn::MovRR { dst: Reg::Rcx, src: Reg::Rdx }),
            Item::Op(Insn::ShiftRI { op: Shift::Shr, dst: Reg::Rcx, imm: LEAKED_SHIFT }),
            Item::Op(Insn::AluRI { op: Alu::And, dst: Reg::Rcx, imm: 1 }),
            Item::Jcc(Cond::NE, l),
            Item::Op(Insn::ShiftRI { op: Shift::Shl, dst: Reg::Rdx, imm: FLAG_BITS }),
            Item::Op(Insn::ShiftRI { op: Shift::Shr, dst: Reg::Rdx, imm: FLAG_BITS }),
            Item::Op(Insn::AluRI { op: Alu::Cmp, dst: Reg::Rdx, imm: 1 }),
            Item::Jcc(Cond::NE, l),
        ] + call_with_reg_arg(f, HelperId::Drop, Reg::Rax) + seq![Item::Bind(l)]
}

/// Releases the stack value in `rax`: borrowed and null values are let go without touching
/// any count.
#[verifier::opaque]
pub open spec fn discard_rax(f: Facts, l: nat) -> Seq<Item> {
    seq![
            Item::Op(Insn::MovRR { dst: Reg::Rcx, src: Reg::Rax }),
            Item::Op(Insn::AluRI { op: Alu::And, dst: Reg::Rcx, imm: 1 }),
            Item::Jcc(Cond::NE, l),
            Item::Op(Insn::TestRR { a: Reg::Rax, b: Reg::Rax }),
            Item::Jcc(Cond::E, l),
        ] + decref_rax(f, l + 1) + seq![Item::Bind(l)]
}

/// Turns the stack value in `rax` into an owned reference.
#[verifier::opaque]
pub open spec fn promote_rax(f: Facts, l: nat) -> Seq<Item> {
    seq![
            Item::Op(Insn::MovRR { dst: Reg::Rcx, src: Reg::Rax }),
            Item::Op(Insn::AluRI { op: Alu::And, dst: Reg::Rcx, imm: 1 }),
            Item::Jcc(Cond::E, l),
            Item::Op(Insn::AluRI { op: Alu::And, dst: Reg::Rax, imm: UNTAG }),
        ] + incref(f, Reg::Rax) + seq![Item::Bind(l)]
}

/// The displacement of a local from the first one.
pub open spec fn local_disp(var: u32) -> int {
    (var as i32) * 8
}

/// The displacement of the local can be encoded.
pub open spec fn local_fits(var: u32) -> bool {
    i32::MIN <= local_disp(var) <= i32::MAX
}

#[verifier::opaque]
pub open spec fn load_fast(f: Facts, var: u32, idx: int, l: nat) -> Seq<Item> {
    seq![
            Item::Op(Insn::MovRM { dst: Reg::Rax, base: LOCALS, disp: local_disp(var) as i32 }),
            Item::Op(Insn::TestRR { a: Reg::Rax, b: Reg::Rax }),
            Item::Jcc(Cond::E, l),
        ] + incref(f, Reg::Rax) + push(Reg::Rax) + seq![Item::Jmp(l + 1), Item::Bind(l)] + call(
            f,
            HelperId::LoadFast,
            var as u64,
            idx,
            l + 2,
        ) + seq![Item::Bind(l + 1)]
}

#[verifier::opaque]
pub open spec fn store_fast(f: Facts, var: u32, l: nat) -> Seq<Item> {
    pop(Reg::Rax) + promote_rax(f, l + 1) + seq![
            Item::Op(Insn::MovRM { dst: Reg::Rcx, base: LOCALS, disp: local_disp(var) as i32 }),
            Item::Op(Insn::MovMR { base: LOCALS, disp: local_disp(var) as i32, src: Reg::Rax }),
            Item::Op(Insn::MovRR { dst: Reg::Rax, src: Reg::Rcx }),
            Item::Op(Insn::TestRR { a: Reg::Rax, b: Reg::Rax }),
            Item::Jcc(Cond::E, l),
        ] + decref_rax(f, l + 2) + seq![Item::Bind(l)]
}

#[verifier::opaque]
pub open spec fn pop_top(f: Facts, l: nat) -> Seq<Item> {
    pop(Reg::Rax) + discard_rax(f, l)
}

/// Pushes the bool singleton that `SCRATCH` selects.
#[verifier::opaque]
pub open spec fn push_bool_from_scratch(f: Facts, l: nat) -> Seq<Item> {
    seq![
            Item::Op(Insn::AluRI { op: Alu::Cmp, dst: SCRATCH, imm: 1 }),
            Item::Jcc(Cond::E, l),
            Item::Op(Insn::MovRI { dst: Reg::Rax, imm: f.false_ptr | BORROW_TAG }),
        ] + push(Reg::Rax) + seq![
            Item::Jmp(l + 1),
            Item::Bind(l),
            Item::Op(Insn::MovRI { dst: Reg::Rax, imm: f.true_ptr | BORROW_TAG }),
        ] + push(Reg::Rax) + seq![Item::Bind(l + 1)]
}

/// The condition that holds where `cond`, one of `E` and `NE`, does not.
pub open spec fn flipped(cond: Cond) -> Cond {
    if cond == Cond::E {
        Cond::NE
    } else {
        Cond::E
    }
}

/// Goes to unit `target`, or leaves where there is no such unit.
#[verifier::opaque]
pub open spec fn jump(f: Facts, target: int) -> Seq<Item> {
    if target < f.len {
        seq![Item::Jmp(target as nat)]
    } else {
        exit(f, target)
    }
}

/// How many labels a branch to unit `target` uses.
pub open spec fn branch_labels(f: Facts, target: int) -> nat {
    if target < f.len {
        0
    } else {
        1
    }
}

/// Goes to unit `target` if `cond` holds.
#[verifier::opaque]
pub open spec fn branch_to(f: Facts, cond: Cond, target: int, l: nat) -> Seq<Item> {
    if target < f.len {
        seq![Item::Jcc(cond, target as nat)]
    } else {
        seq![Item::Jcc(flipped(cond), l)] + exit(f, target) + seq![Item::Bind(l)]
    }
}

/// Goes to unit `target` if `cond` holds of the comparison of `rax` with one.
#[verifier::opaque]
pub open spec fn branch_if(f: Facts, cond: Cond, target: int, l: nat) -> Seq<Item> {
    seq![Item::Op(Insn::AluRI { op: Alu::Cmp, dst: Reg::Rax, imm: 1 })] + branch_to(
            f,
            cond,
            target,
            l,
        )
}

/// A conditional jump that is compiled together with the comparison before it.
pub struct Fused {
    pub jump_on: bool,
    pub target: int,
    /// the unit after the jump
    pub after: int,
}

pub open spec fn on(jump_on: bool) -> Cond {
    if jump_on {
        Cond::E
    } else {
        Cond::NE
    }
}

/// How many labels a comparison uses after a result of the fast helper.
pub open spec fn hit_labels(f: Facts, fused: Option<Fused>) -> nat {
    match fused {
        Some(j) => branch_labels(f, j.target),
        None => 2,
    }
}

/// What a comparison does with a result of the fast helper.
#[verifier::opaque]
pub open spec fn compare_hit(f: Facts, fused: Option<Fused>, l: nat) -> Seq<Item> {
    match fused {
        Some(j) => seq![Item::Op(Insn::AluRI { op: Alu::Cmp, dst: SCRATCH, imm: 1 })] + branch_to(
            f,
            on(j.jump_on),
            j.target,
            l,
        ),
        None => push_bool_from_scratch(f, l),
    }
}

/// How many labels a comparison uses after the generic helper.
pub open spec fn miss_labels(f: Facts, fused: Option<Fused>) -> nat {
    match fused {
        Some(j) => 1 + branch_labels(f, j.target),
        None => 0,
    }
}

/// What a comparison does after the generic helper has pushed the result.
#[verifier::opaque]
pub open spec fn compare_miss(f: Facts, fused: Option<Fused>, idx: int, l: nat) -> Seq<Item> {
    match fused {
        Some(j) => call(f, HelperId::PopIsTrue, 0, idx, l) + branch_if(
            f,
            on(j.jump_on),
            j.target,
            l + 1,
        ),
        None => seq![],
    }
}

/// Compares through the fast helper; on a miss falls back to the generic helper.
#[verifier::opaque]
pub open spec fn compare_op(
    f: Facts,
    arg: u32,
    idx: int,
    fused: Option<Fused>,
    l: nat,
) -> Seq<Item> {
    let m = l + 7 + hit_labels(f, fused);
    call(f, HelperId::CompareFast, arg as u64, idx, l + 2) + seq![
        Item::Op(Insn::AluRI { op: Alu::Cmp, dst: Reg::Rax, imm: 2 }),
        Item::Jcc(Cond::E, l),
        Item::Op(Insn::MovRR { dst: SCRATCH, src: Reg::Rax }),
    ] + pop_top(f, l + 3) + pop_top(f, l + 5) + compare_hit(f, fused, l + 7) + seq![
        Item::Jmp(l + 1),
        Item::Bind(l),
    ] + call(f, HelperId::CompareOp, arg as u64, idx, m) + compare_miss(f, fused, idx, m + 1)
        + seq![Item::Bind(l + 1)] + (match fused {
        Some(j) => jump(f, j.after),
        None => seq![],
    })
}

/// Counts a back-edge, and asks the eval breaker when the count runs out.
#[verifier::opaque]
pub open spec fn eval_breaker(f: Facts, idx: int, l: nat) -> Seq<Item> {
    seq![
            Item::Op(Insn::SubMI { base: CTX, disp: CTX_BREAKER, imm: 1 }),
            Item::Jcc(Cond::NE, l),
        ] + call(f, HelperId::EvalBreaker, 0, idx, l + 1) + seq![
            Item::Op(Insn::MovMI32 { base: CTX, disp: CTX_BREAKER, imm: 64 }),
            Item::Bind(l),
        ]
}

/// Arithmetic through the fast helper; on a miss falls back to the generic helper.
#[verifier::opaque]
pub open spec fn binary_op_int(f: Facts, arg: u32, idx: int, l: nat) -> Seq<Item> {
    call(f, HelperId::BinaryOpIntFast, arg as u64, idx, l + 1) + seq![
            Item::Op(Insn::AluRI { op: Alu::Cmp, dst: Reg::Rax, imm: 2 }),
            Item::Jcc(Cond::NE, l),
        ] + call(f, HelperId::BinaryOp, arg as u64, idx, l + 2) + seq![Item::Bind(l)]
}

#[verifier::opaque]
pub open spec fn load_small_int(f: Facts, i: u32, idx: int, l: nat) -> Seq<Item> {
    match (f.small_int)(i as i32) {
        Some(ptr) => seq![Item::Op(Insn::MovRI { dst: Reg::Rax, imm: ptr | BORROW_TAG })] + push(
            Reg::Rax,
        ),
        None => call(f, HelperId::LoadSmallInt, i as u64, idx, l),
    }
}

/// Lets go of the value in `rax` that is still on the stack.
#[verifier::opaque]
pub open spec fn drop_top(f: Facts, l: nat) -> Seq<Item> {
    seq![Item::Op(Insn::AluRI { op: Alu::Sub, dst: TOP, imm: 1 })] + discard_rax(f, l)
}

/// Looks at the topmost value: goes to label `l` for true, to the next one for false, to the
/// one after that for anything else.
#[verifier::opaque]
pub open spec fn test_bool(f: Facts, l: nat) -> Seq<Item> {
    peek(Reg::Rax) + seq![
        Item::Op(Insn::MovRR { dst: Reg::Rcx, src: Reg::Rax }),
        Item::Op(Insn::AluRI { op: Alu::And, dst: Reg::Rcx, imm: UNTAG }),
        Item::Op(Insn::MovRI { dst: Reg::Rdx, imm: f.true_ptr }),
        Item::Op(Insn::AluRR { op: Alu::Cmp, dst: Reg::Rcx, src: Reg::Rdx }),
        Item::Jcc(Cond::E, l),
        Item::Op(Insn::MovRI { dst: Reg::Rdx, imm: f.false_ptr }),
        Item::Op(Insn::AluRR { op: Alu::Cmp, dst: Reg::Rcx, src: Reg::Rdx }),
        Item::Jcc(Cond::E, l + 1),
        Item::Jmp(l + 2),
    ]
}

/// Pops a value and goes to unit `target` when it is the bool singleton that `jump_on`
/// selects; anything but a bool goes through the helper.
#[verifier::opaque]
pub open spec fn pop_jump_if_bool(
    f: Facts,
    jump_on: bool,
    target: int,
    idx: int,
    l: nat,
) -> Seq<Item> {
    let taken: nat = if jump_on {
        l
    } else {
        l + 1
    };
    let not_taken: nat = if jump_on {
        l + 1
    } else {
        l
    };
    test_bool(f, l).push(Item::Bind(taken)) + drop_top(f, l + 4) + jump(f, target) + seq![
        Item::Bind(not_taken),
    ] + drop_top(f, l + 6)
        + seq![Item::Jmp(l + 3), Item::Bind(l + 2)] + call(f, HelperId::PopIsTrue, 0, idx, l + 8)
        + branch_if(f, on(jump_on), target, l + 9) + seq![Item::Bind(l + 3)]
}

/// Pops a value: goes to label `l` for anything but none.
#[verifier::opaque]
pub open spec fn test_none(f: Facts, l: nat) -> Seq<Item> {
    pop(Reg::Rax) + seq![
        Item::Op(Insn::MovRR { dst: Reg::Rcx, src: Reg::Rax }),
        Item::Op(Insn::AluRI { op: Alu::And, dst: Reg::Rcx, imm: UNTAG }),
        Item::Op(Insn::MovRI { dst: Reg::Rdx, imm: f.none_ptr }),
        Item::Op(Insn::AluRR { op: Alu::Cmp, dst: Reg::Rcx, src: Reg::Rdx }),
        Item::Jcc(Cond::NE, l),
    ]
}

/// Pops a value and goes to unit `target` when it is, or is not, the none singleton.
#[verifier::opaque]
pub open spec fn pop_jump_if_none(f: Facts, jump_on_none: bool, target: int, l: nat) -> Seq<Item> {
    test_none(f, l + 1) + discard_rax(f, l + 3) + seq![Item::Jmp(l), Item::Bind(l + 1)] + discard_rax(
            f,
            l + 5,
        ) + seq![Item::Jmp(l + 7)] + (if jump_on_none {
            seq![Item::Bind(l)] + jump(f, target) + seq![Item::Bind(l + 7)]
        } else {
            seq![Item::Bind(l), Item::Jmp(l + 2), Item::Bind(l + 7)] + jump(f, target)
        }) + seq![Item::Bind(l + 2)]
}

/// What the compiler does with an instruction.
pub enum Op {
    /// only widens the operand of the next instruction
    Extend,
    Nothing,
    LoadFast,
    LoadFastLoadFast,
    StoreFast,
    StoreFastLoadFast,
    StoreFastStoreFast,
    LoadSmallInt,
    BinaryOp,
    CompareOp,
    PopTop,
    PopJumpIfBool(bool),
    PopJumpIfNone(bool),
    ForIter,
    JumpForward,
    JumpBackward,
    JumpBackwardNoInterrupt,
    /// a call of the helper with the operand
    Helper(HelperId),
    /// a call of the helper without an operand
    PlainHelper(HelperId),
    /// left to the interpreter
    Unsupported,
}

/// What the compiler does with the instruction of base opcode `base`.
pub open spec fn classify(base: u8) -> Op {
    if base == bytecode::EXTENDED_ARG {
        Op::Extend
    } else if base == bytecode::CACHE || base == bytecode::NOP || base == bytecode::NOT_TAKEN {
        Op::Nothing
    } else if base == bytecode::LOAD_FAST || base == bytecode::LOAD_FAST_BORROW || base
        == bytecode::LOAD_FAST_CHECK {
        Op::LoadFast
    } else if base == bytecode::LOAD_FAST_LOAD_FAST || base
        == bytecode::LOAD_FAST_BORROW_LOAD_FAST_BORROW {
        Op::LoadFastLoadFast
    } else if base == bytecode::STORE_FAST {
        Op::StoreFast
    } else if base == bytecode::STORE_FAST_LOAD_FAST {
        Op::StoreFastLoadFast
    } else if base == bytecode::STORE_FAST_STORE_FAST {
        Op::StoreFastStoreFast
    } else if base == bytecode::LOAD_CONST {
        Op::Helper(HelperId::LoadConst)
    } else if base == bytecode::LOAD_SMALL_INT {
        Op::LoadSmallInt
    } else if base == bytecode::LOAD_GLOBAL {
        Op::Helper(HelperId::LoadGlobal)
    } else if base == bytecode::BINARY_OP {
        Op::BinaryOp
    } else if base == bytecode::COMPARE_OP {
        Op::CompareOp
    } else if base == bytecode::TO_BOOL {
        Op::PlainHelper(HelperId::ToBool)
    } else if base == bytecode::UNARY_NOT {
        Op::PlainHelper(HelperId::UnaryNot)
    } else if base == bytecode::UNARY_NEGATIVE {
        Op::PlainHelper(HelperId::UnaryNegative)
    } else if base == bytecode::UNARY_INVERT {
        Op::PlainHelper(HelperId::UnaryInvert)
    } else if base == bytecode::POP_TOP || base == bytecode::END_FOR || base == bytecode::POP_ITER {
        Op::PopTop
    } else if base == bytecode::COPY {
        Op::Helper(HelperId::Copy)
    } else if base == bytecode::SWAP {
        Op::Helper(HelperId::Swap)
    } else if base == bytecode::POP_JUMP_IF_FALSE {
        Op::PopJumpIfBool(false)
    } else if base == bytecode::POP_JUMP_IF_TRUE {
        Op::PopJumpIfBool(true)
    } else if base == bytecode::POP_JUMP_IF_NONE {
        Op::PopJumpIfNone(true)
    } else if base == bytecode::POP_JUMP_IF_NOT_NONE {
        Op::PopJumpIfNone(false)
    } else if base == bytecode::FOR_ITER {
        Op::ForIter
    } else if base == bytecode::JUMP_FORWARD {
        Op::JumpForward
    } else if base == bytecode::JUMP_BACKWARD {
        Op::JumpBackward
    } else if base == bytecode::JUMP_BACKWARD_NO_INTERRUPT {
        Op::JumpBackwardNoInterrupt
    } else {
        Op::Unsupported
    }
}

/// Where the compiler stands: at a unit, with the operand bytes that came before it, and
/// whether the unit is a jump that was compiled with the comparison before it.
pub struct Cursor {
    pub idx: int,
    pub pending: u32,
    pub fused: bool,
}

/// The unit behind unit `idx` and its caches.
pub open spec fn next_unit(units: Seq<CodeUnit>, idx: int) -> int {
    idx + 1 + bytecode::caches(units[idx].op)
}

/// The conditional jump at unit `next`, where it can be compiled with a comparison.
pub open spec fn fusable(units: Seq<CodeUnit>, next: int) -> Option<Fused> {
    if next < units.len() {
        match classify(bytecode::base_op(units[next].op)) {
            Op::PopJumpIfBool(jump_on) => {
                let after = next_unit(units, next);
                Some(Fused { jump_on, target: after + units[next].arg, after })
            },
            _ => None,
        }
    } else {
        None
    }
}

/// The full operand of the unit at the cursor.
pub open spec fn operand(units: Seq<CodeUnit>, c: Cursor) -> u32 {
    bytecode::widen(c.pending, units[c.idx].arg)
}

/// The unit that a loop which has run out goes to: a marker of the loop's end is skipped.
pub open spec fn loop_exit(units: Seq<CodeUnit>, target: int) -> int {
    if target < units.len() && (units[target].op == bytecode::END_FOR || units[target].op
        == bytecode::INSTRUMENTED_END_FOR) {
        target + 1
    } else {
        target
    }
}

/// Whether a binary operation was specialized to ints.
pub open spec fn int_specialized(op: u8) -> bool {
    op == bytecode::BINARY_OP_ADD_INT || op == bytecode::BINARY_OP_SUBTRACT_INT || op
        == bytecode::BINARY_OP_MULTIPLY_INT
}

/// How many labels the instruction at the cursor uses.
pub open spec fn instruction_labels(f: Facts, units: Seq<CodeUnit>, c: Cursor) -> nat {
    let arg = operand(units, c);
    let next = next_unit(units, c.idx);
    match classify(bytecode::base_op(units[c.idx].op)) {
        Op::LoadFast => 3,
        Op::LoadFastLoadFast => 6,
        Op::StoreFast => 3,
        Op::StoreFastLoadFast => 6,
        Op::StoreFastStoreFast => 6,
        Op::LoadSmallInt => if (f.small_int)(arg as i32) is Some {
            0
        } else {
            1
        },
        Op::BinaryOp => if int_specialized(units[c.idx].op) {
            3
        } else {
            1
        },
        Op::CompareOp => {
            let fused = fusable(units, next);
            8 + hit_labels(f, fused) + miss_labels(f, fused)
        },
        Op::PopTop => 2,
        Op::PopJumpIfBool(_) => 9 + branch_labels(f, next + arg),
        Op::PopJumpIfNone(_) => 8,
        Op::ForIter => 1 + branch_labels(f, loop_exit(units, next + arg)),
        Op::JumpBackward => 2,
        Op::Helper(_) => 1,
        Op::PlainHelper(_) => 1,
        _ => 0,
    }
}

/// The lines of the instruction at the cursor, without the labels of its units.
#[verifier::opaque]
pub open spec fn instruction(f: Facts, units: Seq<CodeUnit>, c: Cursor, l: nat) -> Seq<Item> {
    let idx = c.idx;
    let arg = operand(units, c);
    let next = next_unit(units, idx);
    match classify(bytecode::base_op(units[idx].op)) {
        Op::Extend => seq![],
        Op::Nothing => seq![],
        Op::LoadFast => load_fast(f, arg, idx, l),
        Op::LoadFastLoadFast => load_fast(f, arg / 16, idx, l) + load_fast(f, arg % 16, idx, l + 3),
        Op::StoreFast => store_fast(f, arg, l),
        Op::StoreFastLoadFast => store_fast(f, arg / 16, l) + load_fast(f, arg % 16, idx, l + 3),
        Op::StoreFastStoreFast => store_fast(f, arg / 16, l) + store_fast(f, arg % 16, l + 3),
        Op::LoadSmallInt => load_small_int(f, arg, idx, l),
        Op::BinaryOp => if int_specialized(units[idx].op) {
            binary_op_int(f, arg, idx, l)
        } else {
            call(f, HelperId::BinaryOp, arg as u64, idx, l)
        },
        Op::CompareOp => compare_op(f, arg, idx, fusable(units, next), l),
        Op::PopTop => pop_top(f, l),
        Op::PopJumpIfBool(jump_on) => pop_jump_if_bool(f, jump_on, next + arg, idx, l),
        Op::PopJumpIfNone(on_none) => pop_jump_if_none(f, on_none, next + arg, l),
        Op::ForIter => call(f, HelperId::ForIter, (next + arg) as u64, idx, l) + branch_if(
            f,
            Cond::E,
            loop_exit(units, next + arg),
            l + 1,
        ),
        Op::JumpForward => jump(f, next + arg),
        Op::JumpBackward => eval_breaker(f, idx, l) + jump(f, next - arg),
        Op::JumpBackwardNoInterrupt => jump(f, next - arg),
        Op::Helper(id) => call(f, id, arg as u64, idx, l),
        Op::PlainHelper(id) => call(f, id, 0, idx, l),
        Op::Unsupported => exit(f, idx),
    }
}

/// The operand of the instruction at the cursor names a local that can be addressed, or a
/// unit that is there.
pub open spec fn operand_fits(units: Seq<CodeUnit>, c: Cursor) -> bool {
    let arg = operand(units, c);
    match classify(bytecode::base_op(units[c.idx].op)) {
        Op::LoadFast => local_fits(arg),
        Op::StoreFast => local_fits(arg),
        Op::LoadFastLoadFast => local_fits(arg / 16),
        Op::StoreFastLoadFast => local_fits(arg / 16),
        Op::StoreFastStoreFast => local_fits(arg / 16),
        Op::JumpBackward => arg <= next_unit(units, c.idx),
        Op::JumpBackwardNoInterrupt => arg <= next_unit(units, c.idx),
        _ => true,
    }
}

/// The labels of the units from `from` up to `to`.
pub open spec fn bind_units(from: int, to: int) -> Seq<Item>
    decreases to - from,
{
    if from >= to {
        seq![]
    } else {
        bind_units(from, to - 1).push(Item::Bind((to - 1) as nat))
    }
}

/// The cursor behind the instruction at `c`.
pub open spec fn advance(units: Seq<CodeUnit>, c: Cursor) -> Cursor {
    if c.fused {
        Cursor { idx: next_unit(units, c.idx), pending: c.pending, fused: false }
    } else {
        let op = classify(bytecode::base_op(units[c.idx].op));
        let next = next_unit(units, c.idx);
        Cursor {
            idx: next,
            pending: if op is Extend {
                operand(units, c)
            } else {
                0
            },
            fused: op is CompareOp && fusable(units, next) is Some,
        }
    }
}

/// How many labels the unit at the cursor uses.
pub open spec fn unit_labels(f: Facts, units: Seq<CodeUnit>, c: Cursor) -> nat {
    if c.fused {
        0
    } else {
        instruction_labels(f, units, c)
    }
}

/// Where the caches of the unit at `idx` end.
pub open spec fn caches_end(units: Seq<CodeUnit>, idx: int) -> int {
    if next_unit(units, idx) < units.len() {
        next_unit(units, idx)
    } else {
        units.len() as int
    }
}

/// The lines of the unit at the cursor. A jump that was compiled with the comparison before
/// it is left to the interpreter when it is entered on its own.
#[verifier::opaque]
pub open spec fn unit(f: Facts, units: Seq<CodeUnit>, c: Cursor, l: nat) -> Seq<Item> {
    seq![Item::Bind(c.idx as nat)] + (if c.fused {
        exit(f, c.idx)
    } else {
        instruction(f, units, c, l)
    }) + bind_units(c.idx + 1, caches_end(units, c.idx))
}

/// How many units are left from `idx` on.
pub open spec fn remaining(units: Seq<CodeUnit>, idx: int) -> nat {
    if idx < units.len() {
        (units.len() - idx) as nat
    } else {
        0
    }
}

/// The lines of all units from the cursor on.
pub open spec fn body(f: Facts, units: Seq<CodeUnit>, c: Cursor, l: nat) -> Seq<Item>
    decreases remaining(units, c.idx),
{
    if 0 <= c.idx < units.len() {
        unit(f, units, c, l) + body(f, units, advance(units, c), l + unit_labels(f, units, c))
    } else {
        seq![]
    }
}

/// Every operand from the cursor on fits.
pub open spec fn operands_fit(units: Seq<CodeUnit>, c: Cursor) -> bool
    decreases remaining(units, c.idx),
{
    0 <= c.idx < units.len() ==> {
        &&& c.fused || operand_fits(units, c)
        &&& operands_fit(units, advance(units, c))
    }
}

pub open spec fn start() -> Cursor {
    Cursor { idx: 0, pending: 0, fused: false }
}

/// Saves the registers, loads the frame's addresses and goes to the address in the second
/// argument.
#[verifier::opaque]
pub open spec fn prologue(f: Facts) -> Seq<Item> {
    seq![
        Item::Op(Insn::Push { r: CTX }),
        Item::Op(Insn::Push { r: TOP }),
        Item::Op(Insn::Push { r: LOCALS }),
        Item::Op(Insn::Push { r: STACK }),
        Item::Op(Insn::Push { r: SCRATCH }),
    ] + (if f.abi.home_space() > 0 {
        seq![Item::Op(Insn::AluRI { op: Alu::Sub, dst: Reg::Rsp, imm: f.abi.home_space() })]
    } else {
        seq![]
    }) + seq![
        Item::Op(Insn::MovRR { dst: CTX, src: f.abi.first_arg() }),
        Item::Op(Insn::MovRM { dst: LOCALS, base: CTX, disp: CTX_LOCALS }),
        Item::Op(Insn::MovRM { dst: Reg::Rax, base: CTX, disp: CTX_STACK_TOP }),
        Item::Op(Insn::MovRM32 { dst: TOP, base: Reg::Rax, disp: 0 }),
        Item::Op(Insn::MovRM { dst: STACK, base: CTX, disp: CTX_NLOCALSPLUS }),
        Item::Op(Insn::ShiftRI { op: Shift::Shl, dst: STACK, imm: 3 }),
        Item::Op(Insn::AluRR { op: Alu::Add, dst: STACK, src: LOCALS }),
        Item::Op(Insn::JmpR { r: f.abi.second_arg() }),
    ]
}

/// Writes the stack height back, restores the registers and returns.
#[verifier::opaque]
pub open spec fn epilogue(f: Facts) -> Seq<Item> {
    exit(f, f.len as int) + seq![Item::Bind(f.len)] + sync_out() + (if f.abi.home_space() > 0 {
        seq![Item::Op(Insn::AluRI { op: Alu::Add, dst: Reg::Rsp, imm: f.abi.home_space() })]
    } else {
        seq![]
    }) + seq![
        Item::Op(Insn::Pop { r: SCRATCH }),
        Item::Op(Insn::Pop { r: STACK }),
        Item::Op(Insn::Pop { r: LOCALS }),
        Item::Op(Insn::Pop { r: TOP }),
        Item::Op(Insn::Pop { r: CTX }),
        Item::Op(Insn::Ret),
    ]
}

/// The whole listing.
pub open spec fn program(f: Facts, units: Seq<CodeUnit>) -> Seq<Item> {
    prologue(f) + body(f, units, start(), f.len + 1) + epilogue(f)
}

} // verus!
