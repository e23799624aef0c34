//! Turns bytecode into machine code.
use crate::assembler::{Assembler, Cond, Label, Reg};
use crate::bytecode;
use crate::bytecode::{CodeUnit, OpArgState};
use crate::exec::{Abi, ExecError, ExecMemory};
use crate::insn;
use crate::insn::{Alu, Insn, Item, Listing};
use crate::layout;
use crate::template;
use crate::template::{
    Cursor, Facts, Fused, Op, CTX, CTX_BREAKER, CTX_LOCALS, CTX_NLOCALSPLUS, CTX_STACK_TOP,
    FLAG_BITS, LEAKED_SHIFT, LOCALS, SCRATCH, STACK, TOP, TOP_SLOT, UNTAG,
};
use vstd::prelude::*;

verus! {

/// What generated code is told of a frame. Every field is a word of eight bytes; `user`,
/// `locals` and `stack_top` are addresses.
#[derive(Copy, Clone, Debug, PartialEq, Eq, Structural)]
pub struct JitContext {
    /// for the helpers
    pub user: u64,
    /// the first local; the stack follows the locals
    pub locals: u64,
    /// the 32-bit word that counts the values on the stack
    pub stack_top: u64,
    pub nlocalsplus: u64,
    /// Back-edges left before the eval breaker is consulted again.
    pub breaker_countdown: u64,
}

impl JitContext {
    /// The word at the byte offset.
    pub open spec fn word(self, disp: int) -> u64 {
        if disp == CTX_LOCALS {
            self.locals
        } else if disp == CTX_STACK_TOP {
            self.stack_top
        } else if disp == CTX_NLOCALSPLUS {
            self.nlocalsplus
        } else if disp == CTX_BREAKER {
            self.breaker_countdown
        } else {
            self.user
        }
    }

    /// The first back-edge consults the eval breaker.
    pub fn new(user: u64, locals: u64, stack_top: u64, nlocalsplus: u64) -> (r: Self)
        ensures
            r == (JitContext { user, locals, stack_top, nlocalsplus, breaker_countdown: 1 }),
    {
        JitContext { user, locals, stack_top, nlocalsplus, breaker_countdown: 1 }
    }
}

/// The address of a helper: it takes the address of a `JitContext` and an operand, and
/// returns a negative number after an error.
pub type HelperFn = u64;

#[derive(Copy, Clone, Debug, PartialEq, Eq, Structural)]
pub enum HelperId {
    LoadFast,
    LoadFastLoadFast,
    StoreFast,
    StoreFastLoadFast,
    StoreFastStoreFast,
    LoadConst,
    LoadSmallInt,
    LoadGlobal,
    BinaryOp,
    CompareOp,
    ToBool,
    UnaryNot,
    UnaryNegative,
    UnaryInvert,
    PopIsTrue,
    PopIsNone,
    PopTop,
    Copy,
    Swap,
    ForIter,
    EvalBreaker,
    Drop,
    /// Compare the two raw stack operands without popping; returns 0/1, or
    /// `FAST_PATH_MISS` when the operands are not both plain ints.
    CompareFast,
    /// Arithmetic on two int operands; on success the helper has already
    /// replaced them with the result. Returns `FAST_PATH_MISS` otherwise.
    BinaryOpIntFast,
}

impl HelperId {
    pub const COUNT: usize = 24;

    /// The place of the helper in a table.
    pub open spec fn slot(self) -> int {
        match self {
            HelperId::LoadFast => 0,
            HelperId::LoadFastLoadFast => 1,
            HelperId::StoreFast => 2,
            HelperId::StoreFastLoadFast => 3,
            HelperId::StoreFastStoreFast => 4,
            HelperId::LoadConst => 5,
            HelperId::LoadSmallInt => 6,
            HelperId::LoadGlobal => 7,
            HelperId::BinaryOp => 8,
            HelperId::CompareOp => 9,
            HelperId::ToBool => 10,
            HelperId::UnaryNot => 11,
            HelperId::UnaryNegative => 12,
            HelperId::UnaryInvert => 13,
            HelperId::PopIsTrue => 14,
            HelperId::PopIsNone => 15,
            HelperId::PopTop => 16,
            HelperId::Copy => 17,
            HelperId::Swap => 18,
            HelperId::ForIter => 19,
            HelperId::EvalBreaker => 20,
            HelperId::Drop => 21,
            HelperId::CompareFast => 22,
            HelperId::BinaryOpIntFast => 23,
        }
    }

    /// The helper at the place in a table.
    spec fn with_slot(i: int) -> HelperId {
        if i == 0 {
            HelperId::LoadFast
        } else if i == 1 {
            HelperId::LoadFastLoadFast
        } else if i == 2 {
            HelperId::StoreFast
        } else if i == 3 {
            HelperId::StoreFastLoadFast
        } else if i == 4 {
            HelperId::StoreFastStoreFast
        } else if i == 5 {
            HelperId::LoadConst
        } else if i == 6 {
            HelperId::LoadSmallInt
        } else if i == 7 {
            HelperId::LoadGlobal
        } else if i == 8 {
            HelperId::BinaryOp
        } else if i == 9 {
            HelperId::CompareOp
        } else if i == 10 {
            HelperId::ToBool
        } else if i == 11 {
            HelperId::UnaryNot
        } else if i == 12 {
            HelperId::UnaryNegative
        } else if i == 13 {
            HelperId::UnaryInvert
        } else if i == 14 {
            HelperId::PopIsTrue
        } else if i == 15 {
            HelperId::PopIsNone
        } else if i == 16 {
            HelperId::PopTop
        } else if i == 17 {
            HelperId::Copy
        } else if i == 18 {
            HelperId::Swap
        } else if i == 19 {
            HelperId::ForIter
        } else if i == 20 {
            HelperId::EvalBreaker
        } else if i == 21 {
            HelperId::Drop
        } else if i == 22 {
            HelperId::CompareFast
        } else {
            HelperId::BinaryOpIntFast
        }
    }

    fn index(self) -> (r: usize)
        ensures
            r == self.slot(),
            r < 24,
    {
        match self {
            HelperId::LoadFast => 0,
            HelperId::LoadFastLoadFast => 1,
            HelperId::StoreFast => 2,
            HelperId::StoreFastLoadFast => 3,
            HelperId::StoreFastStoreFast => 4,
            HelperId::LoadConst => 5,
            HelperId::LoadSmallInt => 6,
            HelperId::LoadGlobal => 7,
            HelperId::BinaryOp => 8,
            HelperId::CompareOp => 9,
            HelperId::ToBool => 10,
            HelperId::UnaryNot => 11,
            HelperId::UnaryNegative => 12,
            HelperId::UnaryInvert => 13,
            HelperId::PopIsTrue => 14,
            HelperId::PopIsNone => 15,
            HelperId::PopTop => 16,
            HelperId::Copy => 17,
            HelperId::Swap => 18,
            HelperId::ForIter => 19,
            HelperId::EvalBreaker => 20,
            HelperId::Drop => 21,
            HelperId::CompareFast => 22,
            HelperId::BinaryOpIntFast => 23,
        }
    }
}

pub const FAST_PATH_MISS: i64 = 2;

/// How many back-edges run between two eval-breaker checks.
pub const BREAKER_INTERVAL: u64 = 64;

pub const BORROW_TAG: u64 = 1;

/// No slice of two-byte units is longer.
pub const MAX_UNITS: u64 = 0x3FFF_FFFF_FFFF_FFFF;

#[derive(Copy, Clone)]
pub struct HelperTable {
    fns: [HelperFn; 24],
}

impl HelperTable {
    /// The address of a helper.
    pub closed spec fn at(self, id: HelperId) -> u64 {
        self.fns@[id.slot()]
    }

    pub fn new(default: HelperFn) -> (r: Self)
        ensures
            forall|id: HelperId| #[trigger] r.at(id) == default,
    {
        HelperTable { fns: [default; 24] }
    }

    pub fn set(&mut self, id: HelperId, f: HelperFn)
        ensures
            forall|other: HelperId| #[trigger]
                final(self).at(other) == (if other == id {
                    f
                } else {
                    old(self).at(other)
                }),
    {
        self.fns[id.index()] = f;
    }

    /// The address of a helper.
    pub fn address(&self, id: HelperId) -> (r: u64)
        ensures
            r == self.at(id),
    {
        self.fns[id.index()]
    }
}

/// A table is nothing but the addresses in it: two that agree on every helper are the same.
pub proof fn law_table_is_its_addresses(a: HelperTable, b: HelperTable)
    requires
        forall|id: HelperId| #[trigger] a.at(id) == b.at(id),
    ensures
        a == b,
{
    assert forall|i: int| 0 <= i < 24 implies a.fns@[i] == b.fns@[i] by {
        let id = HelperId::with_slot(i);
        assert(id.slot() == i);
        assert(a.at(id) == b.at(id));
    }
    assert(a.fns =~= b.fns);
}

/// Object-model facts the generated code bakes in.
pub struct Env<F: Fn(i32) -> Option<u64>> {
    /// Byte offset of the strong-count word inside an object.
    pub refcount_offset: i32,
    pub true_ptr: u64,
    pub false_ptr: u64,
    pub none_ptr: u64,
    /// Address of the interned small int for `i`, if one exists.
    pub small_int: F,
}

impl<F: Fn(i32) -> Option<u64>> Env<F> {
    /// The small ints can be looked up, always with the same result.
    pub open spec fn wf(self) -> bool {
        &&& forall|i: i32| #[trigger] call_requires(self.small_int, (i,))
        &&& forall|i: i32, a: Option<u64>, b: Option<u64>| #[trigger]
            call_ensures(self.small_int, (i,), a) && #[trigger] call_ensures(
                self.small_int,
                (i,),
                b,
            ) ==> a == b
    }

    /// The address of the interned small int for `i`, if one exists.
    pub open spec fn interned(self, i: i32) -> Option<u64> {
        choose|r: Option<u64>| call_ensures(self.small_int, (i,), r)
    }
}

/// What code for `len` units has baked in.
pub open spec fn facts<F: Fn(i32) -> Option<u64>>(
    helpers: HelperTable,
    env: Env<F>,
    abi: Abi,
    len: nat,
) -> Facts {
    Facts {
        helpers: |id: HelperId| helpers.at(id),
        refcount_offset: env.refcount_offset,
        true_ptr: env.true_ptr,
        false_ptr: env.false_ptr,
        none_ptr: env.none_ptr,
        small_int: |i: i32| env.interned(i),
        abi,
        len,
    }
}

struct Emitter<'a, F: Fn(i32) -> Option<u64>> {
    a: Assembler,
    helpers: &'a HelperTable,
    env: &'a Env<F>,
    abi: Abi,
    labels: Vec<Label>,
    epilogue: Label,
    len: usize,
}

impl<'a, F: Fn(i32) -> Option<u64>> Emitter<'a, F> {
    spec fn facts(self) -> Facts {
        facts(*self.helpers, *self.env, self.abi, self.len as nat)
    }

    spec fn wf(self) -> bool {
        &&& self.a.wf()
        &&& self.env.wf()
        &&& self.labels@.len() == self.len
        &&& forall|i: int| 0 <= i < self.len ==> (#[trigger] self.labels@[i]).id() == i
        &&& self.epilogue.id() == self.len
        &&& self.len < self.a@.labels
    }

    /// Only the assembler has changed since `before`.
    spec fn same_setting(self, before: Self) -> bool {
        &&& self.wf()
        &&& self.helpers == before.helpers
        &&& self.env == before.env
        &&& self.abi == before.abi
        &&& self.labels == before.labels
        &&& self.epilogue == before.epilogue
        &&& self.len == before.len
    }

    /// The lines were added since `before`, and they bind no label that was there.
    spec fn emitted(self, before: Self, items: Seq<Item>, labels: nat) -> bool {
        &&& self.same_setting(before)
        &&& self.a@ =~= before.a@.append(items, labels)
        &&& forall|m: nat|
            m < before.a@.labels ==> #[trigger] insn::label_at(self.a@.items, m) == insn::label_at(
                before.a@.items,
                m,
            )
    }

    /// The lines were added since `before`.
    spec fn extends(self, before: Self, items: Seq<Item>, labels: nat) -> bool {
        self.a@ == before.a@.append(items, labels)
    }

    proof fn lemma_extends(
        s0: Self,
        s1: Self,
        s2: Self,
        x: Seq<Item>,
        nx: nat,
        y: Seq<Item>,
        ny: nat,
    )
        requires
            s1.extends(s0, x, nx),
            s2.extends(s1, y, ny),
        ensures
            s2.extends(s0, x + y, nx + ny),
    {
        assert(s0.a@.items + x + y =~= s0.a@.items + (x + y));
    }

    fn compare_imm(&mut self, a: Reg, imm: i32)
        requires
            old(self).wf(),
        ensures
            final(self).emitted(
                *old(self),
                seq![Item::Op(Insn::AluRI { op: Alu::Cmp, dst: a, imm })],
                0,
            ),
    {
        broadcast use layout::lemma_label_push;

        self.a.cmp_ri(a, imm);
    }

    fn compare_regs(&mut self, a: Reg, b: Reg)
        requires
            old(self).wf(),
        ensures
            final(self).emitted(
                *old(self),
                seq![Item::Op(Insn::AluRR { op: Alu::Cmp, dst: a, src: b })],
                0,
            ),
    {
        broadcast use layout::lemma_label_push;

        self.a.cmp_rr(a, b);
    }

    fn exit(&mut self, lasti: u64)
        requires
            old(self).wf(),
        ensures
            final(self).emitted(
                *old(self),
                template::exit(old(self).facts(), lasti as int),
                0,
            ),
    {
        broadcast use layout::lemma_label_push;

        reveal(template::exit);
        self.a.mov_ri(Reg::Rax, lasti);
        self.a.jmp(self.epilogue);
    }

    fn sync_out(&mut self)
        requires
            old(self).wf(),
        ensures
            final(self).emitted(
                *old(self),
                template::sync_out(),
                0,
            ),
    {
        broadcast use layout::lemma_label_push;

        reveal(template::sync_out);
        self.a.mov_rm(Reg::Rcx, CTX, CTX_STACK_TOP);
        self.a.mov_mr32(Reg::Rcx, 0, TOP);
    }

    fn sync_in(&mut self)
        requires
            old(self).wf(),
        ensures
            final(self).emitted(
                *old(self),
                template::sync_in(),
                0,
            ),
    {
        broadcast use layout::lemma_label_push;

        reveal(template::sync_in);
        self.a.mov_rm(Reg::Rcx, CTX, CTX_STACK_TOP);
        self.a.mov_rm32(TOP, Reg::Rcx, 0);
    }

    fn call_raw(&mut self, id: HelperId)
        requires
            old(self).wf(),
        ensures
            final(self).emitted(
                *old(self),
                template::call_raw(old(self).facts(), id),
                0,
            ),
    {
        broadcast use layout::lemma_label_push;

        reveal(template::call_raw);
        self.a.mov_rr(self.abi.arg0(), CTX);
        self.a.mov_ri(Reg::Rax, self.helpers.address(id));
        self.a.call_r(Reg::Rax);
    }

    fn call(&mut self, id: HelperId, arg: u64, idx: u64)
        requires
            old(self).wf(),
            idx < u64::MAX,
        ensures
            final(self).emitted(
                *old(self),
                template::call(old(self).facts(), id, arg, idx as int, old(self).a@.labels),
                1,
            ),
    {
        broadcast use layout::lemma_label_push;

        reveal(template::call);
        reveal(template::sync_out);
        reveal(template::sync_in);
        reveal(template::call_raw);
        reveal(template::exit);
        self.sync_out();
        self.a.mov_ri(self.abi.arg1(), arg);
        self.call_raw(id);
        self.sync_in();
        self.a.test_rr(Reg::Rax, Reg::Rax);
        let ok = self.a.new_label();
        self.a.jcc(Cond::NS, ok);
        self.exit(idx + 1);
        self.a.bind(ok);
    }

    fn call_with_reg_arg(&mut self, id: HelperId, arg: Reg)
        requires
            old(self).wf(),
        ensures
            final(self).emitted(
                *old(self),
                template::call_with_reg_arg(old(self).facts(), id, arg),
                0,
            ),
    {
        broadcast use layout::lemma_label_push;

        reveal(template::call_with_reg_arg);
        self.sync_out();
        self.a.mov_rr(self.abi.arg1(), arg);
        self.call_raw(id);
        self.sync_in();
    }

    fn push(&mut self, r: Reg)
        requires
            old(self).wf(),
        ensures
            final(self).emitted(
                *old(self),
                template::push(r),
                0,
            ),
    {
        broadcast use layout::lemma_label_push;

        reveal(template::push);
        self.a.mov_mr_idx8(STACK, TOP, 0, r);
        self.a.add_ri(TOP, 1);
    }

    fn pop(&mut self, r: Reg)
        requires
            old(self).wf(),
        ensures
            final(self).emitted(
                *old(self),
                template::pop(r),
                0,
            ),
    {
        broadcast use layout::lemma_label_push;

        reveal(template::pop);
        self.a.sub_ri(TOP, 1);
        self.a.mov_rm_idx8(r, STACK, TOP, 0);
    }

    fn peek(&mut self, r: Reg)
        requires
            old(self).wf(),
        ensures
            final(self).emitted(
                *old(self),
                template::peek(r),
                0,
            ),
    {
        broadcast use layout::lemma_label_push;

        reveal(template::peek);
        self.a.mov_rm_idx8(r, STACK, TOP, TOP_SLOT);
    }

    fn incref(&mut self, obj: Reg)
        requires
            old(self).wf(),
        ensures
            final(self).emitted(
                *old(self),
                template::incref(old(self).facts(), obj),
                0,
            ),
    {
        broadcast use layout::lemma_label_push;

        reveal(template::incref);
        self.a.lock_add_mi(obj, self.env.refcount_offset, 1);
    }

    fn decref_rax(&mut self)
        requires
            old(self).wf(),
        ensures
            final(self).emitted(
                *old(self),
                template::decref_rax(old(self).facts(), old(self).a@.labels),
                1,
            ),
    {
        broadcast use layout::lemma_label_push;

        reveal(template::decref_rax);
        let skip = self.a.new_label();
        self.a.mov_ri(Reg::Rdx, u64::MAX);
        self.a.lock_xadd(Reg::Rax, self.env.refcount_offset, Reg::Rdx);
        self.a.mov_rr(Reg::Rcx, Reg::Rdx);
        self.a.shr_ri(Reg::Rcx, LEAKED_SHIFT);
        self.a.and_ri(Reg::Rcx, 1);
        self.a.jcc(Cond::NE, skip);
        self.a.shl_ri(Reg::Rdx, FLAG_BITS);
        self.a.shr_ri(Reg::Rdx, FLAG_BITS);
        self.compare_imm(Reg::Rdx, 1);
        self.a.jcc(Cond::NE, skip);
        self.call_with_reg_arg(HelperId::Drop, Reg::Rax);
        self.a.bind(skip);
    }

    fn discard_rax(&mut self)
        requires
            old(self).wf(),
        ensures
            final(self).emitted(
                *old(self),
                template::discard_rax(old(self).facts(), old(self).a@.labels),
                2,
            ),
    {
        broadcast use layout::lemma_label_push;

        reveal(template::discard_rax);
        let done = self.a.new_label();
        self.a.mov_rr(Reg::Rcx, Reg::Rax);
        self.a.and_ri(Reg::Rcx, 1);
        self.a.jcc(Cond::NE, done);
        self.a.test_rr(Reg::Rax, Reg::Rax);
        self.a.jcc(Cond::E, done);
        self.decref_rax();
        self.a.bind(done);
    }

    fn promote_rax(&mut self)
        requires
            old(self).wf(),
        ensures
            final(self).emitted(
                *old(self),
                template::promote_rax(old(self).facts(), old(self).a@.labels),
                1,
            ),
    {
        broadcast use layout::lemma_label_push;

        reveal(template::promote_rax);
        let owned = self.a.new_label();
        self.a.mov_rr(Reg::Rcx, Reg::Rax);
        self.a.and_ri(Reg::Rcx, 1);
        self.a.jcc(Cond::E, owned);
        self.a.and_ri(Reg::Rax, UNTAG);
        self.incref(Reg::Rax);
        self.a.bind(owned);
    }

    fn load_fast(&mut self, var: u32, idx: u64)
        requires
            old(self).wf(),
            idx < u64::MAX,
            template::local_fits(var),
        ensures
            final(self).emitted(
                *old(self),
                template::load_fast(old(self).facts(), var, idx as int, old(self).a@.labels),
                3,
            ),
    {
        broadcast use layout::lemma_label_push;

        reveal(template::load_fast);
        let slow = self.a.new_label();
        let done = self.a.new_label();
        let disp: i32 = (var as i32) * 8;
        self.a.mov_rm(Reg::Rax, LOCALS, disp);
        self.a.test_rr(Reg::Rax, Reg::Rax);
        self.a.jcc(Cond::E, slow);
        self.incref(Reg::Rax);
        self.push(Reg::Rax);
        self.a.jmp(done);
        self.a.bind(slow);
        self.call(HelperId::LoadFast, var as u64, idx);
        self.a.bind(done);
    }

    fn store_fast(&mut self, var: u32)
        requires
            old(self).wf(),
            template::local_fits(var),
        ensures
            final(self).emitted(
                *old(self),
                template::store_fast(old(self).facts(), var, old(self).a@.labels),
                3,
            ),
    {
        broadcast use layout::lemma_label_push;

        reveal(template::store_fast);
        let done = self.a.new_label();
        let disp: i32 = (var as i32) * 8;
        self.pop(Reg::Rax);
        self.promote_rax();
        self.a.mov_rm(Reg::Rcx, LOCALS, disp);
        self.a.mov_mr(LOCALS, disp, Reg::Rax);
        self.a.mov_rr(Reg::Rax, Reg::Rcx);
        self.a.test_rr(Reg::Rax, Reg::Rax);
        self.a.jcc(Cond::E, done);
        self.decref_rax();
        self.a.bind(done);
    }

    fn pop_top(&mut self)
        requires
            old(self).wf(),
        ensures
            final(self).emitted(
                *old(self),
                template::pop_top(old(self).facts(), old(self).a@.labels),
                2,
            ),
    {
        broadcast use layout::lemma_label_push;

        reveal(template::pop_top);
        self.pop(Reg::Rax);
        self.discard_rax();
    }

    fn push_bool_from_scratch(&mut self)
        requires
            old(self).wf(),
        ensures
            final(self).emitted(
                *old(self),
                template::push_bool_from_scratch(old(self).facts(), old(self).a@.labels),
                2,
            ),
    {
        broadcast use layout::lemma_label_push;

        reveal(template::push_bool_from_scratch);
        let is_true = self.a.new_label();
        let done = self.a.new_label();
        self.compare_imm(SCRATCH, 1);
        self.a.jcc(Cond::E, is_true);
        self.a.mov_ri(Reg::Rax, self.env.false_ptr | BORROW_TAG);
        self.push(Reg::Rax);
        self.a.jmp(done);
        self.a.bind(is_true);
        self.a.mov_ri(Reg::Rax, self.env.true_ptr | BORROW_TAG);
        self.push(Reg::Rax);
        self.a.bind(done);
    }

    fn jump(&mut self, target: u64)
        requires
            old(self).wf(),
        ensures
            final(self).emitted(
                *old(self),
                template::jump(old(self).facts(), target as int),
                0,
            ),
    {
        broadcast use layout::lemma_label_push;

        reveal(template::jump);
        if target < self.len as u64 {
            self.a.jmp(self.labels[target as usize]);
        } else {
            self.exit(target);
        }
    }

    fn branch_to(&mut self, cond: Cond, target: u64)
        requires
            old(self).wf(),
        ensures
            final(self).emitted(
                *old(self),
                template::branch_to(old(self).facts(), cond, target as int, old(self).a@.labels),
                template::branch_labels(old(self).facts(), target as int),
            ),
    {
        broadcast use layout::lemma_label_push;

        reveal(template::branch_to);
        if target < self.len as u64 {
            self.a.jcc(cond, self.labels[target as usize]);
        } else {
            let skip = self.a.new_label();
            let flipped = match cond {
                Cond::E => Cond::NE,
                _ => Cond::E,
            };
            self.a.jcc(flipped, skip);
            self.exit(target);
            self.a.bind(skip);
        }
    }

    fn branch_if(&mut self, cond: Cond, target: u64)
        requires
            old(self).wf(),
        ensures
            final(self).emitted(
                *old(self),
                template::branch_if(old(self).facts(), cond, target as int, old(self).a@.labels),
                template::branch_labels(old(self).facts(), target as int),
            ),
    {
        broadcast use layout::lemma_label_push;

        reveal(template::branch_if);
        self.compare_imm(Reg::Rax, 1);
        self.branch_to(cond, target);
    }

    /// Compare through the fast helper; on a miss fall back to the generic
    /// helper. `fused` carries the conditional jump that consumes the result,
    /// as (jump_on, target, index after the jump).
    fn compare_op(&mut self, arg: u32, idx: u64, fused: Option<(bool, u64, u64)>)
        requires
            old(self).wf(),
            idx < u64::MAX,
        ensures
            final(self).emitted(
                *old(self),
                template::compare_op(
                    old(self).facts(),
                    arg,
                    idx as int,
                    fused_view(fused),
                    old(self).a@.labels,
                ),
                8 + template::hit_labels(old(self).facts(), fused_view(fused))
                    + template::miss_labels(old(self).facts(), fused_view(fused)),
            ),
    {
        broadcast use layout::lemma_label_push;

        let ghost view = fused_view(fused);
        let ghost s0 = *self;
        let ghost f = self.facts();
        let ghost l = self.a@.labels;
        let ghost mut s1 = *self;
        let ghost mut acc: Seq<Item> = seq![];
        let ghost mut n: nat = 0;
        assert(self.a@ =~= self.a@.append(acc, n));
        let miss = self.a.new_label();
        let done = self.a.new_label();
        self.call(HelperId::CompareFast, arg as u64, idx);
        proof {
            let y: Seq<Item> = template::call(f, HelperId::CompareFast, arg as u64, idx as int, l + 2);
            let ny: nat = 3;
            assert(self.a@ =~= s1.a@.append(y, ny));
            Self::lemma_extends(s0, s1, *self, acc, n, y, ny);
            acc = acc + y;
            n = n + ny;
            s1 = *self;
        }
        self.compare_imm(Reg::Rax, FAST_PATH_MISS as i32);
        self.a.jcc(Cond::E, miss);
        self.a.mov_rr(SCRATCH, Reg::Rax);
        proof {
            let y: Seq<Item> = seq![
                Item::Op(Insn::AluRI { op: Alu::Cmp, dst: Reg::Rax, imm: 2 }),
                Item::Jcc(Cond::E, l),
                Item::Op(Insn::MovRR { dst: SCRATCH, src: Reg::Rax }),
            ];
            let ny: nat = 0;
            assert(self.a@ =~= s1.a@.append(y, ny));
            Self::lemma_extends(s0, s1, *self, acc, n, y, ny);
            acc = acc + y;
            n = n + ny;
            s1 = *self;
        }
        self.pop_top();
        proof {
            let y: Seq<Item> = template::pop_top(f, l + 3);
            let ny: nat = 2;
            assert(self.a@ =~= s1.a@.append(y, ny));
            Self::lemma_extends(s0, s1, *self, acc, n, y, ny);
            acc = acc + y;
            n = n + ny;
            s1 = *self;
        }
        self.pop_top();
        proof {
            let y: Seq<Item> = template::pop_top(f, l + 5);
            let ny: nat = 2;
            assert(self.a@ =~= s1.a@.append(y, ny));
            Self::lemma_extends(s0, s1, *self, acc, n, y, ny);
            acc = acc + y;
            n = n + ny;
            s1 = *self;
        }
        match fused {
            Some((jump_on, target, _)) => {
                self.compare_imm(SCRATCH, 1);
                self.branch_to(if jump_on {
                    Cond::E
                } else {
                    Cond::NE
                }, target);
            },
            None => self.push_bool_from_scratch(),
        }
        proof {
            reveal(template::compare_hit);
        }
        proof {
            let y: Seq<Item> = template::compare_hit(f, view, l + 7);
            let ny: nat = template::hit_labels(f, view);
            assert(self.a@ =~= s1.a@.append(y, ny));
            Self::lemma_extends(s0, s1, *self, acc, n, y, ny);
            acc = acc + y;
            n = n + ny;
            s1 = *self;
        }
        self.a.jmp(done);
        self.a.bind(miss);
        proof {
            let y: Seq<Item> = seq![Item::Jmp(l + 1), Item::Bind(l)];
            let ny: nat = 0;
            assert(self.a@ =~= s1.a@.append(y, ny));
            Self::lemma_extends(s0, s1, *self, acc, n, y, ny);
            acc = acc + y;
            n = n + ny;
            s1 = *self;
        }
        self.call(HelperId::CompareOp, arg as u64, idx);
        proof {
            let y: Seq<Item> = template::call(
                f,
                HelperId::CompareOp,
                arg as u64,
                idx as int,
                s1.a@.labels,
            );
            let ny: nat = 1;
            assert(self.a@ =~= s1.a@.append(y, ny));
            Self::lemma_extends(s0, s1, *self, acc, n, y, ny);
            acc = acc + y;
            n = n + ny;
            s1 = *self;
        }
        if let Some((jump_on, target, _)) = fused {
            self.call(HelperId::PopIsTrue, 0, idx);
            self.branch_if(if jump_on {
                    Cond::E
                } else {
                    Cond::NE
                }, target);
        }
        proof {
            reveal(template::compare_miss);
        }
        proof {
            let y: Seq<Item> = template::compare_miss(f, view, idx as int, s1.a@.labels);
            let ny: nat = template::miss_labels(f, view);
            assert(self.a@ =~= s1.a@.append(y, ny));
            Self::lemma_extends(s0, s1, *self, acc, n, y, ny);
            acc = acc + y;
            n = n + ny;
            s1 = *self;
        }
        self.a.bind(done);
        proof {
            let y: Seq<Item> = seq![Item::Bind(l + 1)];
            let ny: nat = 0;
            assert(self.a@ =~= s1.a@.append(y, ny));
            Self::lemma_extends(s0, s1, *self, acc, n, y, ny);
            acc = acc + y;
            n = n + ny;
            s1 = *self;
        }
        if let Some((_, _, after)) = fused {
            self.jump(after);
        }
        proof {
            let y: Seq<Item> = match view {
                Some(j) => template::jump(f, j.after),
                None => seq![],
            };
            let ny: nat = 0;
            assert(self.a@ =~= s1.a@.append(y, ny));
            Self::lemma_extends(s0, s1, *self, acc, n, y, ny);
            acc = acc + y;
            n = n + ny;
            s1 = *self;
        }
        proof {
            reveal(template::compare_op);
            lemma_empty_front(template::call(f, HelperId::CompareFast, arg as u64, idx as int, l + 2));
            assert(acc == template::compare_op(f, arg, idx as int, view, l));
        }
    }

    fn eval_breaker(&mut self, idx: u64)
        requires
            old(self).wf(),
            idx < u64::MAX,
        ensures
            final(self).emitted(
                *old(self),
                template::eval_breaker(old(self).facts(), idx as int, old(self).a@.labels),
                2,
            ),
    {
        broadcast use layout::lemma_label_push;

        reveal(template::eval_breaker);
        let skip = self.a.new_label();
        self.a.sub_mi(CTX, CTX_BREAKER, 1);
        self.a.jcc(Cond::NE, skip);
        self.call(HelperId::EvalBreaker, 0, idx);
        self.a.mov_mi32(CTX, CTX_BREAKER, BREAKER_INTERVAL as i32);
        self.a.bind(skip);
    }

    fn binary_op_int(&mut self, arg: u32, idx: u64)
        requires
            old(self).wf(),
            idx < u64::MAX,
        ensures
            final(self).emitted(
                *old(self),
                template::binary_op_int(old(self).facts(), arg, idx as int, old(self).a@.labels),
                3,
            ),
    {
        broadcast use layout::lemma_label_push;

        reveal(template::binary_op_int);
        let done = self.a.new_label();
        self.call(HelperId::BinaryOpIntFast, arg as u64, idx);
        self.compare_imm(Reg::Rax, FAST_PATH_MISS as i32);
        self.a.jcc(Cond::NE, done);
        self.call(HelperId::BinaryOp, arg as u64, idx);
        self.a.bind(done);
    }

    fn load_small_int(&mut self, i: u32, idx: u64)
        requires
            old(self).wf(),
            idx < u64::MAX,
        ensures
            final(self).emitted(
                *old(self),
                template::load_small_int(old(self).facts(), i, idx as int, old(self).a@.labels),
                if (old(self).facts().small_int)(i as i32) is Some {
                    0
                } else {
                    1
                },
            ),
    {
        broadcast use layout::lemma_label_push;

        reveal(template::load_small_int);
        let interned = (self.env.small_int)(i as i32);
        assert(interned == self.env.interned(i as i32));
        match interned {
            Some(ptr) => {
                self.a.mov_ri(Reg::Rax, ptr | BORROW_TAG);
                self.push(Reg::Rax);
            },
            None => self.call(HelperId::LoadSmallInt, i as u64, idx),
        }
    }

    fn drop_top(&mut self)
        requires
            old(self).wf(),
        ensures
            final(self).emitted(
                *old(self),
                template::drop_top(old(self).facts(), old(self).a@.labels),
                2,
            ),
    {
        broadcast use layout::lemma_label_push;

        reveal(template::drop_top);
        self.a.sub_ri(TOP, 1);
        self.discard_rax();
    }

    fn test_bool(&mut self, is_true: Label, is_false: Label, slow: Label)
        requires
            old(self).wf(),
            is_false.id() == is_true.id() + 1,
            slow.id() == is_true.id() + 2,
        ensures
            final(self).emitted(
                *old(self),
                template::test_bool(old(self).facts(), is_true.id()),
                0,
            ),
    {
        broadcast use layout::lemma_label_push;

        reveal(template::test_bool);
        reveal(template::peek);
        self.peek(Reg::Rax);
        self.a.mov_rr(Reg::Rcx, Reg::Rax);
        self.a.and_ri(Reg::Rcx, UNTAG);
        self.a.mov_ri(Reg::Rdx, self.env.true_ptr);
        self.compare_regs(Reg::Rcx, Reg::Rdx);
        self.a.jcc(Cond::E, is_true);
        self.a.mov_ri(Reg::Rdx, self.env.false_ptr);
        self.compare_regs(Reg::Rcx, Reg::Rdx);
        self.a.jcc(Cond::E, is_false);
        self.a.jmp(slow);
    }

    fn test_none(&mut self, not_matched: Label)
        requires
            old(self).wf(),
        ensures
            final(self).emitted(
                *old(self),
                template::test_none(old(self).facts(), not_matched.id()),
                0,
            ),
    {
        broadcast use layout::lemma_label_push;

        reveal(template::test_none);
        reveal(template::pop);
        self.pop(Reg::Rax);
        self.a.mov_rr(Reg::Rcx, Reg::Rax);
        self.a.and_ri(Reg::Rcx, UNTAG);
        self.a.mov_ri(Reg::Rdx, self.env.none_ptr);
        self.compare_regs(Reg::Rcx, Reg::Rdx);
        self.a.jcc(Cond::NE, not_matched);
    }

    /// Pop a value and branch to `target` when it is the bool singleton
    /// selected by `jump_on`; anything else goes through the helper.
    fn pop_jump_if_bool(&mut self, jump_on: bool, target: u64, idx: u64)
        requires
            old(self).wf(),
            idx < u64::MAX,
        ensures
            final(self).emitted(
                *old(self),
                template::pop_jump_if_bool(
                    old(self).facts(),
                    jump_on,
                    target as int,
                    idx as int,
                    old(self).a@.labels,
                ),
                9 + template::branch_labels(old(self).facts(), target as int),
            ),
    {
        broadcast use layout::lemma_label_push;

        let ghost s0 = *self;
        let ghost f = self.facts();
        let ghost l = self.a@.labels;
        let ghost mut s1 = *self;
        let ghost mut acc: Seq<Item> = seq![];
        let ghost mut n: nat = 0;
        assert(self.a@ =~= self.a@.append(acc, n));
        let is_true = self.a.new_label();
        let is_false = self.a.new_label();
        let slow = self.a.new_label();
        let done = self.a.new_label();
        self.test_bool(is_true, is_false, slow);
        let (taken, not_taken) = if jump_on {
            (is_true, is_false)
        } else {
            (is_false, is_true)
        };
        self.a.bind(taken);
        proof {
            let y: Seq<Item> = template::test_bool(f, l).push(Item::Bind(taken.id()));
            let ny: nat = 4;
            assert(self.a@ =~= s1.a@.append(y, ny));
            Self::lemma_extends(s0, s1, *self, acc, n, y, ny);
            acc = acc + y;
            n = n + ny;
            s1 = *self;
        }
        self.drop_top();
        proof {
            let y: Seq<Item> = template::drop_top(f, l + 4);
            let ny: nat = 2;
            assert(self.a@ =~= s1.a@.append(y, ny));
            Self::lemma_extends(s0, s1, *self, acc, n, y, ny);
            acc = acc + y;
            n = n + ny;
            s1 = *self;
        }
        self.jump(target);
        proof {
            let y: Seq<Item> = template::jump(f, target as int);
            let ny: nat = 0;
            assert(self.a@ =~= s1.a@.append(y, ny));
            Self::lemma_extends(s0, s1, *self, acc, n, y, ny);
            acc = acc + y;
            n = n + ny;
            s1 = *self;
        }
        self.a.bind(not_taken);
        proof {
            let y: Seq<Item> = seq![Item::Bind(not_taken.id())];
            let ny: nat = 0;
            assert(self.a@ =~= s1.a@.append(y, ny));
            Self::lemma_extends(s0, s1, *self, acc, n, y, ny);
            acc = acc + y;
            n = n + ny;
            s1 = *self;
        }
        self.drop_top();
        proof {
            let y: Seq<Item> = template::drop_top(f, l + 6);
            let ny: nat = 2;
            assert(self.a@ =~= s1.a@.append(y, ny));
            Self::lemma_extends(s0, s1, *self, acc, n, y, ny);
            acc = acc + y;
            n = n + ny;
            s1 = *self;
        }
        self.a.jmp(done);
        self.a.bind(slow);
        proof {
            let y: Seq<Item> = seq![Item::Jmp(l + 3), Item::Bind(l + 2)];
            let ny: nat = 0;
            assert(self.a@ =~= s1.a@.append(y, ny));
            Self::lemma_extends(s0, s1, *self, acc, n, y, ny);
            acc = acc + y;
            n = n + ny;
            s1 = *self;
        }
        self.call(HelperId::PopIsTrue, 0, idx);
        proof {
            let y: Seq<Item> = template::call(f, HelperId::PopIsTrue, 0, idx as int, l + 8);
            let ny: nat = 1;
            assert(self.a@ =~= s1.a@.append(y, ny));
            Self::lemma_extends(s0, s1, *self, acc, n, y, ny);
            acc = acc + y;
            n = n + ny;
            s1 = *self;
        }
        self.branch_if(if jump_on {
                    Cond::E
                } else {
                    Cond::NE
                }, target);
        proof {
            let y: Seq<Item> = template::branch_if(f, template::on(jump_on), target as int, l + 9);
            let ny: nat = template::branch_labels(f, target as int);
            assert(self.a@ =~= s1.a@.append(y, ny));
            Self::lemma_extends(s0, s1, *self, acc, n, y, ny);
            acc = acc + y;
            n = n + ny;
            s1 = *self;
        }
        self.a.bind(done);
        proof {
            let y: Seq<Item> = seq![Item::Bind(l + 3)];
            let ny: nat = 0;
            assert(self.a@ =~= s1.a@.append(y, ny));
            Self::lemma_extends(s0, s1, *self, acc, n, y, ny);
            acc = acc + y;
            n = n + ny;
            s1 = *self;
        }
        proof {
            reveal(template::pop_jump_if_bool);
            lemma_empty_front(template::test_bool(f, l).push(Item::Bind(taken.id())));
            assert(acc == template::pop_jump_if_bool(f, jump_on, target as int, idx as int, l));
        }
    }

    fn pop_jump_if_none(&mut self, jump_on_none: bool, target: u64)
        requires
            old(self).wf(),
        ensures
            final(self).emitted(
                *old(self),
                template::pop_jump_if_none(
                    old(self).facts(),
                    jump_on_none,
                    target as int,
                    old(self).a@.labels,
                ),
                8,
            ),
    {
        broadcast use layout::lemma_label_push;

        let ghost s0 = *self;
        let ghost f = self.facts();
        let ghost l = self.a@.labels;
        let ghost mut s1 = *self;
        let ghost mut acc: Seq<Item> = seq![];
        let ghost mut n: nat = 0;
        assert(self.a@ =~= self.a@.append(acc, n));
        let matched = self.a.new_label();
        let not_matched = self.a.new_label();
        let done = self.a.new_label();
        self.test_none(not_matched);
        proof {
            let y: Seq<Item> = template::test_none(f, l + 1);
            let ny: nat = 3;
            assert(self.a@ =~= s1.a@.append(y, ny));
            Self::lemma_extends(s0, s1, *self, acc, n, y, ny);
            acc = acc + y;
            n = n + ny;
            s1 = *self;
        }
        self.discard_rax();
        proof {
            let y: Seq<Item> = template::discard_rax(f, l + 3);
            let ny: nat = 2;
            assert(self.a@ =~= s1.a@.append(y, ny));
            Self::lemma_extends(s0, s1, *self, acc, n, y, ny);
            acc = acc + y;
            n = n + ny;
            s1 = *self;
        }
        self.a.jmp(matched);
        self.a.bind(not_matched);
        proof {
            let y: Seq<Item> = seq![Item::Jmp(l), Item::Bind(l + 1)];
            let ny: nat = 0;
            assert(self.a@ =~= s1.a@.append(y, ny));
            Self::lemma_extends(s0, s1, *self, acc, n, y, ny);
            acc = acc + y;
            n = n + ny;
            s1 = *self;
        }
        self.discard_rax();
        proof {
            let y: Seq<Item> = template::discard_rax(f, l + 5);
            let ny: nat = 2;
            assert(self.a@ =~= s1.a@.append(y, ny));
            Self::lemma_extends(s0, s1, *self, acc, n, y, ny);
            acc = acc + y;
            n = n + ny;
            s1 = *self;
        }
        let not_matched_done = self.a.new_label();
        self.a.jmp(not_matched_done);
        proof {
            let y: Seq<Item> = seq![Item::Jmp(l + 7)];
            let ny: nat = 1;
            assert(self.a@ =~= s1.a@.append(y, ny));
            Self::lemma_extends(s0, s1, *self, acc, n, y, ny);
            acc = acc + y;
            n = n + ny;
            s1 = *self;
        }
        if jump_on_none {
            self.a.bind(matched);
            self.jump(target);
            self.a.bind(not_matched_done);
        } else {
            self.a.bind(matched);
            self.a.jmp(done);
            self.a.bind(not_matched_done);
            self.jump(target);
        }
        proof {
            let y: Seq<Item> = if jump_on_none {
                seq![Item::Bind(l)] + template::jump(f, target as int) + seq![Item::Bind(l + 7)]
            } else {
                seq![Item::Bind(l), Item::Jmp(l + 2), Item::Bind(l + 7)] + template::jump(
                    f,
                    target as int,
                )
            };
            let ny: nat = 0;
            assert(self.a@ =~= s1.a@.append(y, ny));
            Self::lemma_extends(s0, s1, *self, acc, n, y, ny);
            acc = acc + y;
            n = n + ny;
            s1 = *self;
        }
        self.a.bind(done);
        proof {
            let y: Seq<Item> = seq![Item::Bind(l + 2)];
            let ny: nat = 0;
            assert(self.a@ =~= s1.a@.append(y, ny));
            Self::lemma_extends(s0, s1, *self, acc, n, y, ny);
            acc = acc + y;
            n = n + ny;
            s1 = *self;
        }
        proof {
            reveal(template::pop_jump_if_none);
            lemma_empty_front(template::test_none(f, l + 1));
            assert(acc == template::pop_jump_if_none(f, jump_on_none, target as int, l));
        }
    }

    /// Binds the labels of the units from `from` up to `to`.
    fn bind_units(&mut self, from: usize, to: usize)
        requires
            old(self).wf(),
            from <= to <= old(self).len,
            forall|i: nat|
                from <= i < to ==> #[trigger] insn::label_at(old(self).a@.items, i) is None,
        ensures
            final(self).same_setting(*old(self)),
            final(self).extends(
                *old(self),
                template::bind_units(from as int, to as int),
                0,
            ),
            forall|m: nat| #[trigger]
                insn::label_at(final(self).a@.items, m) == (if from <= m < to {
                    Some(insn::code_len(old(self).a@.items))
                } else {
                    insn::label_at(old(self).a@.items, m)
                }),
    {
        broadcast use layout::lemma_label_push;

        proof {
            assert(self.a@ =~= self.a@.append(template::bind_units(from as int, from as int), 0));
        }
        for i in from..to
            invariant
                from <= i <= to <= self.len,
                self.same_setting(*old(self)),
                self.extends(*old(self), template::bind_units(from as int, i as int), 0),
                forall|i: nat|
                    from <= i < to ==> #[trigger] insn::label_at(old(self).a@.items, i) is None,
                insn::code_len(self.a@.items) == insn::code_len(old(self).a@.items),
                forall|m: nat| #[trigger]
                    insn::label_at(self.a@.items, m) == (if from <= m < i {
                        Some(insn::code_len(old(self).a@.items))
                    } else {
                        insn::label_at(old(self).a@.items, m)
                    }),
        {
            let ghost s1 = *self;
            assert(insn::label_at(self.a@.items, i as nat) is None);
            self.a.bind(self.labels[i]);
            proof {
                layout::lemma_push(s1.a@.items, Item::Bind(i as nat));
                assert(self.labels@[i as int].id() == i);
                assert forall|m: nat| #[trigger]
                    insn::label_at(self.a@.items, m) == (if from <= m < i + 1 {
                        Some(insn::code_len(old(self).a@.items))
                    } else {
                        insn::label_at(old(self).a@.items, m)
                    }) by {
                    layout::lemma_label_push(s1.a@.items, Item::Bind(i as nat), m);
                    assert(insn::label_at(s1.a@.items, m) == insn::label_at(s1.a@.items, m));
                }
                assert(self.a@ =~= old(self).a@.append(
                    template::bind_units(from as int, i + 1),
                    0,
                ));
            }
        }
    }

    /// The lines of the instruction at unit `idx`.
    fn instruction(
        &mut self,
        units: &[CodeUnit],
        idx: usize,
        arg: u32,
        next: u64,
        Ghost(c): Ghost<Cursor>,
    )
        requires
            old(self).wf(),
            units@.len() == old(self).len,
            units@.len() <= MAX_UNITS,
            forall|i: int| 0 <= i < units@.len() ==> (#[trigger] units@[i]).wf(),
            idx < units@.len(),
            c.idx == idx,
            arg == template::operand(units@, c),
            next == template::next_unit(units@, idx as int),
            template::operand_fits(units@, c),
        ensures
            final(self).emitted(
                *old(self),
                template::instruction(old(self).facts(), units@, c, old(self).a@.labels),
                template::instruction_labels(old(self).facts(), units@, c),
            ),
    {
        reveal(template::instruction);
        let ghost s0 = *self;
        let ghost f = self.facts();
        let ghost l = self.a@.labels;
        let unit = units[idx];
        let at: u64 = idx as u64;
        match classify(unit.base()) {
            Op::Extend | Op::Nothing => {
                assert(self.a@ =~= s0.a@.append(seq![], 0));
            },
            Op::LoadFast => self.load_fast(arg, at),
            Op::LoadFastLoadFast => {
                self.load_fast(arg / 16, at);
                let ghost s1 = *self;
                self.load_fast(arg % 16, at);
                proof {
                    Self::lemma_extends(
                        s0,
                        s1,
                        *self,
                        template::load_fast(f, arg / 16, idx as int, l),
                        3,
                        template::load_fast(f, arg % 16, idx as int, l + 3),
                        3,
                    );
                }
            },
            Op::StoreFast => self.store_fast(arg),
            Op::StoreFastLoadFast => {
                self.store_fast(arg / 16);
                let ghost s1 = *self;
                self.load_fast(arg % 16, at);
                proof {
                    Self::lemma_extends(
                        s0,
                        s1,
                        *self,
                        template::store_fast(f, arg / 16, l),
                        3,
                        template::load_fast(f, arg % 16, idx as int, l + 3),
                        3,
                    );
                }
            },
            Op::StoreFastStoreFast => {
                self.store_fast(arg / 16);
                let ghost s1 = *self;
                self.store_fast(arg % 16);
                proof {
                    Self::lemma_extends(
                        s0,
                        s1,
                        *self,
                        template::store_fast(f, arg / 16, l),
                        3,
                        template::store_fast(f, arg % 16, l + 3),
                        3,
                    );
                }
            },
            Op::LoadSmallInt => self.load_small_int(arg, at),
            Op::BinaryOp => {
                if unit.op == bytecode::BINARY_OP_ADD_INT || unit.op
                    == bytecode::BINARY_OP_SUBTRACT_INT || unit.op
                    == bytecode::BINARY_OP_MULTIPLY_INT {
                    self.binary_op_int(arg, at);
                } else {
                    self.call(HelperId::BinaryOp, arg as u64, at);
                }
            },
            Op::CompareOp => {
                let fused = fusable(units, next);
                self.compare_op(arg, at, fused);
            },
            Op::PopTop => self.pop_top(),
            Op::PopJumpIfBool(jump_on) => self.pop_jump_if_bool(jump_on, next + arg as u64, at),
            Op::PopJumpIfNone(on_none) => self.pop_jump_if_none(on_none, next + arg as u64),
            Op::ForIter => {
                let target: u64 = next + arg as u64;
                self.call(HelperId::ForIter, target, at);
                let ghost s1 = *self;
                let mut exit: u64 = target;
                if target < units.len() as u64 {
                    let op: u8 = units[target as usize].op;
                    if op == bytecode::END_FOR || op == bytecode::INSTRUMENTED_END_FOR {
                        exit = target + 1;
                    }
                }
                self.branch_if(Cond::E, exit);
                proof {
                    Self::lemma_extends(
                        s0,
                        s1,
                        *self,
                        template::call(f, HelperId::ForIter, target, idx as int, l),
                        1,
                        template::branch_if(f, Cond::E, exit as int, l + 1),
                        template::branch_labels(f, exit as int),
                    );
                }
            },
            Op::JumpForward => self.jump(next + arg as u64),
            Op::JumpBackward => {
                self.eval_breaker(at);
                let ghost s1 = *self;
                self.jump(next - arg as u64);
                proof {
                    Self::lemma_extends(
                        s0,
                        s1,
                        *self,
                        template::eval_breaker(f, idx as int, l),
                        2,
                        template::jump(f, next - arg),
                        0,
                    );
                }
            },
            Op::JumpBackwardNoInterrupt => self.jump(next - arg as u64),
            Op::Helper(id) => self.call(id, arg as u64, at),
            Op::PlainHelper(id) => self.call(id, 0, at),
            Op::Unsupported => self.exit(at),
        }
    }

    fn prologue(&mut self)
        requires
            old(self).wf(),
        ensures
            final(self).emitted(*old(self), template::prologue(old(self).facts()), 0),
    {
        broadcast use layout::lemma_label_push;

        reveal(template::prologue);
        self.a.push(CTX);
        self.a.push(TOP);
        self.a.push(LOCALS);
        self.a.push(STACK);
        self.a.push(SCRATCH);
        let frame_space: i32 = self.abi.shadow_space();
        if frame_space > 0 {
            self.a.sub_ri(Reg::Rsp, frame_space);
        }
        self.a.mov_rr(CTX, self.abi.arg0());
        self.a.mov_rm(LOCALS, CTX, CTX_LOCALS);
        self.a.mov_rm(Reg::Rax, CTX, CTX_STACK_TOP);
        self.a.mov_rm32(TOP, Reg::Rax, 0);
        self.a.mov_rm(STACK, CTX, CTX_NLOCALSPLUS);
        self.a.shl_ri(STACK, 3);
        self.a.add_rr(STACK, LOCALS);
        self.a.jmp_r(self.abi.arg1());
    }

    fn epilogue(&mut self)
        requires
            old(self).wf(),
            insn::label_at(old(self).a@.items, old(self).len as nat) is None,
        ensures
            final(self).same_setting(*old(self)),
            final(self).extends(*old(self), template::epilogue(old(self).facts()), 0),
            insn::label_at(final(self).a@.items, old(self).len as nat) is Some,
            forall|m: nat|
                m < old(self).len ==> #[trigger] insn::label_at(final(self).a@.items, m)
                    == insn::label_at(old(self).a@.items, m),
    {
        broadcast use layout::lemma_label_push;

        reveal(template::epilogue);
        reveal(template::exit);
        reveal(template::sync_out);
        self.exit(self.len as u64);
        self.a.bind(self.epilogue);
        self.a.mov_rm(Reg::Rcx, CTX, CTX_STACK_TOP);
        self.a.mov_mr32(Reg::Rcx, 0, TOP);
        let frame_space: i32 = self.abi.shadow_space();
        if frame_space > 0 {
            self.a.add_ri(Reg::Rsp, frame_space);
        }
        self.a.pop(SCRATCH);
        self.a.pop(STACK);
        self.a.pop(LOCALS);
        self.a.pop(TOP);
        self.a.pop(CTX);
        self.a.ret();
        assert(self.a@ =~= old(self).a@.append(template::epilogue(old(self).facts()), 0));
    }
}

proof fn lemma_empty_front(x: Seq<Item>)
    ensures
        Seq::<Item>::empty() + x == x,
{
    assert(Seq::<Item>::empty() + x =~= x);
}

/// The conditional jump that `compare_op` takes along.
pub open spec fn fused_view(fused: Option<(bool, u64, u64)>) -> Option<Fused> {
    match fused {
        Some((jump_on, target, after)) => Some(
            Fused { jump_on, target: target as int, after: after as int },
        ),
        None => None,
    }
}

/// What the compiler does with the instruction of base opcode `base`.
fn classify(base: u8) -> (r: Op)
    ensures
        r == template::classify(base),
{
    if base == bytecode::EXTENDED_ARG {
        Op::Extend
    } else if base == bytecode::CACHE || base == bytecode::NOP || base == bytecode::NOT_TAKEN {
        Op::Nothing
    } else if base == bytecode::LOAD_FAST || base == bytecode::LOAD_FAST_BORROW || base
        == bytecode::LOAD_FAST_CHECK {
        Op::LoadFast
    } else if base == bytecode::LOAD_FAST_LOAD_FAST || base
        == bytecode::LOAD_FAST_BORROW_LOAD_FAST_BORROW {
        Op::LoadFastLoadFast
    } else if base == bytecode::STORE_FAST {
        Op::StoreFast
    } else if base == bytecode::STORE_FAST_LOAD_FAST {
        Op::StoreFastLoadFast
    } else if base == bytecode::STORE_FAST_STORE_FAST {
        Op::StoreFastStoreFast
    } else if base == bytecode::LOAD_CONST {
        Op::Helper(HelperId::LoadConst)
    } else if base == bytecode::LOAD_SMALL_INT {
        Op::LoadSmallInt
    } else if base == bytecode::LOAD_GLOBAL {
        Op::Helper(HelperId::LoadGlobal)
    } else if base == bytecode::BINARY_OP {
        Op::BinaryOp
    } else if base == bytecode::COMPARE_OP {
        Op::CompareOp
    } else if base == bytecode::TO_BOOL {
        Op::PlainHelper(HelperId::ToBool)
    } else if base == bytecode::UNARY_NOT {
        Op::PlainHelper(HelperId::UnaryNot)
    } else if base == bytecode::UNARY_NEGATIVE {
        Op::PlainHelper(HelperId::UnaryNegative)
    } else if base == bytecode::UNARY_INVERT {
        Op::PlainHelper(HelperId::UnaryInvert)
    } else if base == bytecode::POP_TOP || base == bytecode::END_FOR || base == bytecode::POP_ITER {
        Op::PopTop
    } else if base == bytecode::COPY {
        Op::Helper(HelperId::Copy)
    } else if base == bytecode::SWAP {
        Op::Helper(HelperId::Swap)
    } else if base == bytecode::POP_JUMP_IF_FALSE {
        Op::PopJumpIfBool(false)
    } else if base == bytecode::POP_JUMP_IF_TRUE {
        Op::PopJumpIfBool(true)
    } else if base == bytecode::POP_JUMP_IF_NONE {
        Op::PopJumpIfNone(true)
    } else if base == bytecode::POP_JUMP_IF_NOT_NONE {
        Op::PopJumpIfNone(false)
    } else if base == bytecode::FOR_ITER {
        Op::ForIter
    } else if base == bytecode::JUMP_FORWARD {
        Op::JumpForward
    } else if base == bytecode::JUMP_BACKWARD {
        Op::JumpBackward
    } else if base == bytecode::JUMP_BACKWARD_NO_INTERRUPT {
        Op::JumpBackwardNoInterrupt
    } else {
        Op::Unsupported
    }
}

/// The conditional jump at unit `next`, where it can be compiled with a comparison.
fn fusable(units: &[CodeUnit], next: u64) -> (r: Option<(bool, u64, u64)>)
    requires
        units@.len() <= MAX_UNITS,
        forall|i: int| 0 <= i < units@.len() ==> (#[trigger] units@[i]).wf(),
    ensures
        fused_view(r) == template::fusable(units@, next as int),
{
    if next >= units.len() as u64 {
        return None;
    }
    let pj = units[next as usize];
    match classify(pj.base()) {
        Op::PopJumpIfBool(jump_on) => {
            let after: u64 = next + 1 + pj.cache_entries() as u64;
            Some((jump_on, after + pj.arg as u64, after))
        },
        _ => None,
    }
}

/// The displacement of the local can be encoded.
fn local_fits(var: u32) -> (r: bool)
    ensures
        r == template::local_fits(var),
{
    let v: i32 = var as i32;
    -0x1000_0000 <= v && v <= 0x0FFF_FFFF
}

/// The operand of the instruction names a local that can be addressed, or a unit that is
/// there.
fn operand_fits(
    unit: CodeUnit,
    arg: u32,
    next: u64,
    Ghost(units): Ghost<Seq<CodeUnit>>,
    Ghost(c): Ghost<Cursor>,
) -> (r: bool)
    requires
        unit.wf(),
        unit == units[c.idx],
        arg == template::operand(units, c),
        next == template::next_unit(units, c.idx),
    ensures
        r == template::operand_fits(units, c),
{
    match classify(unit.base()) {
        Op::LoadFast | Op::StoreFast => local_fits(arg),
        Op::LoadFastLoadFast | Op::StoreFastLoadFast | Op::StoreFastStoreFast => local_fits(
            arg / 16,
        ),
        Op::JumpBackward | Op::JumpBackwardNoInterrupt => arg as u64 <= next,
        _ => true,
    }
}

/// Machine code that has not been mapped yet, and where in it each unit starts.
pub struct Image {
    pub code: Vec<u8>,
    pub offsets: Vec<u32>,
}

/// The units can be compiled: operands fit, and jumps in the code are near enough.
pub open spec fn accepts(f: Facts, units: Seq<CodeUnit>) -> bool {
    &&& template::operands_fit(units, template::start())
    &&& insn::jumps_resolve(template::program(f, units))
}

impl Image {
    /// The image is the code of the units.
    pub open spec fn is_code_of(self, f: Facts, units: Seq<CodeUnit>) -> bool {
        &&& self.code@ == insn::assemble(template::program(f, units))
        &&& self.offsets@.len() == units.len()
        &&& forall|i: int|
            0 <= i < units.len() ==> {
                &&& insn::label_at(template::program(f, units), i as nat) is Some
                &&& #[trigger] self.offsets@[i] == insn::label_at(
                    template::program(f, units),
                    i as nat,
                ).unwrap() as u32
            }
    }
}

/// The code of the units, or nothing if they cannot be compiled.
pub fn checked_compile<F: Fn(i32) -> Option<u64>>(
    units: &[CodeUnit],
    helpers: &HelperTable,
    env: &Env<F>,
    abi: Abi,
) -> (r: Option<Image>)
    requires
        units@.len() <= MAX_UNITS,
        forall|i: int| 0 <= i < units@.len() ==> (#[trigger] units@[i]).wf(),
        env.wf(),
    ensures
        r is Some <==> accepts(facts(*helpers, *env, abi, units@.len()), units@),
        r matches Some(image) ==> image.is_code_of(
            facts(*helpers, *env, abi, units@.len()),
            units@,
        ),
{
    let n: usize = units.len();
    let ghost f = facts(*helpers, *env, abi, units@.len());
    let mut a = Assembler::new();
    let mut labels: Vec<Label> = Vec::new();
    for i in 0..n
        invariant
            a.wf(),
            a@ == (Listing { items: seq![], labels: i as nat }),
            labels@.len() == i,
            forall|k: int| 0 <= k < i ==> (#[trigger] labels@[k]).id() == k,
    {
        let l = a.new_label();
        labels.push(l);
    }
    let epilogue = a.new_label();
    let mut e = Emitter { a, helpers, env, abi, labels, epilogue, len: n };
    e.prologue();
    assert(e.a@ =~= (Listing { items: template::prologue(f), labels: n as nat + 1 }));

    let mut arg_state = OpArgState::new();
    let mut idx: u64 = 0;
    let mut fused: bool = false;
    let ghost mut c = template::start();
    let ghost mut done: Seq<Item> = template::prologue(f);
    proof {
        assert forall|m: nat| #[trigger] insn::label_at(e.a@.items, m) is None || m > n by {}
    }
    while idx < n as u64
        invariant
            n == units@.len(),
            n <= MAX_UNITS,
            forall|i: int| 0 <= i < units@.len() ==> (#[trigger] units@[i]).wf(),
            e.wf(),
            e.len == n,
            e.facts() == f,
            f == facts(*helpers, *env, abi, units@.len()),
            c == (Cursor { idx: idx as int, pending: arg_state.pending(), fused }),
            idx <= n + 10,
            e.a@.items == done,
            done + template::body(f, units@, c, e.a@.labels) + template::epilogue(f)
                == template::program(f, units@),
            template::operands_fit(units@, template::start()) == template::operands_fit(units@, c),
            forall|m: nat|
                m < idx && m < n ==> #[trigger] insn::label_at(e.a@.items, m) is Some,
            forall|m: nat| idx <= m && m < n ==> #[trigger] insn::label_at(e.a@.items, m) is None,
            insn::label_at(e.a@.items, n as nat) is None,
            fused ==> idx < n,
        decreases n + 10 - idx,
    {
        let i: usize = idx as usize;
        let unit = units[i];
        let caches: usize = unit.cache_entries();
        let next: u64 = idx + 1 + caches as u64;
        let end: usize = if next < n as u64 {
            next as usize
        } else {
            n
        };
        let ghost s0 = e;
        e.a.bind(e.labels[i]);
        let ghost s1 = e;
        proof {
            assert(e.labels@[i as int].id() == i);
            assert forall|m: nat| m <= n implies #[trigger] insn::label_at(e.a@.items, m) == (if m
                == i {
                Some(insn::code_len(s0.a@.items))
            } else {
                insn::label_at(s0.a@.items, m)
            }) by {
                layout::lemma_label_push(s0.a@.items, Item::Bind(i as nat), m);
            }
        }
        if fused {
            fused = false;
            e.exit(idx);
        } else {
            let (_, arg) = arg_state.get(unit);
            if !operand_fits(unit, arg, next, Ghost(units@), Ghost(c)) {
                return None;
            }
            fused = match classify(unit.base()) {
                Op::CompareOp => fusable(units, next).is_some(),
                _ => false,
            };
            e.instruction(units, i, arg, next, Ghost(c));
        }
        let ghost s2 = e;
        e.bind_units(i + 1, end);
        proof {
            let u = template::unit(f, units@, c, s0.a@.labels);
            reveal(template::unit);
            assert(e.a@.items =~= done + u);
            let after = template::advance(units@, c);
            let rest = template::body(f, units@, after, e.a@.labels);
            assert(done + (u + rest) + template::epilogue(f) =~= done + u + rest
                + template::epilogue(f));
            done = done + u;
            c = after;
        }
        idx = next;
    }
    e.epilogue();
    assert(e.a@.items =~= template::program(f, units@));
    let mut offsets: Vec<u32> = Vec::new();
    for k in 0..n
        invariant
            e.wf(),
            e.len == n,
            offsets@.len() == k,
            e.a@.items == template::program(f, units@),
            n == units@.len(),
            forall|m: nat| m < n ==> #[trigger] insn::label_at(e.a@.items, m) is Some,
            forall|i: int|
                0 <= i < k ==> #[trigger] offsets@[i] == insn::label_at(
                    e.a@.items,
                    i as nat,
                ).unwrap() as u32,
    {
        let at: usize = e.a.label_offset(e.labels[k]).unwrap();
        offsets.push(at as u32);
    }
    match e.a.checked_finish() {
        Some(code) => Some(Image { code, offsets }),
        None => None,
    }
}

/// The code of units that can be compiled.
pub fn compile<F: Fn(i32) -> Option<u64>>(
    units: &[CodeUnit],
    helpers: &HelperTable,
    env: &Env<F>,
    abi: Abi,
) -> (r: Image)
    requires
        units@.len() <= MAX_UNITS,
        forall|i: int| 0 <= i < units@.len() ==> (#[trigger] units@[i]).wf(),
        env.wf(),
        accepts(facts(*helpers, *env, abi, units@.len()), units@),
    ensures
        r.is_code_of(facts(*helpers, *env, abi, units@.len()), units@),
{
    checked_compile(units, helpers, env, abi).unwrap()
}

#[derive(Copy, Clone, Debug, PartialEq, Eq, Structural)]
pub enum CompileError {
    Exec(ExecError),
}

impl vstd::std_specs::convert::FromSpecImpl<ExecError> for CompileError {
    open spec fn obeys_from_spec() -> bool {
        true
    }

    open spec fn from_spec(e: ExecError) -> CompileError {
        CompileError::Exec(e)
    }
}

impl From<ExecError> for CompileError {
    fn from(e: ExecError) -> (r: CompileError) {
        CompileError::Exec(e)
    }
}

impl CompileError {
    /// What the message says.
    pub open spec fn text(self) -> Seq<char> {
        match self {
            CompileError::Exec(e) => e.text(),
        }
    }

    /// The message for a reader.
    pub fn message(&self) -> (r: String)
        ensures
            r@ == self.text(),
    {
        match self {
            CompileError::Exec(e) => e.message(),
        }
    }
}

/// Code in executable memory, with the offset at which each unit is entered.
pub struct Compiled {
    mem: ExecMemory,
    offsets: Vec<u32>,
}

impl Compiled {
    pub closed spec fn memory(self) -> ExecMemory {
        self.mem
    }

    /// The offset of each unit.
    pub closed spec fn entries(self) -> Seq<u32> {
        self.offsets@
    }

    /// What comes of compiled code whose mapping has ended.
    pub fn new(image: Image, mapped: Result<ExecMemory, ExecError>) -> (r: Result<
        Compiled,
        CompileError,
    >)
        ensures
            match mapped {
                Ok(mem) => r matches Ok(c) && c.memory() == mem && c.entries()
                    == image.offsets@,
                Err(e) => r == Err::<Compiled, CompileError>(CompileError::Exec(e)),
            },
    {
        match mapped {
            Ok(mem) => Ok(Compiled { mem, offsets: image.offsets }),
            Err(e) => Err(CompileError::from(e)),
        }
    }

    /// The address that is called: the first byte of the code.
    pub fn address(&self) -> (r: usize)
        ensures
            r == self.memory().address(),
    {
        self.mem.as_ptr()
    }

    /// The address to go to for unit `entry`, the second argument of the call.
    pub fn target(&self, entry: usize) -> (r: usize)
        requires
            entry < self.entries().len(),
            self.memory().address() + self.entries()[entry as int] <= usize::MAX,
        ensures
            r == self.memory().address() + self.entries()[entry as int],
    {
        self.mem.as_ptr() + self.offsets[entry] as usize
    }

    /// The address to go to for unit `entry`, where there is such a unit and the address can be
    /// counted.
    pub fn checked_target(&self, entry: usize) -> (r: Option<usize>)
        ensures
            r == (if entry < self.entries().len() && self.memory().address()
                + self.entries()[entry as int] <= usize::MAX {
                Some((self.memory().address() + self.entries()[entry as int]) as usize)
            } else {
                None
            }),
    {
        if entry < self.offsets.len() {
            self.mem.as_ptr().checked_add(self.offsets[entry] as usize)
        } else {
            None
        }
    }

    /// How many units were compiled.
    pub fn len(&self) -> (r: usize)
        ensures
            r == self.entries().len(),
    {
        self.offsets.len()
    }

    pub fn is_empty(&self) -> (r: bool)
        ensures
            r == (self.entries().len() == 0),
    {
        self.offsets.len() == 0
    }
}

/// The unit to go on with, from what the code returned: its lower 32 bits.
pub fn resume_at(returned: u64) -> (r: u32)
    ensures
        r == returned % 0x1_0000_0000,
{
    (returned % 0x1_0000_0000) as u32
}

/// A label is bound inside the code.
pub proof fn lemma_label_in_code(items: Seq<Item>, l: nat)
    ensures
        insn::label_at(items, l) matches Some(at) ==> at <= insn::code_len(items),
    decreases items.len(),
{
    if items.len() > 0 {
        lemma_label_in_code(items.drop_last(), l);
    }
}

/// The code is as long as the lines it was made from.
pub proof fn law_code_has_the_length_of_its_lines(image: Image, f: Facts, units: Seq<CodeUnit>)
    requires
        image.is_code_of(f, units),
    ensures
        image.code@.len() == insn::code_len(template::program(f, units)),
{
    let items = template::program(f, units);
    layout::lemma_code_upto_len(items, items.len() as int, items);
}

/// Every unit is entered inside the code.
pub proof fn law_entries_in_code(image: Image, f: Facts, units: Seq<CodeUnit>, i: int)
    requires
        image.is_code_of(f, units),
        0 <= i < units.len(),
    ensures
        image.offsets@[i] <= image.code@.len(),
{
    let items = template::program(f, units);
    lemma_label_in_code(items, i as nat);
    layout::lemma_code_upto_len(items, items.len() as int, items);
    let at = insn::label_at(items, i as nat).unwrap();
    assert(image.offsets@[i] == at as u32);
}

} // verus!
