//! Compiled code does on the machine what the bytecode means.
use crate::assembler::{Cond, Reg};
use crate::bytecode;
use crate::bytecode::CodeUnit;
use crate::codegen;
use crate::codegen::{HelperId, BORROW_TAG};
use crate::exec::Abi;
use crate::insn;
use crate::insn::{Alu, Insn, Item, Shift};
use crate::labels;
use crate::layout;
use crate::machine;
use crate::machine::{Machine, World};
use crate::meaning;
use crate::meaning::{Flow, Ran, FrameState};
use crate::template;
use crate::template::{
    Cursor, Facts, Fused, Op, CTX, CTX_BREAKER, CTX_LOCALS, CTX_NLOCALSPLUS, CTX_STACK_TOP,
    FLAG_BITS, LEAKED_SHIFT, LOCALS, SCRATCH, STACK, TOP, UNTAG,
};
use vstd::prelude::*;

verus! {

/// The code that is run, and what it was compiled with.
struct Setting {
    w: World,
    p: Seq<Item>,
    f: Facts,
}

/// What the machine holds besides the frame.
struct Native {
    saved: Seq<u64>,
    bottom: u64,
    rsp: u64,
    rbp: u64,
    /// whether a callee keeps `rsi` and `rdi`
    windows: bool,
    rsi: u64,
    rdi: u64,
    scratch: u64,
}

impl Setting {
    /// The line of a unit, or of the epilogue.
    spec fn line_of(self, l: int) -> int {
        labels::place(self.p, l as nat)
    }

    spec fn epilogue(self) -> int {
        self.line_of(self.f.len as int)
    }

    spec fn wf(self) -> bool {
        &&& machine::code_of(self.w, self.p)
        &&& self.w.abi == self.f.abi
        &&& forall|l: int|
            0 <= l <= self.f.len ==> 0 <= #[trigger] self.line_of(l) < self.p.len()
                && self.p[self.line_of(l)] == Item::Bind(l as nat)
    }

    spec fn goes(self, k: int, m: Machine, k2: int, m2: Machine) -> bool {
        machine::goes(self.w, self.p, k, m, k2, m2)
    }

    spec fn at(self, k: int, t: Seq<Item>) -> bool {
        machine::at(self.p, k, t)
    }
}

impl Native {
    /// With another word in the scratch register.
    spec fn scratched(self, x: u64) -> Native {
        Native { scratch: x, ..self }
    }
}

/// The registers and the memory hold the frame.
spec fn rel(m: Machine, v: FrameState, t: Native) -> bool {
    &&& m.regs[CTX] == v.ctx
    &&& m.regs[TOP] == v.top
    &&& m.regs[LOCALS] == v.locals
    &&& m.regs[STACK] == v.stack
    &&& m.mem == v.mem
    &&& m.half == v.half
    &&& m.calls == v.calls
    &&& m.saved == t.saved
    &&& m.bottom == t.bottom
    &&& m.regs[Reg::Rsp] == t.rsp
    &&& m.regs[Reg::Rbp] == t.rbp
    &&& m.regs[SCRATCH] == t.scratch
    &&& t.windows ==> m.regs[Reg::Rsi] == t.rsi && m.regs[Reg::Rdi] == t.rdi
}

/// A helper can be called: the stack is aligned, and the registers that are kept are those of
/// the calling convention.
spec fn fits(s: Setting, t: Native) -> bool {
    &&& t.rsp % 16 == 0
    &&& t.windows ==> s.f.abi == Abi::Windows
}

/// The machine stands where the flow goes, behind a template that ends at line `end`.
spec fn lands(s: Setting, end: int, ran: Ran, t: Native, k: int, m: Machine) -> bool {
    &&& rel(m, ran.v, t)
    &&& match ran.flow {
        Flow::Next => k == end,
        Flow::Goto(x) => k == s.line_of(x),
        Flow::Leave(x) => k == s.epilogue() && m.regs[Reg::Rax] == x as u64,
    }
}

proof fn lemma_then(s: Setting, k: int, m: Machine, k2: int, m2: Machine, k3: int, m3: Machine)
    requires
        s.goes(k, m, k2, m2),
        s.goes(k2, m2, k3, m3),
    ensures
        s.goes(k, m, k3, m3),
{
    machine::lemma_goes_trans(s.w, s.p, k, m, k2, m2, k3, m3);
}

/// Runs straight-line lines.
proof fn straight(s: Setting, k: int, t: Seq<Item>, n: int, m: Machine) -> (m2: Machine)
    requires
        s.wf(),
        s.at(k, t),
        0 <= n <= t.len(),
        machine::exec_lines(t, n, m) is Some,
    ensures
        Some(m2) == machine::exec_lines(t, n, m),
        s.goes(k, m, k + n, m2),
{
    machine::lemma_straight(s.w, s.p, k, t, n, m)
}

proof fn lemma_exit(s: Setting, k: int, lasti: int, m: Machine, v: FrameState, t: Native) -> (m2: Machine)
    requires
        s.wf(),
        s.at(k, template::exit(s.f, lasti)),
        rel(m, v, t),
    ensures
        s.goes(k, m, s.epilogue(), m2),
        rel(m2, v, t),
        m2.regs[Reg::Rax] == lasti as u64,
{
    reveal(template::exit);
    let lines = template::exit(s.f, lasti);
    reveal_with_fuel(machine::exec_lines, 2);
    let m2 = straight(s, k, lines, 1, m);
    machine::lemma_at_line(s.p, k, lines, 1);
    let e = s.line_of(s.f.len as int);
    machine::lemma_jmp(s.w, s.p, k + 1, m2, e);
    lemma_then(s, k, m, k + 1, m2, e, m2);
    m2
}

proof fn lemma_sync_out(s: Setting, k: int, m: Machine, v: FrameState, t: Native) -> (m2: Machine)
    requires
        s.wf(),
        s.at(k, template::sync_out()),
        rel(m, v, t),
    ensures
        template::sync_out().len() == 2,
        s.goes(k, m, k + 2, m2),
        rel(m2, v.published(), t),
        m2.regs == m.regs.insert(Reg::Rcx, v.shared()),
{
    reveal(template::sync_out);
    reveal_with_fuel(machine::exec_lines, 3);
    assert(machine::shifted(v.shared(), 0) == v.shared());
    straight(s, k, template::sync_out(), 2, m)
}

proof fn lemma_sync_in(s: Setting, k: int, m: Machine, v: FrameState, t: Native) -> (m2: Machine)
    requires
        s.wf(),
        s.at(k, template::sync_in()),
        rel(m, v, t),
    ensures
        template::sync_in().len() == 2,
        s.goes(k, m, k + 2, m2),
        rel(m2, v.refreshed(), t),
        m2.regs[Reg::Rax] == m.regs[Reg::Rax],
{
    reveal(template::sync_in);
    reveal_with_fuel(machine::exec_lines, 3);
    assert(machine::shifted(v.shared(), 0) == v.shared());
    straight(s, k, template::sync_in(), 2, m)
}

/// The frame just after the host has answered.
spec fn answered(f: Facts, host: machine::Host, v: FrameState, id: HelperId, arg: u64) -> (FrameState, u64) {
    let calls = v.calls.push(
        machine::Call { helper: (f.helpers)(id), first: v.ctx, second: arg },
    );
    let reply = host(calls, v.mem, v.half);
    (FrameState { mem: reply.mem, half: reply.half, calls, ..v }, reply.value)
}

proof fn lemma_call_raw(s: Setting, k: int, id: HelperId, m: Machine, v: FrameState, t: Native) -> (m2:
    Machine)
    requires
        s.wf(),
        s.at(k, template::call_raw(s.f, id)),
        rel(m, v, t),
        fits(s, t),
    ensures
        template::call_raw(s.f, id).len() == 3,
        s.goes(k, m, k + 3, m2),
        rel(m2, answered(s.f, s.w.host, v, id, m.regs[s.f.abi.second_arg()]).0, t),
        m2.regs[Reg::Rax] == answered(s.f, s.w.host, v, id, m.regs[s.f.abi.second_arg()]).1,
{
    reveal(template::call_raw);
    let lines = template::call_raw(s.f, id);
    reveal_with_fuel(machine::exec_lines, 3);
    let m1 = straight(s, k, lines, 2, m);
    machine::lemma_at_line(s.p, k, lines, 2);
    let m2 = machine::called(s.w, Reg::Rax, m1);
    machine::lemma_op(s.w, s.p, k + 2, m1, Insn::CallR { r: Reg::Rax }, m2);
    lemma_then(s, k, m, k + 2, m1, k + 3, m2);
    m2
}

proof fn lemma_call(
    s: Setting,
    k: int,
    id: HelperId,
    arg: u64,
    idx: int,
    l: nat,
    m: Machine,
    v: FrameState,
    t: Native,
) -> (r: (int, Machine))
    requires
        s.wf(),
        s.at(k, template::call(s.f, id, arg, idx, l)),
        rel(m, v, t),
        fits(s, t),
    ensures
        s.goes(k, m, r.0, r.1),
        ({
            let (ran, value) = meaning::help(s.f, s.w.host, v, id, arg, idx);
            &&& lands(s, k + template::call(s.f, id, arg, idx, l).len(), ran, t, r.0, r.1)
            &&& ran.flow is Next ==> r.1.regs[Reg::Rax] == value
        }),
{
    broadcast use machine::lemma_at_add;

    reveal(template::call);
    reveal_with_fuel(machine::exec_lines, 2);
    let (ran, value) = meaning::help(s.f, s.w.host, v, id, arg, idx);
    let mid = seq![
        Item::Op(Insn::TestRR { a: Reg::Rax, b: Reg::Rax }),
        Item::Jcc(Cond::NS, l),
    ];
    let load = seq![Item::Op(Insn::MovRI { dst: s.f.abi.second_arg(), imm: arg })];
    let m1 = lemma_sync_out(s, k, m, v, t);
    assert(s.at(k + 2, load));
    let m2 = straight(s, k + 2, load, 1, m1);
    lemma_then(s, k, m, k + 2, m1, k + 3, m2);
    assert(rel(m2, v.published(), t));
    let m3 = lemma_call_raw(s, k + 3, id, m2, v.published(), t);
    lemma_then(s, k, m, k + 3, m2, k + 6, m3);
    let m4 = lemma_sync_in(s, k + 6, m3, answered(s.f, s.w.host, v.published(), id, arg).0, t);
    lemma_then(s, k, m, k + 6, m3, k + 8, m4);
    assert(rel(m4, ran.v, t));
    assert(s.at(k + 8, mid));
    let m5 = straight(s, k + 8, mid, 1, m4);
    assert(value & value == value) by (bit_vector);
    lemma_then(s, k, m, k + 8, m4, k + 9, m5);
    machine::lemma_at_line(s.p, k + 8, mid, 1);
    let tail = seq![Item::Bind(l)];
    assert(template::exit(s.f, idx + 1).len() == 2) by {
        reveal(template::exit);
    }
    assert(s.at(k + 12, tail));
    machine::lemma_at_line(s.p, k + 12, tail, 0);
    assert(s.at(k + 10, template::exit(s.f, idx + 1)));
    if machine::negative(value) {
        machine::lemma_jcc_past(s.w, s.p, k + 9, m5);
        lemma_then(s, k, m, k + 9, m5, k + 10, m5);
        let m6 = lemma_exit(s, k + 10, idx + 1, m5, ran.v, t);
        lemma_then(s, k, m, k + 10, m5, s.epilogue(), m6);
        (s.epilogue(), m6)
    } else {
        machine::lemma_jcc(s.w, s.p, k + 9, m5, k + 12);
        lemma_then(s, k, m, k + 9, m5, k + 12, m5);
        machine::lemma_bind(s.w, s.p, k + 12, m5);
        lemma_then(s, k, m, k + 12, m5, k + 13, m5);
        (k + 13, m5)
    }
}

proof fn lemma_push(s: Setting, k: int, r: Reg, m: Machine, v: FrameState, t: Native) -> (m2: Machine)
    requires
        s.wf(),
        s.at(k, template::push(r)),
        rel(m, v, t),
    ensures
        template::push(r).len() == 2,
        s.goes(k, m, k + 2, m2),
        rel(m2, v.push(m.regs[r]), t),
{
    reveal(template::push);
    reveal_with_fuel(machine::exec_lines, 3);
    straight(s, k, template::push(r), 2, m)
}

proof fn lemma_pop(s: Setting, k: int, m: Machine, v: FrameState, t: Native) -> (m2: Machine)
    requires
        s.wf(),
        s.at(k, template::pop(Reg::Rax)),
        rel(m, v, t),
    ensures
        template::pop(Reg::Rax).len() == 2,
        s.goes(k, m, k + 2, m2),
        rel(m2, v.shrink(), t),
        m2.regs[Reg::Rax] == v.shrink().freed(),
{
    reveal(template::pop);
    reveal_with_fuel(machine::exec_lines, 3);
    straight(s, k, template::pop(Reg::Rax), 2, m)
}

proof fn lemma_peek(s: Setting, k: int, m: Machine, v: FrameState, t: Native) -> (m2: Machine)
    requires
        s.wf(),
        s.at(k, template::peek(Reg::Rax)),
        rel(m, v, t),
    ensures
        template::peek(Reg::Rax).len() == 1,
        s.goes(k, m, k + 1, m2),
        rel(m2, v, t),
        m2.regs[Reg::Rax] == v.peek(),
{
    reveal(template::peek);
    reveal_with_fuel(machine::exec_lines, 2);
    straight(s, k, template::peek(Reg::Rax), 1, m)
}

proof fn lemma_incref(s: Setting, k: int, m: Machine, v: FrameState, t: Native) -> (m2: Machine)
    requires
        s.wf(),
        s.at(k, template::incref(s.f, Reg::Rax)),
        rel(m, v, t),
    ensures
        template::incref(s.f, Reg::Rax).len() == 1,
        s.goes(k, m, k + 1, m2),
        rel(m2, meaning::retain(s.f, v, m.regs[Reg::Rax]), t),
        m2.regs == m.regs,
{
    reveal(template::incref);
    reveal_with_fuel(machine::exec_lines, 2);
    straight(s, k, template::incref(s.f, Reg::Rax), 1, m)
}

/// Calls the helper that drops the object in `rax`.
proof fn lemma_drop(s: Setting, k: int, m: Machine, v: FrameState, t: Native) -> (m2: Machine)
    requires
        s.wf(),
        s.at(k, template::call_with_reg_arg(s.f, HelperId::Drop, Reg::Rax)),
        rel(m, v, t),
        fits(s, t),
    ensures
        template::call_with_reg_arg(s.f, HelperId::Drop, Reg::Rax).len() == 8,
        s.goes(k, m, k + 8, m2),
        rel(
            m2,
            meaning::host_call(s.f, s.w.host, v, HelperId::Drop, m.regs[Reg::Rax]).0,
            t,
        ),
{
    broadcast use machine::lemma_at_add;

    reveal(template::call_with_reg_arg);
    reveal_with_fuel(machine::exec_lines, 2);
    let arg = m.regs[Reg::Rax];
    let load = seq![Item::Op(Insn::MovRR { dst: s.f.abi.second_arg(), src: Reg::Rax })];
    let m1 = lemma_sync_out(s, k, m, v, t);
    assert(s.at(k + 2, load));
    let m2 = straight(s, k + 2, load, 1, m1);
    lemma_then(s, k, m, k + 2, m1, k + 3, m2);
    let m3 = lemma_call_raw(s, k + 3, HelperId::Drop, m2, v.published(), t);
    lemma_then(s, k, m, k + 3, m2, k + 6, m3);
    let after = answered(s.f, s.w.host, v.published(), HelperId::Drop, arg).0;
    let m4 = lemma_sync_in(s, k + 6, m3, after, t);
    lemma_then(s, k, m, k + 6, m3, k + 8, m4);
    m4
}

proof fn lemma_count_bits(count: u64)
    ensures
        (count >> 61u64) & 1u64 == (if meaning::leaked(count) {
            1u64
        } else {
            0
        }),
        (count << 3u64) >> 3u64 == meaning::owners(count),
{
    assert((count >> 61u64) & 1u64 == count / 0x2000_0000_0000_0000 % 2) by (bit_vector);
    assert((count << 3u64) >> 3u64 == count % 0x2000_0000_0000_0000) by (bit_vector);
}

#[verifier::spinoff_prover]
#[verifier::rlimit(40)]
proof fn lemma_decref_rax(s: Setting, k: int, l: nat, m: Machine, v: FrameState, t: Native) -> (m2: Machine)
    requires
        s.wf(),
        s.at(k, template::decref_rax(s.f, l)),
        rel(m, v, t),
        fits(s, t),
    ensures
        s.goes(k, m, k + template::decref_rax(s.f, l).len(), m2),
        rel(m2, meaning::release(s.f, s.w.host, v, m.regs[Reg::Rax]), t),
{
    broadcast use machine::lemma_at_add;

    reveal(template::decref_rax);
    let obj = m.regs[Reg::Rax];
    let a = meaning::count_at(s.f, obj);
    let count = v.mem[a];
    let less = v.store(a, machine::wrap(count - 1));
    let head = seq![
        Item::Op(Insn::MovRI { dst: Reg::Rdx, imm: u64::MAX }),
        Item::Op(Insn::LockXadd { base: Reg::Rax, disp: s.f.refcount_offset, src: Reg::Rdx }),
        Item::Op(Insn::MovRR { dst: Reg::Rcx, src: Reg::Rdx }),
        Item::Op(Insn::ShiftRI { op: Shift::Shr, dst: Reg::Rcx, imm: LEAKED_SHIFT }),
        Item::Op(Insn::AluRI { op: Alu::And, dst: Reg::Rcx, imm: 1 }),
        Item::Jcc(Cond::NE, l),
        Item::Op(Insn::ShiftRI { op: Shift::Shl, dst: Reg::Rdx, imm: FLAG_BITS }),
        Item::Op(Insn::ShiftRI { op: Shift::Shr, dst: Reg::Rdx, imm: FLAG_BITS }),
        Item::Op(Insn::AluRI { op: Alu::Cmp, dst: Reg::Rdx, imm: 1 }),
        Item::Jcc(Cond::NE, l),
    ];
    let call = template::call_with_reg_arg(s.f, HelperId::Drop, Reg::Rax);
    let tail = seq![Item::Bind(l)];
    let end = k + 10 + call.len();
    assert(s.at(k, head));
    assert(s.at(end, tail));
    machine::lemma_at_line(s.p, end, tail, 0);
    machine::lemma_at_line(s.p, k, head, 5);
    lemma_count_bits(count);
    reveal_with_fuel(machine::exec_lines, 6);
    let m1 = straight(s, k, head, 5, m);
    assert(m1.mem == less.mem);
    assert(rel(m1, less, t));
    assert(m1.zero == !meaning::leaked(count));
    let m5 = if meaning::leaked(count) {
        machine::lemma_jcc(s.w, s.p, k + 5, m1, end);
        lemma_then(s, k, m, k + 5, m1, end, m1);
        m1
    } else {
        machine::lemma_jcc_past(s.w, s.p, k + 5, m1);
        lemma_then(s, k, m, k + 5, m1, k + 6, m1);
        lemma_after_leak_test(s, k, l, head, count, obj, m, m1, less, t)
    };
    machine::lemma_bind(s.w, s.p, end, m5);
    lemma_then(s, k, m, end, m5, end + 1, m5);
    m5
}

/// The part of a release behind the test of the leak flag.
proof fn lemma_after_leak_test(
    s: Setting,
    k: int,
    l: nat,
    head: Seq<Item>,
    count: u64,
    obj: u64,
    m: Machine,
    m1: Machine,
    less: FrameState,
    t: Native,
) -> (m5: Machine)
    requires
        s.wf(),
        head.len() == 10,
        s.at(k, head),
        head[6] == Item::Op(Insn::ShiftRI { op: Shift::Shl, dst: Reg::Rdx, imm: FLAG_BITS }),
        head[7] == Item::Op(Insn::ShiftRI { op: Shift::Shr, dst: Reg::Rdx, imm: FLAG_BITS }),
        head[8] == Item::Op(Insn::AluRI { op: Alu::Cmp, dst: Reg::Rdx, imm: 1 }),
        head[9] == Item::Jcc(Cond::NE, l),
        s.at(k + 10, template::call_with_reg_arg(s.f, HelperId::Drop, Reg::Rax)),
        s.at(
            k + 10 + template::call_with_reg_arg(s.f, HelperId::Drop, Reg::Rax).len(),
            seq![Item::Bind(l)],
        ),
        s.goes(k, m, k + 6, m1),
        rel(m1, less, t),
        m1.regs[Reg::Rdx] == count,
        m1.regs[Reg::Rax] == obj,
        fits(s, t),
    ensures
        s.goes(
            k,
            m,
            k + 10 + template::call_with_reg_arg(s.f, HelperId::Drop, Reg::Rax).len(),
            m5,
        ),
        rel(
            m5,
            if meaning::owners(count) == 1 {
                meaning::host_call(s.f, s.w.host, less, HelperId::Drop, obj).0
            } else {
                less
            },
            t,
        ),
{
    let end = k + 10 + template::call_with_reg_arg(s.f, HelperId::Drop, Reg::Rax).len();
    let tail = seq![Item::Bind(l)];
    machine::lemma_at_line(s.p, end, tail, 0);
    lemma_count_bits(count);
    machine::lemma_at_line(s.p, k, head, 6);
    machine::lemma_at_line(s.p, k, head, 7);
    machine::lemma_at_line(s.p, k, head, 8);
    machine::lemma_at_line(s.p, k, head, 9);
    let up = count << 3u64;
    let down = up >> 3u64;
    let m2 = m1.set(Reg::Rdx, up).flags(up);
    machine::lemma_op(
        s.w,
        s.p,
        k + 6,
        m1,
        Insn::ShiftRI { op: Shift::Shl, dst: Reg::Rdx, imm: FLAG_BITS },
        m2,
    );
    lemma_then(s, k, m, k + 6, m1, k + 7, m2);
    let m3 = m2.set(Reg::Rdx, down).flags(down);
    machine::lemma_op(
        s.w,
        s.p,
        k + 7,
        m2,
        Insn::ShiftRI { op: Shift::Shr, dst: Reg::Rdx, imm: FLAG_BITS },
        m3,
    );
    lemma_then(s, k, m, k + 7, m2, k + 8, m3);
    let m4 = m3.flags(machine::wrap(down - 1));
    machine::lemma_op(
        s.w,
        s.p,
        k + 8,
        m3,
        Insn::AluRI { op: Alu::Cmp, dst: Reg::Rdx, imm: 1 },
        m4,
    );
    lemma_then(s, k, m, k + 8, m3, k + 9, m4);
    assert(rel(m4, less, t));
    if meaning::owners(count) == 1 {
        machine::lemma_jcc_past(s.w, s.p, k + 9, m4);
        lemma_then(s, k, m, k + 9, m4, k + 10, m4);
        let m5 = lemma_drop(s, k + 10, m4, less, t);
        lemma_then(s, k, m, k + 10, m4, end, m5);
        m5
    } else {
        machine::lemma_jcc(s.w, s.p, k + 9, m4, end);
        lemma_then(s, k, m, k + 9, m4, end, m4);
        m4
    }
}

proof fn lemma_tag_bits(x: u64)
    ensures
        x & 1u64 == x % 2,
        x & 0xFFFF_FFFF_FFFF_FFFEu64 == meaning::object(x),
        x & x == x,
        machine::extended(UNTAG) == 0xFFFF_FFFF_FFFF_FFFEu64,
        machine::extended(1) == 1,
{
    assert(x & 1u64 == x % 2) by (bit_vector);
    assert(x & 0xFFFF_FFFF_FFFF_FFFEu64 == x - x % 2) by (bit_vector);
    assert(x & x == x) by (bit_vector);
}

proof fn lemma_discard_rax(s: Setting, k: int, l: nat, m: Machine, v: FrameState, t: Native) -> (m2:
    Machine)
    requires
        s.wf(),
        s.at(k, template::discard_rax(s.f, l)),
        rel(m, v, t),
        fits(s, t),
    ensures
        s.goes(k, m, k + template::discard_rax(s.f, l).len(), m2),
        rel(m2, meaning::discard(s.f, s.w.host, v, m.regs[Reg::Rax]), t),
{
    broadcast use machine::lemma_at_add;

    reveal(template::discard_rax);
    let x = m.regs[Reg::Rax];
    let head = seq![
        Item::Op(Insn::MovRR { dst: Reg::Rcx, src: Reg::Rax }),
        Item::Op(Insn::AluRI { op: Alu::And, dst: Reg::Rcx, imm: 1 }),
        Item::Jcc(Cond::NE, l),
        Item::Op(Insn::TestRR { a: Reg::Rax, b: Reg::Rax }),
        Item::Jcc(Cond::E, l),
    ];
    let inner = template::decref_rax(s.f, l + 1);
    let tail = seq![Item::Bind(l)];
    let end = k + 5 + inner.len();
    assert(s.at(k, head));
    assert(s.at(end, tail));
    machine::lemma_at_line(s.p, end, tail, 0);
    machine::lemma_at_line(s.p, k, head, 2);
    machine::lemma_at_line(s.p, k, head, 3);
    machine::lemma_at_line(s.p, k, head, 4);
    lemma_tag_bits(x);
    reveal_with_fuel(machine::exec_lines, 3);
    let m1 = straight(s, k, head, 2, m);
    assert(rel(m1, v, t));
    let m4 = if meaning::borrowed(x) {
        machine::lemma_jcc(s.w, s.p, k + 2, m1, end);
        lemma_then(s, k, m, k + 2, m1, end, m1);
        m1
    } else {
        machine::lemma_jcc_past(s.w, s.p, k + 2, m1);
        lemma_then(s, k, m, k + 2, m1, k + 3, m1);
        let m2 = m1.flags(x);
        machine::lemma_op(
            s.w,
            s.p,
            k + 3,
            m1,
            Insn::TestRR { a: Reg::Rax, b: Reg::Rax },
            m2,
        );
        lemma_then(s, k, m, k + 3, m1, k + 4, m2);
        if x == 0 {
            machine::lemma_jcc(s.w, s.p, k + 4, m2, end);
            lemma_then(s, k, m, k + 4, m2, end, m2);
            m2
        } else {
            machine::lemma_jcc_past(s.w, s.p, k + 4, m2);
            lemma_then(s, k, m, k + 4, m2, k + 5, m2);
            let m3 = lemma_decref_rax(s, k + 5, l + 1, m2, v, t);
            lemma_then(s, k, m, k + 5, m2, end, m3);
            m3
        }
    };
    machine::lemma_bind(s.w, s.p, end, m4);
    lemma_then(s, k, m, end, m4, end + 1, m4);
    m4
}

proof fn lemma_promote_rax(s: Setting, k: int, l: nat, m: Machine, v: FrameState, t: Native) -> (m2:
    Machine)
    requires
        s.wf(),
        s.at(k, template::promote_rax(s.f, l)),
        rel(m, v, t),
    ensures
        s.goes(k, m, k + template::promote_rax(s.f, l).len(), m2),
        rel(m2, meaning::promote(s.f, v, m.regs[Reg::Rax]), t),
        m2.regs[Reg::Rax] == meaning::object(m.regs[Reg::Rax]),
{
    broadcast use machine::lemma_at_add;

    reveal(template::promote_rax);
    let x = m.regs[Reg::Rax];
    let head = seq![
        Item::Op(Insn::MovRR { dst: Reg::Rcx, src: Reg::Rax }),
        Item::Op(Insn::AluRI { op: Alu::And, dst: Reg::Rcx, imm: 1 }),
        Item::Jcc(Cond::E, l),
        Item::Op(Insn::AluRI { op: Alu::And, dst: Reg::Rax, imm: UNTAG }),
    ];
    let inner = template::incref(s.f, Reg::Rax);
    let tail = seq![Item::Bind(l)];
    let end = k + 4 + inner.len();
    assert(s.at(k, head));
    assert(s.at(end, tail));
    machine::lemma_at_line(s.p, end, tail, 0);
    machine::lemma_at_line(s.p, k, head, 2);
    machine::lemma_at_line(s.p, k, head, 3);
    lemma_tag_bits(x);
    reveal_with_fuel(machine::exec_lines, 3);
    let m1 = straight(s, k, head, 2, m);
    assert(rel(m1, v, t));
    let m4 = if !meaning::borrowed(x) {
        machine::lemma_jcc(s.w, s.p, k + 2, m1, end);
        lemma_then(s, k, m, k + 2, m1, end, m1);
        m1
    } else {
        machine::lemma_jcc_past(s.w, s.p, k + 2, m1);
        lemma_then(s, k, m, k + 2, m1, k + 3, m1);
        let y = meaning::object(x);
        let m2 = m1.set(Reg::Rax, y).flags(y);
        machine::lemma_op(
            s.w,
            s.p,
            k + 3,
            m1,
            Insn::AluRI { op: Alu::And, dst: Reg::Rax, imm: UNTAG },
            m2,
        );
        lemma_then(s, k, m, k + 3, m1, k + 4, m2);
        let m3 = lemma_incref(s, k + 4, m2, v, t);
        lemma_then(s, k, m, k + 4, m2, end, m3);
        m3
    };
    machine::lemma_bind(s.w, s.p, end, m4);
    lemma_then(s, k, m, end, m4, end + 1, m4);
    m4
}

proof fn lemma_load_fast(
    s: Setting,
    k: int,
    var: u32,
    idx: int,
    l: nat,
    m: Machine,
    v: FrameState,
    t: Native,
) -> (r: (int, Machine))
    requires
        s.wf(),
        s.at(k, template::load_fast(s.f, var, idx, l)),
        template::local_fits(var),
        rel(m, v, t),
        fits(s, t),
    ensures
        s.goes(k, m, r.0, r.1),
        lands(
            s,
            k + template::load_fast(s.f, var, idx, l).len(),
            meaning::load_fast(s.f, s.w.host, v, var, idx),
            t,
            r.0,
            r.1,
        ),
{
    broadcast use machine::lemma_at_add;

    reveal(template::load_fast);
    let x = v.mem[v.local(var)];
    let head = seq![
        Item::Op(
            Insn::MovRM {
                dst: Reg::Rax,
                base: LOCALS,
                disp: template::local_disp(var) as i32,
            },
        ),
        Item::Op(Insn::TestRR { a: Reg::Rax, b: Reg::Rax }),
        Item::Jcc(Cond::E, l),
    ];
    let inc = template::incref(s.f, Reg::Rax);
    let push = template::push(Reg::Rax);
    let mid = seq![Item::Jmp(l + 1), Item::Bind(l)];
    let call = template::call(s.f, HelperId::LoadFast, var as u64, idx, l + 2);
    let tail = seq![Item::Bind(l + 1)];
    let a = k + 3 + inc.len() + push.len();
    let end = a + 2 + call.len();
    assert(s.at(k, head));
    assert(s.at(k + 3, inc));
    assert(s.at(k + 3 + inc.len(), push));
    assert(s.at(a, mid));
    assert(s.at(a + 2, call));
    assert(s.at(end, tail));
    machine::lemma_at_line(s.p, end, tail, 0);
    machine::lemma_at_line(s.p, a, mid, 0);
    machine::lemma_at_line(s.p, a, mid, 1);
    machine::lemma_at_line(s.p, k, head, 2);
    lemma_tag_bits(x);
    reveal_with_fuel(machine::exec_lines, 3);
    let m1 = straight(s, k, head, 2, m);
    assert(rel(m1, v, t));
    if x == 0 {
        machine::lemma_jcc(s.w, s.p, k + 2, m1, a + 1);
        lemma_then(s, k, m, k + 2, m1, a + 1, m1);
        machine::lemma_bind(s.w, s.p, a + 1, m1);
        lemma_then(s, k, m, a + 1, m1, a + 2, m1);
        let (k2, m2) = lemma_call(
            s,
            a + 2,
            HelperId::LoadFast,
            var as u64,
            idx,
            l + 2,
            m1,
            v,
            t,
        );
        lemma_then(s, k, m, a + 2, m1, k2, m2);
        let ran = meaning::help(s.f, s.w.host, v, HelperId::LoadFast, var as u64, idx).0;
        match ran.flow {
            Flow::Next => {
                machine::lemma_bind(s.w, s.p, end, m2);
                lemma_then(s, k, m, end, m2, end + 1, m2);
                (end + 1, m2)
            },
            _ => (k2, m2),
        }
    } else {
        machine::lemma_jcc_past(s.w, s.p, k + 2, m1);
        lemma_then(s, k, m, k + 2, m1, k + 3, m1);
        let m2 = lemma_incref(s, k + 3, m1, v, t);
        lemma_then(s, k, m, k + 3, m1, k + 4, m2);
        let m3 = lemma_push(s, k + 4, Reg::Rax, m2, meaning::retain(s.f, v, x), t);
        lemma_then(s, k, m, k + 4, m2, a, m3);
        machine::lemma_jmp(s.w, s.p, a, m3, end);
        lemma_then(s, k, m, a, m3, end, m3);
        machine::lemma_bind(s.w, s.p, end, m3);
        lemma_then(s, k, m, end, m3, end + 1, m3);
        (end + 1, m3)
    }
}

proof fn lemma_store_fast(s: Setting, k: int, var: u32, l: nat, m: Machine, v: FrameState, t: Native) -> (
    m2: Machine)
    requires
        s.wf(),
        s.at(k, template::store_fast(s.f, var, l)),
        template::local_fits(var),
        rel(m, v, t),
        fits(s, t),
    ensures
        s.goes(k, m, k + template::store_fast(s.f, var, l).len(), m2),
        rel(m2, meaning::store_fast(s.f, s.w.host, v, var), t),
{
    broadcast use machine::lemma_at_add;

    reveal(template::store_fast);
    let pop = template::pop(Reg::Rax);
    let promote = template::promote_rax(s.f, l + 1);
    let mid = seq![
        Item::Op(
            Insn::MovRM {
                dst: Reg::Rcx,
                base: LOCALS,
                disp: template::local_disp(var) as i32,
            },
        ),
        Item::Op(
            Insn::MovMR {
                base: LOCALS,
                disp: template::local_disp(var) as i32,
                src: Reg::Rax,
            },
        ),
        Item::Op(Insn::MovRR { dst: Reg::Rax, src: Reg::Rcx }),
        Item::Op(Insn::TestRR { a: Reg::Rax, b: Reg::Rax }),
        Item::Jcc(Cond::E, l),
    ];
    let decref = template::decref_rax(s.f, l + 2);
    let tail = seq![Item::Bind(l)];
    let a = k + pop.len() + promote.len();
    let end = a + 5 + decref.len();
    assert(s.at(k, pop));
    assert(s.at(k + pop.len(), promote));
    assert(s.at(a, mid));
    assert(s.at(a + 5, decref));
    assert(s.at(end, tail));
    machine::lemma_at_line(s.p, end, tail, 0);
    machine::lemma_at_line(s.p, a, mid, 4);
    let shrunk = v.shrink();
    let x = shrunk.freed();
    let m1 = lemma_pop(s, k, m, v, t);
    let m2 = lemma_promote_rax(s, k + 2, l + 1, m1, shrunk, t);
    lemma_then(s, k, m, k + 2, m1, a, m2);
    let owned = meaning::promote(s.f, shrunk, x);
    let old = owned.mem[owned.local(var)];
    let stored = owned.store(owned.local(var), meaning::object(x));
    lemma_tag_bits(old);
    reveal_with_fuel(machine::exec_lines, 5);
    let m3 = straight(s, a, mid, 4, m2);
    lemma_then(s, k, m, a, m2, a + 4, m3);
    assert(rel(m3, stored, t));
    let m5 = if old == 0 {
        machine::lemma_jcc(s.w, s.p, a + 4, m3, end);
        lemma_then(s, k, m, a + 4, m3, end, m3);
        m3
    } else {
        machine::lemma_jcc_past(s.w, s.p, a + 4, m3);
        lemma_then(s, k, m, a + 4, m3, a + 5, m3);
        let m4 = lemma_decref_rax(s, a + 5, l + 2, m3, stored, t);
        lemma_then(s, k, m, a + 5, m3, end, m4);
        m4
    };
    machine::lemma_bind(s.w, s.p, end, m5);
    lemma_then(s, k, m, end, m5, end + 1, m5);
    m5
}

proof fn lemma_pop_top(s: Setting, k: int, l: nat, m: Machine, v: FrameState, t: Native) -> (m2: Machine)
    requires
        s.wf(),
        s.at(k, template::pop_top(s.f, l)),
        rel(m, v, t),
        fits(s, t),
    ensures
        s.goes(k, m, k + template::pop_top(s.f, l).len(), m2),
        rel(m2, meaning::pop_top(s.f, s.w.host, v), t),
{
    broadcast use machine::lemma_at_add;

    reveal(template::pop_top);
    let m1 = lemma_pop(s, k, m, v, t);
    let m2 = lemma_discard_rax(s, k + 2, l, m1, v.shrink(), t);
    lemma_then(s, k, m, k + 2, m1, k + template::pop_top(s.f, l).len(), m2);
    m2
}

proof fn lemma_drop_top(s: Setting, k: int, l: nat, m: Machine, v: FrameState, t: Native) -> (m2: Machine)
    requires
        s.wf(),
        s.at(k, template::drop_top(s.f, l)),
        rel(m, v, t),
        fits(s, t),
    ensures
        s.goes(k, m, k + template::drop_top(s.f, l).len(), m2),
        rel(m2, meaning::discard(s.f, s.w.host, v.shrink(), m.regs[Reg::Rax]), t),
{
    broadcast use machine::lemma_at_add;

    reveal(template::drop_top);
    let head = seq![Item::Op(Insn::AluRI { op: Alu::Sub, dst: TOP, imm: 1 })];
    assert(s.at(k, head));
    reveal_with_fuel(machine::exec_lines, 2);
    let m1 = straight(s, k, head, 1, m);
    assert(rel(m1, v.shrink(), t));
    let m2 = lemma_discard_rax(s, k + 1, l, m1, v.shrink(), t);
    lemma_then(s, k, m, k + 1, m1, k + template::drop_top(s.f, l).len(), m2);
    m2
}

proof fn lemma_push_bool(s: Setting, k: int, l: nat, m: Machine, v: FrameState, t: Native) -> (m2: Machine)
    requires
        s.wf(),
        s.at(k, template::push_bool_from_scratch(s.f, l)),
        rel(m, v, t),
    ensures
        s.goes(k, m, k + template::push_bool_from_scratch(s.f, l).len(), m2),
        rel(m2, v.push(meaning::singleton(s.f, t.scratch == 1)), t),
{
    broadcast use machine::lemma_at_add;

    reveal(template::push_bool_from_scratch);
    let head = seq![
        Item::Op(Insn::AluRI { op: Alu::Cmp, dst: SCRATCH, imm: 1 }),
        Item::Jcc(Cond::E, l),
        Item::Op(Insn::MovRI { dst: Reg::Rax, imm: s.f.false_ptr | BORROW_TAG }),
    ];
    let push = template::push(Reg::Rax);
    let mid = seq![
        Item::Jmp(l + 1),
        Item::Bind(l),
        Item::Op(Insn::MovRI { dst: Reg::Rax, imm: s.f.true_ptr | BORROW_TAG }),
    ];
    let tail = seq![Item::Bind(l + 1)];
    let a = k + 3 + push.len();
    let end = a + 3 + push.len();
    assert(s.at(k, head));
    assert(s.at(k + 3, push));
    assert(s.at(a, mid));
    assert(s.at(a + 3, push));
    assert(s.at(end, tail));
    machine::lemma_at_line(s.p, end, tail, 0);
    machine::lemma_at_line(s.p, a, mid, 0);
    machine::lemma_at_line(s.p, a, mid, 1);
    machine::lemma_at_line(s.p, a, mid, 2);
    machine::lemma_at_line(s.p, k, head, 1);
    machine::lemma_at_line(s.p, k, head, 2);
    reveal_with_fuel(machine::exec_lines, 2);
    let m1 = straight(s, k, head, 1, m);
    assert(rel(m1, v, t));
    let m4 = if t.scratch == 1 {
        machine::lemma_jcc(s.w, s.p, k + 1, m1, a + 1);
        lemma_then(s, k, m, k + 1, m1, a + 1, m1);
        machine::lemma_bind(s.w, s.p, a + 1, m1);
        lemma_then(s, k, m, a + 1, m1, a + 2, m1);
        let imm = s.f.true_ptr | BORROW_TAG;
        let m2 = m1.set(Reg::Rax, imm);
        machine::lemma_op(s.w, s.p, a + 2, m1, Insn::MovRI { dst: Reg::Rax, imm }, m2);
        lemma_then(s, k, m, a + 2, m1, a + 3, m2);
        let m3 = lemma_push(s, a + 3, Reg::Rax, m2, v, t);
        lemma_then(s, k, m, a + 3, m2, end, m3);
        m3
    } else {
        machine::lemma_jcc_past(s.w, s.p, k + 1, m1);
        lemma_then(s, k, m, k + 1, m1, k + 2, m1);
        let imm = s.f.false_ptr | BORROW_TAG;
        let m2 = m1.set(Reg::Rax, imm);
        machine::lemma_op(s.w, s.p, k + 2, m1, Insn::MovRI { dst: Reg::Rax, imm }, m2);
        lemma_then(s, k, m, k + 2, m1, k + 3, m2);
        let m3 = lemma_push(s, k + 3, Reg::Rax, m2, v, t);
        lemma_then(s, k, m, k + 3, m2, a, m3);
        machine::lemma_jmp(s.w, s.p, a, m3, end);
        lemma_then(s, k, m, a, m3, end, m3);
        m3
    };
    machine::lemma_bind(s.w, s.p, end, m4);
    lemma_then(s, k, m, end, m4, end + 1, m4);
    m4
}

proof fn lemma_jump(s: Setting, k: int, target: int, m: Machine, v: FrameState, t: Native) -> (r: (
    int,
    Machine,
))
    requires
        s.wf(),
        s.at(k, template::jump(s.f, target)),
        0 <= target,
        rel(m, v, t),
    ensures
        s.goes(k, m, r.0, r.1),
        forall|end: int| #[trigger]
            lands(s, end, meaning::towards(s.f, v, target), t, r.0, r.1),
{
    reveal(template::jump);
    if target < s.f.len {
        let lines = seq![Item::Jmp(target as nat)];
        machine::lemma_at_line(s.p, k, lines, 0);
        let to = s.line_of(target);
        machine::lemma_jmp(s.w, s.p, k, m, to);
        (to, m)
    } else {
        let m2 = lemma_exit(s, k, target, m, v, t);
        (s.epilogue(), m2)
    }
}

/// A conditional jump to a unit.
proof fn lemma_branch_to(
    s: Setting,
    k: int,
    cond: Cond,
    target: int,
    l: nat,
    m: Machine,
    v: FrameState,
    t: Native,
    taken: bool,
) -> (r: (int, Machine))
    requires
        s.wf(),
        s.at(k, template::branch_to(s.f, cond, target, l)),
        0 <= target,
        cond == Cond::E || cond == Cond::NE,
        machine::holds(cond, m) == Some(taken),
        rel(m, v, t),
    ensures
        s.goes(k, m, r.0, r.1),
        taken ==> forall|end: int| #[trigger]
            lands(s, end, meaning::towards(s.f, v, target), t, r.0, r.1),
        !taken ==> r.0 == k + template::branch_to(s.f, cond, target, l).len() && rel(r.1, v, t),
{
    broadcast use machine::lemma_at_add;

    reveal(template::branch_to);
    if target < s.f.len {
        let lines = seq![Item::Jcc(cond, target as nat)];
        machine::lemma_at_line(s.p, k, lines, 0);
        let to = s.line_of(target);
        if taken {
            machine::lemma_jcc(s.w, s.p, k, m, to);
            (to, m)
        } else {
            machine::lemma_jcc_past(s.w, s.p, k, m);
            (k + 1, m)
        }
    } else {
        let head = seq![Item::Jcc(template::flipped(cond), l)];
        let exit = template::exit(s.f, target);
        let tail = seq![Item::Bind(l)];
        let end = k + 1 + exit.len();
        assert(s.at(k, head));
        assert(s.at(k + 1, exit));
        assert(s.at(end, tail));
        machine::lemma_at_line(s.p, k, head, 0);
        machine::lemma_at_line(s.p, end, tail, 0);
        if taken {
            machine::lemma_jcc_past(s.w, s.p, k, m);
            let m2 = lemma_exit(s, k + 1, target, m, v, t);
            lemma_then(s, k, m, k + 1, m, s.epilogue(), m2);
            (s.epilogue(), m2)
        } else {
            machine::lemma_jcc(s.w, s.p, k, m, end);
            machine::lemma_bind(s.w, s.p, end, m);
            lemma_then(s, k, m, end, m, end + 1, m);
            (end + 1, m)
        }
    }
}

/// A branch on the comparison of a register with one.
proof fn lemma_branch_on(
    s: Setting,
    k: int,
    r: Reg,
    jump_on: bool,
    target: int,
    l: nat,
    m: Machine,
    v: FrameState,
    t: Native,
) -> (out: (int, Machine))
    requires
        s.wf(),
        s.at(k, seq![Item::Op(Insn::AluRI { op: Alu::Cmp, dst: r, imm: 1 })]),
        s.at(k + 1, template::branch_to(s.f, template::on(jump_on), target, l)),
        0 <= target,
        rel(m, v, t),
    ensures
        s.goes(k, m, out.0, out.1),
        (m.regs[r] == 1) == jump_on ==> forall|end: int| #[trigger]
            lands(s, end, meaning::towards(s.f, v, target), t, out.0, out.1),
        (m.regs[r] == 1) != jump_on ==> out.0 == k + 1 + template::branch_to(
            s.f,
            template::on(jump_on),
            target,
            l,
        ).len() && rel(out.1, v, t),
{
    let head = seq![Item::Op(Insn::AluRI { op: Alu::Cmp, dst: r, imm: 1 })];
    reveal_with_fuel(machine::exec_lines, 2);
    let m1 = straight(s, k, head, 1, m);
    assert(rel(m1, v, t));
    let taken = (m.regs[r] == 1) == jump_on;
    let (k2, m2) = lemma_branch_to(
        s,
        k + 1,
        template::on(jump_on),
        target,
        l,
        m1,
        v,
        t,
        taken,
    );
    lemma_then(s, k, m, k + 1, m1, k2, m2);
    (k2, m2)
}

proof fn lemma_branch_if(
    s: Setting,
    k: int,
    jump_on: bool,
    target: int,
    l: nat,
    m: Machine,
    v: FrameState,
    t: Native,
) -> (out: (int, Machine))
    requires
        s.wf(),
        s.at(k, template::branch_if(s.f, template::on(jump_on), target, l)),
        0 <= target,
        rel(m, v, t),
    ensures
        s.goes(k, m, out.0, out.1),
        lands(
            s,
            k + template::branch_if(s.f, template::on(jump_on), target, l).len(),
            meaning::branch(s.f, v, m.regs[Reg::Rax], jump_on, target),
            t,
            out.0,
            out.1,
        ),
{
    broadcast use machine::lemma_at_add;

    reveal(template::branch_if);
    lemma_branch_on(s, k, Reg::Rax, jump_on, target, l, m, v, t)
}

/// What a comparison does with a result that stands in the scratch register.
proof fn lemma_compare_result(
    s: Setting,
    k: int,
    fused: Option<Fused>,
    l: nat,
    m: Machine,
    v: FrameState,
    t: Native,
) -> (r: (int, Machine))
    requires
        s.wf(),
        s.at(k, template::compare_hit(s.f, fused, l)),
        fused matches Some(j) ==> 0 <= j.target,
        rel(m, v, t),
    ensures
        s.goes(k, m, r.0, r.1),
        match fused {
            Some(j) => if (t.scratch == 1) == j.jump_on {
                forall|end: int| #[trigger]
                    lands(s, end, meaning::towards(s.f, v, j.target), t, r.0, r.1)
            } else {
                r.0 == k + template::compare_hit(s.f, fused, l).len() && rel(r.1, v, t)
            },
            None => r.0 == k + template::compare_hit(s.f, fused, l).len() && rel(
                r.1,
                v.push(meaning::singleton(s.f, t.scratch == 1)),
                t,
            ),
        },
{
    broadcast use machine::lemma_at_add;

    reveal(template::compare_hit);
    match fused {
        Some(j) => lemma_branch_on(s, k, SCRATCH, j.jump_on, j.target, l, m, v, t),
        None => {
            let m2 = lemma_push_bool(s, k, l, m, v, t);
            (k + template::push_bool_from_scratch(s.f, l).len(), m2)
        },
    }
}

/// The jump is taken, unless the helper has left.
spec fn taken_or_left(f: Facts, truth: Ran, j: Fused) -> Ran {
    if truth.flow is Next {
        meaning::towards(f, truth.v, j.target)
    } else {
        truth
    }
}

/// What a comparison does after the generic helper.
proof fn lemma_compare_miss(
    s: Setting,
    k: int,
    fused: Option<Fused>,
    idx: int,
    l: nat,
    m: Machine,
    v: FrameState,
    t: Native,
) -> (r: (int, Machine))
    requires
        s.wf(),
        s.at(k, template::compare_miss(s.f, fused, idx, l)),
        fused matches Some(j) ==> 0 <= j.target,
        rel(m, v, t),
        fits(s, t),
    ensures
        s.goes(k, m, r.0, r.1),
        match fused {
            Some(j) => {
                let (truth, value) = meaning::help(s.f, s.w.host, v, HelperId::PopIsTrue, 0, idx);
                if truth.flow is Next && (value == 1) != j.jump_on {
                    r.0 == k + template::compare_miss(s.f, fused, idx, l).len() && rel(
                        r.1,
                        truth.v,
                        t,
                    )
                } else {
                    forall|end: int| #[trigger]
                        lands(
                            s,
                            end,
                            taken_or_left(s.f, truth, j),
                            t,
                            r.0,
                            r.1,
                        )
                }
            },
            None => r.0 == k + template::compare_miss(s.f, fused, idx, l).len() && rel(r.1, v, t),
        },
{
    broadcast use machine::lemma_at_add;

    reveal(template::compare_miss);
    match fused {
        Some(j) => {
            let call = template::call(s.f, HelperId::PopIsTrue, 0, idx, l);
            let jump = template::branch_if(s.f, template::on(j.jump_on), j.target, l + 1);
            assert(s.at(k, call));
            assert(s.at(k + call.len(), jump));
            let (truth, value) = meaning::help(s.f, s.w.host, v, HelperId::PopIsTrue, 0, idx);
            let (k1, m1) = lemma_call(s, k, HelperId::PopIsTrue, 0, idx, l, m, v, t);
            match truth.flow {
                Flow::Next => {
                    let (k2, m2) = lemma_branch_if(
                        s,
                        k1,
                        j.jump_on,
                        j.target,
                        l + 1,
                        m1,
                        truth.v,
                        t,
                    );
                    lemma_then(s, k, m, k1, m1, k2, m2);
                    (k2, m2)
                },
                _ => (k1, m1),
            }
        },
        None => {
            machine::lemma_goes_self(s.w, s.p, k, m);
            (k, m)
        },
    }
}

/// The end of a comparison: behind it, or at the unit behind the jump that was compiled with it.
proof fn lemma_compare_end(
    s: Setting,
    k: int,
    l: nat,
    fused: Option<Fused>,
    m: Machine,
    v: FrameState,
    t: Native,
) -> (r: (int, Machine))
    requires
        s.wf(),
        s.at(k, seq![Item::Bind(l)]),
        s.at(
            k + 1,
            match fused {
                Some(j) => template::jump(s.f, j.after),
                None => seq![],
            },
        ),
        fused matches Some(j) ==> 0 <= j.after,
        rel(m, v, t),
    ensures
        s.goes(k, m, r.0, r.1),
        match fused {
            Some(j) => forall|end: int| #[trigger]
                lands(s, end, meaning::towards(s.f, v, j.after), t, r.0, r.1),
            None => r.0 == k + 1 && rel(r.1, v, t),
        },
{
    let tail = seq![Item::Bind(l)];
    machine::lemma_at_line(s.p, k, tail, 0);
    machine::lemma_bind(s.w, s.p, k, m);
    match fused {
        Some(j) => {
            let (k2, m2) = lemma_jump(s, k + 1, j.after, m, v, t);
            lemma_then(s, k, m, k + 1, m, k2, m2);
            (k2, m2)
        },
        None => (k + 1, m),
    }
}

/// The lines of a comparison, in order.
struct ComparePlan {
    first: Seq<Item>,
    test: Seq<Item>,
    pop_a: Seq<Item>,
    pop_b: Seq<Item>,
    hit: Seq<Item>,
    mid: Seq<Item>,
    second: Seq<Item>,
    miss: Seq<Item>,
    tail: Seq<Item>,
    after: Seq<Item>,
}

spec fn compare_plan(f: Facts, arg: u32, idx: int, fused: Option<Fused>, l: nat) -> ComparePlan {
    let n = l + 7 + template::hit_labels(f, fused);
    ComparePlan {
        first: template::call(f, HelperId::CompareFast, arg as u64, idx, l + 2),
        test: seq![
            Item::Op(Insn::AluRI { op: Alu::Cmp, dst: Reg::Rax, imm: 2 }),
            Item::Jcc(Cond::E, l),
            Item::Op(Insn::MovRR { dst: SCRATCH, src: Reg::Rax }),
        ],
        pop_a: template::pop_top(f, l + 3),
        pop_b: template::pop_top(f, l + 5),
        hit: template::compare_hit(f, fused, l + 7),
        mid: seq![Item::Jmp(l + 1), Item::Bind(l)],
        second: template::call(f, HelperId::CompareOp, arg as u64, idx, n),
        miss: template::compare_miss(f, fused, idx, n + 1),
        tail: seq![Item::Bind(l + 1)],
        after: match fused {
            Some(j) => template::jump(f, j.after),
            None => seq![],
        },
    }
}

impl ComparePlan {
    spec fn test_at(self, k: int) -> int {
        k + self.first.len()
    }

    spec fn mid_at(self, k: int) -> int {
        k + self.first.len() + 3 + self.pop_a.len() + self.pop_b.len() + self.hit.len()
    }

    spec fn tail_at(self, k: int) -> int {
        self.mid_at(k) + 2 + self.second.len() + self.miss.len()
    }
}

proof fn lemma_compare_layout(
    s: Setting,
    k: int,
    arg: u32,
    idx: int,
    fused: Option<Fused>,
    l: nat,
)
    requires
        s.at(k, template::compare_op(s.f, arg, idx, fused, l)),
    ensures
        ({
            let c = compare_plan(s.f, arg, idx, fused, l);
            &&& s.at(k, c.first)
            &&& s.at(c.test_at(k), c.test)
            &&& s.at(c.test_at(k) + 3, c.pop_a)
            &&& s.at(c.test_at(k) + 3 + c.pop_a.len(), c.pop_b)
            &&& s.at(c.test_at(k) + 3 + c.pop_a.len() + c.pop_b.len(), c.hit)
            &&& s.at(c.mid_at(k), c.mid)
            &&& s.at(c.mid_at(k) + 2, c.second)
            &&& s.at(c.mid_at(k) + 2 + c.second.len(), c.miss)
            &&& s.at(c.tail_at(k), c.tail)
            &&& s.at(c.tail_at(k) + 1, c.after)
            &&& template::compare_op(s.f, arg, idx, fused, l).len() == c.tail_at(k) + 1
                + c.after.len() - k
        }),
{
    broadcast use machine::lemma_at_add;

    reveal(template::compare_op);
    let c = compare_plan(s.f, arg, idx, fused, l);
    assert(template::compare_op(s.f, arg, idx, fused, l) == c.first + c.test + c.pop_a + c.pop_b
        + c.hit + c.mid + c.second + c.miss + c.tail + c.after);
    assert(s.at(
        k,
        c.first + c.test + c.pop_a + c.pop_b + c.hit + c.mid + c.second + c.miss + c.tail + c.after,
    ));
}

/// A comparison whose fast helper has a result.
proof fn lemma_compare_hit(
    s: Setting,
    k: int,
    arg: u32,
    idx: int,
    fused: Option<Fused>,
    l: nat,
    m: Machine,
    m2: Machine,
    v: FrameState,
    t: Native,
    value: u64,
) -> (r: (int, Machine))
    requires
        s.wf(),
        s.at(k, template::compare_op(s.f, arg, idx, fused, l)),
        fused matches Some(j) ==> 0 <= j.target && 0 <= j.after,
        s.goes(k, m, compare_plan(s.f, arg, idx, fused, l).test_at(k) + 2, m2),
        rel(m2, v, t),
        m2.regs[Reg::Rax] == value,
        fits(s, t),
    ensures
        s.goes(k, m, r.0, r.1),
        lands(
            s,
            k + template::compare_op(s.f, arg, idx, fused, l).len(),
            meaning::compare_hit(s.f, s.w.host, v, value, fused),
            t.scratched(value),
            r.0,
            r.1,
        ),
{
    lemma_compare_layout(s, k, arg, idx, fused, l);
    let c = compare_plan(s.f, arg, idx, fused, l);
    let q = c.test_at(k);
    let t2 = t.scratched(value);
    machine::lemma_at_line(s.p, q, c.test, 2);
    let m3 = m2.set(SCRATCH, value);
    machine::lemma_op(
        s.w,
        s.p,
        q + 2,
        m2,
        Insn::MovRR { dst: SCRATCH, src: Reg::Rax },
        m3,
    );
    lemma_then(s, k, m, q + 2, m2, q + 3, m3);
    assert(rel(m3, v, t2));
    let m4 = lemma_pop_top(s, q + 3, l + 3, m3, v, t2);
    let q4 = q + 3 + c.pop_a.len();
    lemma_then(s, k, m, q + 3, m3, q4, m4);
    let v4 = meaning::pop_top(s.f, s.w.host, v);
    let m5 = lemma_pop_top(s, q4, l + 5, m4, v4, t2);
    let q5 = q4 + c.pop_b.len();
    lemma_then(s, k, m, q4, m4, q5, m5);
    let v5 = meaning::pop_top(s.f, s.w.host, v4);
    let (k6, m6) = lemma_compare_result(s, q5, fused, l + 7, m5, v5, t2);
    lemma_then(s, k, m, q5, m5, k6, m6);
    let v6 = match fused {
        Some(_) => v5,
        None => v5.push(meaning::singleton(s.f, value == 1)),
    };
    if fused matches Some(j) && (value == 1) == j.jump_on {
        assert(lands(
            s,
            k + template::compare_op(s.f, arg, idx, fused, l).len(),
            meaning::towards(s.f, v5, fused->0.target),
            t2,
            k6,
            m6,
        ));
        (k6, m6)
    } else {
        machine::lemma_at_line(s.p, c.mid_at(k), c.mid, 0);
        machine::lemma_at_line(s.p, c.tail_at(k), c.tail, 0);
        machine::lemma_jmp(s.w, s.p, c.mid_at(k), m6, c.tail_at(k));
        lemma_then(s, k, m, c.mid_at(k), m6, c.tail_at(k), m6);
        let (k7, m7) = lemma_compare_end(s, c.tail_at(k), l + 1, fused, m6, v6, t2);
        lemma_then(s, k, m, c.tail_at(k), m6, k7, m7);
        assert(fused matches Some(j) ==> lands(
            s,
            k + template::compare_op(s.f, arg, idx, fused, l).len(),
            meaning::towards(s.f, v5, j.after),
            t2,
            k7,
            m7,
        ));
        (k7, m7)
    }
}

/// A comparison whose fast helper has no result.
proof fn lemma_compare_slow(
    s: Setting,
    k: int,
    arg: u32,
    idx: int,
    fused: Option<Fused>,
    l: nat,
    m: Machine,
    m2: Machine,
    v: FrameState,
    t: Native,
) -> (r: (int, Machine))
    requires
        s.wf(),
        s.at(k, template::compare_op(s.f, arg, idx, fused, l)),
        fused matches Some(j) ==> 0 <= j.target && 0 <= j.after,
        s.goes(k, m, compare_plan(s.f, arg, idx, fused, l).test_at(k) + 1, m2),
        rel(m2, v, t),
        m2.zero,
        fits(s, t),
    ensures
        s.goes(k, m, r.0, r.1),
        lands(
            s,
            k + template::compare_op(s.f, arg, idx, fused, l).len(),
            meaning::compare_miss(s.f, s.w.host, v, arg, idx, fused),
            t,
            r.0,
            r.1,
        ),
{
    lemma_compare_layout(s, k, arg, idx, fused, l);
    let c = compare_plan(s.f, arg, idx, fused, l);
    let q = c.test_at(k);
    let n = l + 7 + template::hit_labels(s.f, fused);
    let a = c.mid_at(k);
    let end = k + template::compare_op(s.f, arg, idx, fused, l).len();
    machine::lemma_at_line(s.p, q, c.test, 1);
    machine::lemma_at_line(s.p, a, c.mid, 1);
    machine::lemma_jcc(s.w, s.p, q + 1, m2, a + 1);
    lemma_then(s, k, m, q + 1, m2, a + 1, m2);
    machine::lemma_bind(s.w, s.p, a + 1, m2);
    lemma_then(s, k, m, a + 1, m2, a + 2, m2);
    let ran = meaning::help(s.f, s.w.host, v, HelperId::CompareOp, arg as u64, idx).0;
    let (k3, m3) = lemma_call(s, a + 2, HelperId::CompareOp, arg as u64, idx, n, m2, v, t);
    lemma_then(s, k, m, a + 2, m2, k3, m3);
    match ran.flow {
        Flow::Next => {
            let (k4, m4) = lemma_compare_miss(s, k3, fused, idx, n + 1, m3, ran.v, t);
            lemma_then(s, k, m, k3, m3, k4, m4);
            let (truth, value) = meaning::help(
                s.f,
                s.w.host,
                ran.v,
                HelperId::PopIsTrue,
                0,
                idx,
            );
            let v4 = match fused {
                Some(_) => truth.v,
                None => ran.v,
            };
            if fused matches Some(j) && !(truth.flow is Next && (value == 1) != j.jump_on) {
                assert(lands(
                    s,
                    end,
                    taken_or_left(s.f, truth, fused->0),
                    t,
                    k4,
                    m4,
                ));
                (k4, m4)
            } else {
                let (k5, m5) = lemma_compare_end(s, c.tail_at(k), l + 1, fused, m4, v4, t);
                lemma_then(s, k, m, c.tail_at(k), m4, k5, m5);
                assert(fused matches Some(j) ==> lands(
                    s,
                    end,
                    meaning::towards(s.f, v4, j.after),
                    t,
                    k5,
                    m5,
                ));
                (k5, m5)
            }
        },
        _ => (k3, m3),
    }
}

#[verifier::spinoff_prover]
#[verifier::rlimit(60)]
proof fn lemma_compare_op(
    s: Setting,
    k: int,
    arg: u32,
    idx: int,
    fused: Option<Fused>,
    l: nat,
    m: Machine,
    v: FrameState,
    t: Native,
) -> (r: (int, Machine))
    requires
        s.wf(),
        s.at(k, template::compare_op(s.f, arg, idx, fused, l)),
        fused matches Some(j) ==> 0 <= j.target && 0 <= j.after,
        rel(m, v, t),
        fits(s, t),
    ensures
        s.goes(k, m, r.0, r.1),
        lands(
            s,
            k + template::compare_op(s.f, arg, idx, fused, l).len(),
            meaning::compare_op(s.f, s.w.host, v, arg, idx, fused),
            t.scratched(r.1.regs[SCRATCH]),
            r.0,
            r.1,
        ),
{
    lemma_compare_layout(s, k, arg, idx, fused, l);
    let c = compare_plan(s.f, arg, idx, fused, l);
    let q = c.test_at(k);
    let (ran, value) = meaning::help(s.f, s.w.host, v, HelperId::CompareFast, arg as u64, idx);
    let (k1, m1) = lemma_call(s, k, HelperId::CompareFast, arg as u64, idx, l + 2, m, v, t);
    match ran.flow {
        Flow::Next => {
            reveal_with_fuel(machine::exec_lines, 2);
            let m2 = straight(s, q, c.test, 1, m1);
            lemma_then(s, k, m, q, m1, q + 1, m2);
            assert(rel(m2, ran.v, t));
            if value == 2 {
                let (k3, m3) = lemma_compare_slow(s, k, arg, idx, fused, l, m, m2, ran.v, t);
                assert(t.scratched(m3.regs[SCRATCH]) == t);
                (k3, m3)
            } else {
                machine::lemma_at_line(s.p, q, c.test, 1);
                machine::lemma_jcc_past(s.w, s.p, q + 1, m2);
                lemma_then(s, k, m, q + 1, m2, q + 2, m2);
                let (k3, m3) = lemma_compare_hit(
                    s,
                    k,
                    arg,
                    idx,
                    fused,
                    l,
                    m,
                    m2,
                    ran.v,
                    t,
                    value,
                );
                assert(m3.regs[SCRATCH] == value);
                (k3, m3)
            }
        },
        _ => {
            assert(t.scratched(m1.regs[SCRATCH]) == t);
            (k1, m1)
        },
    }
}

proof fn lemma_eval_breaker(
    s: Setting,
    k: int,
    idx: int,
    l: nat,
    m: Machine,
    v: FrameState,
    t: Native,
) -> (r: (int, Machine))
    requires
        s.wf(),
        s.at(k, template::eval_breaker(s.f, idx, l)),
        rel(m, v, t),
        fits(s, t),
    ensures
        s.goes(k, m, r.0, r.1),
        lands(
            s,
            k + template::eval_breaker(s.f, idx, l).len(),
            meaning::eval_breaker(s.f, s.w.host, v, idx),
            t,
            r.0,
            r.1,
        ),
{
    broadcast use machine::lemma_at_add;

    reveal(template::eval_breaker);
    let head = seq![
        Item::Op(Insn::SubMI { base: CTX, disp: CTX_BREAKER, imm: 1 }),
        Item::Jcc(Cond::NE, l),
    ];
    let call = template::call(s.f, HelperId::EvalBreaker, 0, idx, l + 1);
    let tail = seq![
        Item::Op(Insn::MovMI32 { base: CTX, disp: CTX_BREAKER, imm: 64 }),
        Item::Bind(l),
    ];
    let a = k + 2 + call.len();
    assert(s.at(k, head));
    assert(s.at(k + 2, call));
    assert(s.at(a, tail));
    machine::lemma_at_line(s.p, k, head, 1);
    machine::lemma_at_line(s.p, a, tail, 1);
    let left = machine::wrap(v.mem[meaning::breaker(v)] - 1);
    let counted = v.store(meaning::breaker(v), left);
    reveal_with_fuel(machine::exec_lines, 2);
    let m1 = straight(s, k, head, 1, m);
    assert(rel(m1, counted, t));
    if left != 0 {
        machine::lemma_jcc(s.w, s.p, k + 1, m1, a + 1);
        lemma_then(s, k, m, k + 1, m1, a + 1, m1);
        machine::lemma_bind(s.w, s.p, a + 1, m1);
        lemma_then(s, k, m, a + 1, m1, a + 2, m1);
        (a + 2, m1)
    } else {
        machine::lemma_jcc_past(s.w, s.p, k + 1, m1);
        lemma_then(s, k, m, k + 1, m1, k + 2, m1);
        let ran = meaning::help(s.f, s.w.host, counted, HelperId::EvalBreaker, 0, idx).0;
        let (k2, m2) = lemma_call(
            s,
            k + 2,
            HelperId::EvalBreaker,
            0,
            idx,
            l + 1,
            m1,
            counted,
            t,
        );
        lemma_then(s, k, m, k + 2, m1, k2, m2);
        match ran.flow {
            Flow::Next => {
                let m3 = straight(s, a, tail, 1, m2);
                lemma_then(s, k, m, a, m2, a + 1, m3);
                assert(machine::extended(64) == 64);
                machine::lemma_bind(s.w, s.p, a + 1, m3);
                lemma_then(s, k, m, a + 1, m3, a + 2, m3);
                (a + 2, m3)
            },
            _ => (k2, m2),
        }
    }
}

proof fn lemma_binary_op_int(
    s: Setting,
    k: int,
    arg: u32,
    idx: int,
    l: nat,
    m: Machine,
    v: FrameState,
    t: Native,
) -> (r: (int, Machine))
    requires
        s.wf(),
        s.at(k, template::binary_op_int(s.f, arg, idx, l)),
        rel(m, v, t),
        fits(s, t),
    ensures
        s.goes(k, m, r.0, r.1),
        lands(
            s,
            k + template::binary_op_int(s.f, arg, idx, l).len(),
            meaning::binary_op_int(s.f, s.w.host, v, arg, idx),
            t,
            r.0,
            r.1,
        ),
{
    broadcast use machine::lemma_at_add;

    reveal(template::binary_op_int);
    let first = template::call(s.f, HelperId::BinaryOpIntFast, arg as u64, idx, l + 1);
    let mid = seq![
        Item::Op(Insn::AluRI { op: Alu::Cmp, dst: Reg::Rax, imm: 2 }),
        Item::Jcc(Cond::NE, l),
    ];
    let second = template::call(s.f, HelperId::BinaryOp, arg as u64, idx, l + 2);
    let tail = seq![Item::Bind(l)];
    let a = k + first.len();
    let end = a + 2 + second.len();
    assert(s.at(k, first));
    assert(s.at(a, mid));
    assert(s.at(a + 2, second));
    assert(s.at(end, tail));
    machine::lemma_at_line(s.p, a, mid, 1);
    machine::lemma_at_line(s.p, end, tail, 0);
    let (ran, value) = meaning::help(
        s.f,
        s.w.host,
        v,
        HelperId::BinaryOpIntFast,
        arg as u64,
        idx,
    );
    let (k1, m1) = lemma_call(s, k, HelperId::BinaryOpIntFast, arg as u64, idx, l + 1, m, v, t);
    match ran.flow {
        Flow::Next => {
            reveal_with_fuel(machine::exec_lines, 2);
            let m2 = straight(s, a, mid, 1, m1);
            lemma_then(s, k, m, a, m1, a + 1, m2);
            assert(rel(m2, ran.v, t));
            if value == 2 {
                machine::lemma_jcc_past(s.w, s.p, a + 1, m2);
                lemma_then(s, k, m, a + 1, m2, a + 2, m2);
                let (k3, m3) = lemma_call(
                    s,
                    a + 2,
                    HelperId::BinaryOp,
                    arg as u64,
                    idx,
                    l + 2,
                    m2,
                    ran.v,
                    t,
                );
                lemma_then(s, k, m, a + 2, m2, k3, m3);
                let slow = meaning::help(
                    s.f,
                    s.w.host,
                    ran.v,
                    HelperId::BinaryOp,
                    arg as u64,
                    idx,
                ).0;
                match slow.flow {
                    Flow::Next => {
                        machine::lemma_bind(s.w, s.p, end, m3);
                        lemma_then(s, k, m, end, m3, end + 1, m3);
                        (end + 1, m3)
                    },
                    _ => (k3, m3),
                }
            } else {
                machine::lemma_jcc(s.w, s.p, a + 1, m2, end);
                lemma_then(s, k, m, a + 1, m2, end, m2);
                machine::lemma_bind(s.w, s.p, end, m2);
                lemma_then(s, k, m, end, m2, end + 1, m2);
                (end + 1, m2)
            }
        },
        _ => (k1, m1),
    }
}

proof fn lemma_load_small_int(
    s: Setting,
    k: int,
    i: u32,
    idx: int,
    l: nat,
    m: Machine,
    v: FrameState,
    t: Native,
) -> (r: (int, Machine))
    requires
        s.wf(),
        s.at(k, template::load_small_int(s.f, i, idx, l)),
        rel(m, v, t),
        fits(s, t),
    ensures
        s.goes(k, m, r.0, r.1),
        lands(
            s,
            k + template::load_small_int(s.f, i, idx, l).len(),
            meaning::load_small_int(s.f, s.w.host, v, i, idx),
            t,
            r.0,
            r.1,
        ),
{
    broadcast use machine::lemma_at_add;

    reveal(template::load_small_int);
    match (s.f.small_int)(i as i32) {
        Some(ptr) => {
            let head = seq![Item::Op(Insn::MovRI { dst: Reg::Rax, imm: ptr | BORROW_TAG })];
            assert(s.at(k, head));
            reveal_with_fuel(machine::exec_lines, 2);
            let m1 = straight(s, k, head, 1, m);
            assert(rel(m1, v, t));
            let m2 = lemma_push(s, k + 1, Reg::Rax, m1, v, t);
            lemma_then(s, k, m, k + 1, m1, k + 3, m2);
            (k + 3, m2)
        },
        None => lemma_call(s, k, HelperId::LoadSmallInt, i as u64, idx, l, m, v, t),
    }
}

/// Finds out which bool singleton the topmost value is, if any.
#[verifier::spinoff_prover]
#[verifier::rlimit(40)]
proof fn lemma_test_bool(
    s: Setting,
    k: int,
    l: nat,
    is_true: int,
    is_false: int,
    slow: int,
    m: Machine,
    v: FrameState,
    t: Native,
) -> (r: (int, Machine))
    requires
        s.wf(),
        s.at(k, template::test_bool(s.f, l)),
        0 <= is_true < s.p.len() && s.p[is_true] == Item::Bind(l),
        0 <= is_false < s.p.len() && s.p[is_false] == Item::Bind(l + 1),
        0 <= slow < s.p.len() && s.p[slow] == Item::Bind(l + 2),
        rel(m, v, t),
    ensures
        s.goes(k, m, r.0, r.1),
        rel(r.1, v, t),
        r.1.regs[Reg::Rax] == v.peek(),
        r.0 == (if meaning::object(v.peek()) == s.f.true_ptr {
            is_true
        } else if meaning::object(v.peek()) == s.f.false_ptr {
            is_false
        } else {
            slow
        }),
{
    broadcast use machine::lemma_at_add;

    reveal(template::test_bool);
    let lines = seq![
        Item::Op(Insn::MovRR { dst: Reg::Rcx, src: Reg::Rax }),
        Item::Op(Insn::AluRI { op: Alu::And, dst: Reg::Rcx, imm: UNTAG }),
        Item::Op(Insn::MovRI { dst: Reg::Rdx, imm: s.f.true_ptr }),
        Item::Op(Insn::AluRR { op: Alu::Cmp, dst: Reg::Rcx, src: Reg::Rdx }),
        Item::Jcc(Cond::E, l),
        Item::Op(Insn::MovRI { dst: Reg::Rdx, imm: s.f.false_ptr }),
        Item::Op(Insn::AluRR { op: Alu::Cmp, dst: Reg::Rcx, src: Reg::Rdx }),
        Item::Jcc(Cond::E, l + 1),
        Item::Jmp(l + 2),
    ];
    let x = v.peek();
    let y = meaning::object(x);
    lemma_tag_bits(x);
    let m1 = lemma_peek(s, k, m, v, t);
    let q = k + 1;
    assert(s.at(q, lines));
    machine::lemma_at_line(s.p, q, lines, 4);
    machine::lemma_at_line(s.p, q, lines, 5);
    machine::lemma_at_line(s.p, q, lines, 6);
    machine::lemma_at_line(s.p, q, lines, 7);
    machine::lemma_at_line(s.p, q, lines, 8);
    reveal_with_fuel(machine::exec_lines, 5);
    let m2 = straight(s, q, lines, 4, m1);
    lemma_then(s, k, m, q, m1, q + 4, m2);
    assert(m2.regs[Reg::Rcx] == y);
    assert(m2.zero == (y == s.f.true_ptr));
    if y == s.f.true_ptr {
        machine::lemma_jcc(s.w, s.p, q + 4, m2, is_true);
        lemma_then(s, k, m, q + 4, m2, is_true, m2);
        (is_true, m2)
    } else {
        machine::lemma_jcc_past(s.w, s.p, q + 4, m2);
        lemma_then(s, k, m, q + 4, m2, q + 5, m2);
        let m3 = m2.set(Reg::Rdx, s.f.false_ptr);
        machine::lemma_op(
            s.w,
            s.p,
            q + 5,
            m2,
            Insn::MovRI { dst: Reg::Rdx, imm: s.f.false_ptr },
            m3,
        );
        lemma_then(s, k, m, q + 5, m2, q + 6, m3);
        let m4 = m3.flags(machine::wrap(y - s.f.false_ptr));
        machine::lemma_op(
            s.w,
            s.p,
            q + 6,
            m3,
            Insn::AluRR { op: Alu::Cmp, dst: Reg::Rcx, src: Reg::Rdx },
            m4,
        );
        lemma_then(s, k, m, q + 6, m3, q + 7, m4);
        if y == s.f.false_ptr {
            machine::lemma_jcc(s.w, s.p, q + 7, m4, is_false);
            lemma_then(s, k, m, q + 7, m4, is_false, m4);
            (is_false, m4)
        } else {
            machine::lemma_jcc_past(s.w, s.p, q + 7, m4);
            lemma_then(s, k, m, q + 7, m4, q + 8, m4);
            machine::lemma_jmp(s.w, s.p, q + 8, m4, slow);
            lemma_then(s, k, m, q + 8, m4, slow, m4);
            (slow, m4)
        }
    }
}

/// The lines of a conditional jump on a bool, in order.
struct BoolPlan {
    test: Seq<Item>,
    bind_taken: Seq<Item>,
    drop_a: Seq<Item>,
    jump: Seq<Item>,
    bind_not: Seq<Item>,
    drop_b: Seq<Item>,
    mid: Seq<Item>,
    call: Seq<Item>,
    branch: Seq<Item>,
    tail: Seq<Item>,
}

spec fn bool_plan(f: Facts, jump_on: bool, target: int, idx: int, l: nat) -> BoolPlan {
    BoolPlan {
        test: template::test_bool(f, l),
        bind_taken: seq![
            Item::Bind(
                if jump_on {
                    l
                } else {
                    l + 1
                },
            ),
        ],
        drop_a: template::drop_top(f, l + 4),
        jump: template::jump(f, target),
        bind_not: seq![
            Item::Bind(
                if jump_on {
                    l + 1
                } else {
                    l
                },
            ),
        ],
        drop_b: template::drop_top(f, l + 6),
        mid: seq![Item::Jmp(l + 3), Item::Bind(l + 2)],
        call: template::call(f, HelperId::PopIsTrue, 0, idx, l + 8),
        branch: template::branch_if(f, template::on(jump_on), target, l + 9),
        tail: seq![Item::Bind(l + 3)],
    }
}

impl BoolPlan {
    spec fn taken_at(self, k: int) -> int {
        k + self.test.len()
    }

    spec fn not_at(self, k: int) -> int {
        k + self.test.len() + 1 + self.drop_a.len() + self.jump.len()
    }

    spec fn mid_at(self, k: int) -> int {
        self.not_at(k) + 1 + self.drop_b.len()
    }

    spec fn tail_at(self, k: int) -> int {
        self.mid_at(k) + 2 + self.call.len() + self.branch.len()
    }
}

proof fn lemma_bool_layout(s: Setting, k: int, jump_on: bool, target: int, idx: int, l: nat)
    requires
        s.at(k, template::pop_jump_if_bool(s.f, jump_on, target, idx, l)),
    ensures
        ({
            let c = bool_plan(s.f, jump_on, target, idx, l);
            &&& s.at(k, c.test)
            &&& s.at(c.taken_at(k), c.bind_taken)
            &&& s.at(c.taken_at(k) + 1, c.drop_a)
            &&& s.at(c.taken_at(k) + 1 + c.drop_a.len(), c.jump)
            &&& s.at(c.not_at(k), c.bind_not)
            &&& s.at(c.not_at(k) + 1, c.drop_b)
            &&& s.at(c.mid_at(k), c.mid)
            &&& s.at(c.mid_at(k) + 2, c.call)
            &&& s.at(c.mid_at(k) + 2 + c.call.len(), c.branch)
            &&& s.at(c.tail_at(k), c.tail)
            &&& template::pop_jump_if_bool(s.f, jump_on, target, idx, l).len() == c.tail_at(k) + 1
                - k
        }),
{
    broadcast use machine::lemma_at_add;

    reveal(template::pop_jump_if_bool);
    let c = bool_plan(s.f, jump_on, target, idx, l);
    let all = c.test + c.bind_taken + c.drop_a + c.jump + c.bind_not + c.drop_b + c.mid + c.call
        + c.branch + c.tail;
    assert(c.test.push(c.bind_taken[0]) =~= c.test + c.bind_taken);
    assert(template::pop_jump_if_bool(s.f, jump_on, target, idx, l) == all);
    assert(s.at(k, all));
}

proof fn lemma_pop_jump_if_bool(
    s: Setting,
    k: int,
    jump_on: bool,
    target: int,
    idx: int,
    l: nat,
    m: Machine,
    v: FrameState,
    t: Native,
) -> (r: (int, Machine))
    requires
        s.wf(),
        s.at(k, template::pop_jump_if_bool(s.f, jump_on, target, idx, l)),
        0 <= target,
        rel(m, v, t),
        fits(s, t),
    ensures
        s.goes(k, m, r.0, r.1),
        lands(
            s,
            k + template::pop_jump_if_bool(s.f, jump_on, target, idx, l).len(),
            meaning::pop_jump_if_bool(s.f, s.w.host, v, jump_on, target, idx),
            t,
            r.0,
            r.1,
        ),
{
    lemma_bool_layout(s, k, jump_on, target, idx, l);
    let c = bool_plan(s.f, jump_on, target, idx, l);
    let taken = c.taken_at(k);
    let not_taken = c.not_at(k);
    let mid = c.mid_at(k);
    let tail = c.tail_at(k);
    machine::lemma_at_line(s.p, taken, c.bind_taken, 0);
    machine::lemma_at_line(s.p, not_taken, c.bind_not, 0);
    machine::lemma_at_line(s.p, mid, c.mid, 0);
    machine::lemma_at_line(s.p, mid, c.mid, 1);
    machine::lemma_at_line(s.p, tail, c.tail, 0);
    let is_true = if jump_on {
        taken
    } else {
        not_taken
    };
    let is_false = if jump_on {
        not_taken
    } else {
        taken
    };
    let x = v.peek();
    let y = meaning::object(x);
    let popped = meaning::discard(s.f, s.w.host, v.shrink(), x);
    let (k1, m1) = lemma_test_bool(s, k, l, is_true, is_false, mid + 1, m, v, t);
    if k1 == mid + 1 && y != s.f.true_ptr && y != s.f.false_ptr {
        machine::lemma_bind(s.w, s.p, mid + 1, m1);
        lemma_then(s, k, m, mid + 1, m1, mid + 2, m1);
        let (ran, value) = meaning::help(s.f, s.w.host, v, HelperId::PopIsTrue, 0, idx);
        let (k2, m2) = lemma_call(s, mid + 2, HelperId::PopIsTrue, 0, idx, l + 8, m1, v, t);
        lemma_then(s, k, m, mid + 2, m1, k2, m2);
        match ran.flow {
            Flow::Next => {
                let (k3, m3) = lemma_branch_if(s, k2, jump_on, target, l + 9, m2, ran.v, t);
                lemma_then(s, k, m, k2, m2, k3, m3);
                if (value == 1) == jump_on {
                    (k3, m3)
                } else {
                    machine::lemma_bind(s.w, s.p, tail, m3);
                    lemma_then(s, k, m, tail, m3, tail + 1, m3);
                    (tail + 1, m3)
                }
            },
            _ => (k2, m2),
        }
    } else if (y == s.f.true_ptr) == jump_on {
        machine::lemma_bind(s.w, s.p, taken, m1);
        lemma_then(s, k, m, taken, m1, taken + 1, m1);
        let m2 = lemma_drop_top(s, taken + 1, l + 4, m1, v, t);
        let q = taken + 1 + c.drop_a.len();
        lemma_then(s, k, m, taken + 1, m1, q, m2);
        let (k3, m3) = lemma_jump(s, q, target, m2, popped, t);
        lemma_then(s, k, m, q, m2, k3, m3);
        assert(lands(s, tail + 1, meaning::towards(s.f, popped, target), t, k3, m3));
        (k3, m3)
    } else {
        machine::lemma_bind(s.w, s.p, not_taken, m1);
        lemma_then(s, k, m, not_taken, m1, not_taken + 1, m1);
        let m2 = lemma_drop_top(s, not_taken + 1, l + 6, m1, v, t);
        lemma_then(s, k, m, not_taken + 1, m1, mid, m2);
        machine::lemma_jmp(s.w, s.p, mid, m2, tail);
        lemma_then(s, k, m, mid, m2, tail, m2);
        machine::lemma_bind(s.w, s.p, tail, m2);
        lemma_then(s, k, m, tail, m2, tail + 1, m2);
        (tail + 1, m2)
    }
}

/// Pops a value, and finds out whether it is none.
#[verifier::spinoff_prover]
#[verifier::rlimit(40)]
proof fn lemma_test_none(
    s: Setting,
    k: int,
    l: nat,
    other: int,
    m: Machine,
    v: FrameState,
    t: Native,
) -> (r: (int, Machine))
    requires
        s.wf(),
        s.at(k, template::test_none(s.f, l)),
        0 <= other < s.p.len() && s.p[other] == Item::Bind(l),
        rel(m, v, t),
    ensures
        s.goes(k, m, r.0, r.1),
        rel(r.1, v.shrink(), t),
        r.1.regs[Reg::Rax] == v.shrink().freed(),
        r.0 == (if meaning::object(v.shrink().freed()) == s.f.none_ptr {
            k + template::test_none(s.f, l).len()
        } else {
            other
        }),
{
    broadcast use machine::lemma_at_add;

    reveal(template::test_none);
    let lines = seq![
        Item::Op(Insn::MovRR { dst: Reg::Rcx, src: Reg::Rax }),
        Item::Op(Insn::AluRI { op: Alu::And, dst: Reg::Rcx, imm: UNTAG }),
        Item::Op(Insn::MovRI { dst: Reg::Rdx, imm: s.f.none_ptr }),
        Item::Op(Insn::AluRR { op: Alu::Cmp, dst: Reg::Rcx, src: Reg::Rdx }),
        Item::Jcc(Cond::NE, l),
    ];
    let x = v.shrink().freed();
    let y = meaning::object(x);
    lemma_tag_bits(x);
    let m1 = lemma_pop(s, k, m, v, t);
    let q = k + 2;
    assert(s.at(q, lines));
    machine::lemma_at_line(s.p, q, lines, 4);
    reveal_with_fuel(machine::exec_lines, 5);
    let m2 = straight(s, q, lines, 4, m1);
    lemma_then(s, k, m, q, m1, q + 4, m2);
    assert(m2.zero == (y == s.f.none_ptr));
    if y == s.f.none_ptr {
        machine::lemma_jcc_past(s.w, s.p, q + 4, m2);
        lemma_then(s, k, m, q + 4, m2, q + 5, m2);
        (q + 5, m2)
    } else {
        machine::lemma_jcc(s.w, s.p, q + 4, m2, other);
        lemma_then(s, k, m, q + 4, m2, other, m2);
        (other, m2)
    }
}

/// The lines of a conditional jump on none, in order.
struct NonePlan {
    test: Seq<Item>,
    drop_a: Seq<Item>,
    mid: Seq<Item>,
    drop_b: Seq<Item>,
    leave: Seq<Item>,
    first: Seq<Item>,
    jump: Seq<Item>,
    last: Seq<Item>,
}

/// With the jump in front, label `l + 7` is bound behind it; otherwise before it.
spec fn none_plan(f: Facts, on_none: bool, target: int, l: nat) -> NonePlan {
    NonePlan {
        test: template::test_none(f, l + 1),
        drop_a: template::discard_rax(f, l + 3),
        mid: seq![Item::Jmp(l), Item::Bind(l + 1)],
        drop_b: template::discard_rax(f, l + 5),
        leave: seq![Item::Jmp(l + 7)],
        first: if on_none {
            seq![Item::Bind(l)]
        } else {
            seq![Item::Bind(l), Item::Jmp(l + 2), Item::Bind(l + 7)]
        },
        jump: template::jump(f, target),
        last: if on_none {
            seq![Item::Bind(l + 7), Item::Bind(l + 2)]
        } else {
            seq![Item::Bind(l + 2)]
        },
    }
}

impl NonePlan {
    spec fn mid_at(self, k: int) -> int {
        k + self.test.len() + self.drop_a.len()
    }

    spec fn leave_at(self, k: int) -> int {
        self.mid_at(k) + 2 + self.drop_b.len()
    }

    spec fn jump_at(self, k: int) -> int {
        self.leave_at(k) + 1 + self.first.len()
    }

    spec fn last_at(self, k: int) -> int {
        self.jump_at(k) + self.jump.len()
    }
}

proof fn lemma_none_layout(s: Setting, k: int, on_none: bool, target: int, l: nat)
    requires
        s.at(k, template::pop_jump_if_none(s.f, on_none, target, l)),
    ensures
        ({
            let c = none_plan(s.f, on_none, target, l);
            &&& s.at(k, c.test)
            &&& s.at(k + c.test.len(), c.drop_a)
            &&& s.at(c.mid_at(k), c.mid)
            &&& s.at(c.mid_at(k) + 2, c.drop_b)
            &&& s.at(c.leave_at(k), c.leave)
            &&& s.at(c.leave_at(k) + 1, c.first)
            &&& s.at(c.jump_at(k), c.jump)
            &&& s.at(c.last_at(k), c.last)
            &&& template::pop_jump_if_none(s.f, on_none, target, l).len() == c.last_at(k)
                + c.last.len() - k
        }),
{
    broadcast use machine::lemma_at_add;

    reveal(template::pop_jump_if_none);
    let c = none_plan(s.f, on_none, target, l);
    let all = c.test + c.drop_a + c.mid + c.drop_b + c.leave + c.first + c.jump + c.last;
    if on_none {
        assert(template::pop_jump_if_none(s.f, on_none, target, l) =~= all) by {
            let bind = seq![Item::Bind(l + 7)];
            let end = seq![Item::Bind(l + 2)];
            assert(c.last =~= bind + end);
        }
    } else {
        assert(template::pop_jump_if_none(s.f, on_none, target, l) =~= all);
    }
    assert(s.at(k, all));
}

#[verifier::spinoff_prover]
#[verifier::rlimit(40)]
proof fn lemma_pop_jump_if_none(
    s: Setting,
    k: int,
    on_none: bool,
    target: int,
    l: nat,
    m: Machine,
    v: FrameState,
    t: Native,
) -> (r: (int, Machine))
    requires
        s.wf(),
        s.at(k, template::pop_jump_if_none(s.f, on_none, target, l)),
        0 <= target,
        rel(m, v, t),
        fits(s, t),
    ensures
        s.goes(k, m, r.0, r.1),
        lands(
            s,
            k + template::pop_jump_if_none(s.f, on_none, target, l).len(),
            meaning::pop_jump_if_none(s.f, s.w.host, v, on_none, target),
            t,
            r.0,
            r.1,
        ),
{
    lemma_none_layout(s, k, on_none, target, l);
    let c = none_plan(s.f, on_none, target, l);
    let mid = c.mid_at(k);
    let leave = c.leave_at(k);
    let first = leave + 1;
    let jump = c.jump_at(k);
    let last = c.last_at(k);
    let end = last + c.last.len();
    machine::lemma_at_line(s.p, mid, c.mid, 0);
    machine::lemma_at_line(s.p, mid, c.mid, 1);
    machine::lemma_at_line(s.p, leave, c.leave, 0);
    machine::lemma_at_line(s.p, first, c.first, 0);
    machine::lemma_at_line(s.p, last, c.last, c.last.len() - 1);
    let x = v.shrink().freed();
    let is_none = meaning::object(x) == s.f.none_ptr;
    let popped = meaning::discard(s.f, s.w.host, v.shrink(), x);
    let (k1, m1) = lemma_test_none(s, k, l + 1, mid + 1, m, v, t);
    let m3 = if is_none {
        let m2 = lemma_discard_rax(s, k1, l + 3, m1, v.shrink(), t);
        lemma_then(s, k, m, k1, m1, mid, m2);
        machine::lemma_jmp(s.w, s.p, mid, m2, first);
        lemma_then(s, k, m, mid, m2, first, m2);
        machine::lemma_bind(s.w, s.p, first, m2);
        lemma_then(s, k, m, first, m2, first + 1, m2);
        m2
    } else {
        machine::lemma_bind(s.w, s.p, mid + 1, m1);
        lemma_then(s, k, m, mid + 1, m1, mid + 2, m1);
        let m2 = lemma_discard_rax(s, mid + 2, l + 5, m1, v.shrink(), t);
        lemma_then(s, k, m, mid + 2, m1, leave, m2);
        m2
    };
    if is_none == on_none {
        if !is_none {
            machine::lemma_at_line(s.p, first, c.first, 2);
            machine::lemma_jmp(s.w, s.p, leave, m3, first + 2);
            lemma_then(s, k, m, leave, m3, first + 2, m3);
            machine::lemma_bind(s.w, s.p, first + 2, m3);
            lemma_then(s, k, m, first + 2, m3, jump, m3);
        }
        let (k4, m4) = lemma_jump(s, jump, target, m3, popped, t);
        lemma_then(s, k, m, jump, m3, k4, m4);
        assert(lands(s, end, meaning::towards(s.f, popped, target), t, k4, m4));
        (k4, m4)
    } else {
        if is_none {
            machine::lemma_at_line(s.p, first, c.first, 1);
            machine::lemma_jmp(s.w, s.p, first + 1, m3, last);
            lemma_then(s, k, m, first + 1, m3, last, m3);
        } else {
            machine::lemma_at_line(s.p, last, c.last, 0);
            machine::lemma_jmp(s.w, s.p, leave, m3, last);
            lemma_then(s, k, m, leave, m3, last, m3);
            machine::lemma_bind(s.w, s.p, last, m3);
            lemma_then(s, k, m, last, m3, last + 1, m3);
        }
        machine::lemma_bind(s.w, s.p, end - 1, m3);
        lemma_then(s, k, m, end - 1, m3, end, m3);
        (end, m3)
    }
}

/// The lines of an instruction do what the instruction means.
#[verifier::spinoff_prover]
#[verifier::rlimit(60)]
proof fn lemma_instruction(
    s: Setting,
    k: int,
    units: Seq<CodeUnit>,
    c: Cursor,
    l: nat,
    m: Machine,
    v: FrameState,
    t: Native,
) -> (r: (int, Machine))
    requires
        s.wf(),
        s.at(k, template::instruction(s.f, units, c, l)),
        0 <= c.idx < units.len(),
        template::operand_fits(units, c),
        rel(m, v, t),
        fits(s, t),
    ensures
        s.goes(k, m, r.0, r.1),
        lands(
            s,
            k + template::instruction(s.f, units, c, l).len(),
            meaning::instruction(s.f, s.w.host, units, c, v),
            t.scratched(r.1.regs[SCRATCH]),
            r.0,
            r.1,
        ),
{
    broadcast use machine::lemma_at_add;

    reveal(template::instruction);
    reveal(meaning::instruction);
    let idx = c.idx;
    let arg = template::operand(units, c);
    let next = template::next_unit(units, idx);
    assert(t.scratched(t.scratch) == t);
    match template::classify(bytecode::base_op(units[idx].op)) {
        Op::Extend => {
            machine::lemma_goes_self(s.w, s.p, k, m);
            (k, m)
        },
        Op::Nothing => {
            machine::lemma_goes_self(s.w, s.p, k, m);
            (k, m)
        },
        Op::LoadFast => lemma_load_fast(s, k, arg, idx, l, m, v, t),
        Op::LoadFastLoadFast => {
            let (k1, m1) = lemma_load_fast(s, k, arg / 16, idx, l, m, v, t);
            let ran = meaning::load_fast(s.f, s.w.host, v, arg / 16, idx);
            match ran.flow {
                Flow::Next => {
                    let (k2, m2) = lemma_load_fast(s, k1, arg % 16, idx, l + 3, m1, ran.v, t);
                    lemma_then(s, k, m, k1, m1, k2, m2);
                    (k2, m2)
                },
                _ => (k1, m1),
            }
        },
        Op::StoreFast => {
            let m1 = lemma_store_fast(s, k, arg, l, m, v, t);
            (k + template::store_fast(s.f, arg, l).len(), m1)
        },
        Op::StoreFastLoadFast => {
            let m1 = lemma_store_fast(s, k, arg / 16, l, m, v, t);
            let k1 = k + template::store_fast(s.f, arg / 16, l).len();
            let v1 = meaning::store_fast(s.f, s.w.host, v, arg / 16);
            let (k2, m2) = lemma_load_fast(s, k1, arg % 16, idx, l + 3, m1, v1, t);
            lemma_then(s, k, m, k1, m1, k2, m2);
            (k2, m2)
        },
        Op::StoreFastStoreFast => {
            let m1 = lemma_store_fast(s, k, arg / 16, l, m, v, t);
            let k1 = k + template::store_fast(s.f, arg / 16, l).len();
            let v1 = meaning::store_fast(s.f, s.w.host, v, arg / 16);
            let m2 = lemma_store_fast(s, k1, arg % 16, l + 3, m1, v1, t);
            let k2 = k1 + template::store_fast(s.f, arg % 16, l + 3).len();
            lemma_then(s, k, m, k1, m1, k2, m2);
            (k2, m2)
        },
        Op::LoadSmallInt => lemma_load_small_int(s, k, arg, idx, l, m, v, t),
        Op::BinaryOp => if template::int_specialized(units[idx].op) {
            lemma_binary_op_int(s, k, arg, idx, l, m, v, t)
        } else {
            lemma_call(s, k, HelperId::BinaryOp, arg as u64, idx, l, m, v, t)
        },
        Op::CompareOp => lemma_compare_op(
            s,
            k,
            arg,
            idx,
            template::fusable(units, next),
            l,
            m,
            v,
            t,
        ),
        Op::PopTop => {
            let m1 = lemma_pop_top(s, k, l, m, v, t);
            (k + template::pop_top(s.f, l).len(), m1)
        },
        Op::PopJumpIfBool(jump_on) => lemma_pop_jump_if_bool(
            s,
            k,
            jump_on,
            next + arg,
            idx,
            l,
            m,
            v,
            t,
        ),
        Op::PopJumpIfNone(on_none) => lemma_pop_jump_if_none(
            s,
            k,
            on_none,
            next + arg,
            l,
            m,
            v,
            t,
        ),
        Op::ForIter => lemma_for_iter(
            s,
            k,
            (next + arg) as u64,
            template::loop_exit(units, next + arg),
            idx,
            l,
            m,
            v,
            t,
        ),
        Op::JumpForward => {
            let (k1, m1) = lemma_jump(s, k, next + arg, m, v, t);
            assert(lands(
                s,
                k + template::instruction(s.f, units, c, l).len(),
                meaning::towards(s.f, v, next + arg),
                t,
                k1,
                m1,
            ));
            (k1, m1)
        },
        Op::JumpBackward => {
            let (k1, m1) = lemma_eval_breaker(s, k, idx, l, m, v, t);
            let ran = meaning::eval_breaker(s.f, s.w.host, v, idx);
            match ran.flow {
                Flow::Next => {
                    let (k2, m2) = lemma_jump(s, k1, next - arg, m1, ran.v, t);
                    lemma_then(s, k, m, k1, m1, k2, m2);
                    assert(lands(
                        s,
                        k + template::instruction(s.f, units, c, l).len(),
                        meaning::towards(s.f, ran.v, next - arg),
                        t,
                        k2,
                        m2,
                    ));
                    (k2, m2)
                },
                _ => (k1, m1),
            }
        },
        Op::JumpBackwardNoInterrupt => {
            let (k1, m1) = lemma_jump(s, k, next - arg, m, v, t);
            assert(lands(
                s,
                k + template::instruction(s.f, units, c, l).len(),
                meaning::towards(s.f, v, next - arg),
                t,
                k1,
                m1,
            ));
            (k1, m1)
        },
        Op::Helper(id) => lemma_call(s, k, id, arg as u64, idx, l, m, v, t),
        Op::PlainHelper(id) => lemma_call(s, k, id, 0, idx, l, m, v, t),
        Op::Unsupported => {
            let m1 = lemma_exit(s, k, idx, m, v, t);
            (s.epilogue(), m1)
        },
    }
}

proof fn lemma_for_iter(
    s: Setting,
    k: int,
    arg: u64,
    exit: int,
    idx: int,
    l: nat,
    m: Machine,
    v: FrameState,
    t: Native,
) -> (r: (int, Machine))
    requires
        s.wf(),
        s.at(
            k,
            template::call(s.f, HelperId::ForIter, arg, idx, l) + template::branch_if(
                s.f,
                Cond::E,
                exit,
                l + 1,
            ),
        ),
        0 <= exit,
        rel(m, v, t),
        fits(s, t),
    ensures
        s.goes(k, m, r.0, r.1),
        lands(
            s,
            k + template::call(s.f, HelperId::ForIter, arg, idx, l).len() + template::branch_if(
                s.f,
                Cond::E,
                exit,
                l + 1,
            ).len(),
            meaning::for_iter(s.f, s.w.host, v, arg, exit, idx),
            t,
            r.0,
            r.1,
        ),
{
    broadcast use machine::lemma_at_add;

    let (ran, value) = meaning::help(s.f, s.w.host, v, HelperId::ForIter, arg, idx);
    let (k1, m1) = lemma_call(s, k, HelperId::ForIter, arg, idx, l, m, v, t);
    match ran.flow {
        Flow::Next => {
            let (k2, m2) = lemma_branch_if(s, k1, true, exit, l + 1, m1, ran.v, t);
            lemma_then(s, k, m, k1, m1, k2, m2);
            (k2, m2)
        },
        _ => (k1, m1),
    }
}

proof fn lemma_binds_len(from: int, to: int)
    ensures
        template::bind_units(from, to).len() == (if from <= to {
            to - from
        } else {
            0
        }),
    decreases to - from,
{
    if from < to {
        lemma_binds_len(from, to - 1);
    }
}

proof fn lemma_bind_line(from: int, to: int, i: int)
    requires
        0 <= i < to - from,
    ensures
        template::bind_units(from, to).len() == to - from,
        template::bind_units(from, to)[i] == Item::Bind((from + i) as nat),
    decreases to - from,
{
    lemma_binds_len(from, to);
    lemma_binds_len(from, to - 1);
    if i < to - from - 1 {
        lemma_bind_line(from, to - 1, i);
    }
}

/// The labels of caches are passed over.
proof fn lemma_binds(s: Setting, k: int, from: int, to: int, i: int, m: Machine)
    requires
        s.wf(),
        s.at(k, template::bind_units(from, to)),
        0 <= from,
        0 <= i <= template::bind_units(from, to).len(),
    ensures
        s.goes(k + i, m, k + template::bind_units(from, to).len(), m),
    decreases template::bind_units(from, to).len() - i,
{
    let lines = template::bind_units(from, to);
    if i == lines.len() {
        machine::lemma_goes_self(s.w, s.p, k + i, m);
    } else {
        lemma_binds(s, k, from, to, i + 1, m);
        lemma_binds_len(from, to);
        lemma_bind_line(from, to, i);
        machine::lemma_at_line(s.p, k, lines, i);
        machine::lemma_bind(s.w, s.p, k + i, m);
        lemma_then(s, k + i, m, k + i + 1, m, k + lines.len(), m);
    }
}

/// The units from the cursor on, and the epilogue, start at line `k`.
spec fn body_at(s: Setting, units: Seq<CodeUnit>, k: int, c: Cursor, l: nat) -> bool {
    s.at(k, template::body(s.f, units, c, l) + template::epilogue(s.f))
}

/// The lines of the unit at the cursor, in order.
proof fn lemma_body_step(s: Setting, units: Seq<CodeUnit>, k: int, c: Cursor, l: nat)
    requires
        body_at(s, units, k, c, l),
        0 <= c.idx < units.len(),
    ensures
        ({
            let inner = if c.fused {
                template::exit(s.f, c.idx)
            } else {
                template::instruction(s.f, units, c, l)
            };
            let binds = template::bind_units(c.idx + 1, template::caches_end(units, c.idx));
            let next = template::advance(units, c);
            let after = k + 1 + inner.len() + binds.len();
            &&& s.at(k, seq![Item::Bind(c.idx as nat)])
            &&& s.at(k + 1, inner)
            &&& s.at(k + 1 + inner.len(), binds)
            &&& body_at(s, units, after, next, l + template::unit_labels(s.f, units, c))
        }),
{
    broadcast use machine::lemma_at_add;

    reveal(template::unit);
    let next = template::advance(units, c);
    let l2 = l + template::unit_labels(s.f, units, c);
    let unit = template::unit(s.f, units, c, l);
    let rest = template::body(s.f, units, next, l2);
    let epilogue = template::epilogue(s.f);
    assert(template::body(s.f, units, c, l) + epilogue =~= unit + (rest + epilogue));
    assert(s.at(k, unit + (rest + epilogue)));
}

/// A line that binds a label is the line of the label.
proof fn lemma_line_of(s: Setting, k: int, l: int)
    requires
        s.wf(),
        0 <= l <= s.f.len,
        0 <= k < s.p.len(),
        s.p[k] == Item::Bind(l as nat),
    ensures
        s.line_of(l) == k,
{
    reveal(machine::well_bound);
    let j = s.line_of(l);
    assert(s.p[j] is Bind);
    assert(s.p[k] == s.p[j]);
}

/// Entering unit `t` comes to the lines of the instruction that is run there.
proof fn lemma_seek(
    s: Setting,
    units: Seq<CodeUnit>,
    k: int,
    c: Cursor,
    l: nat,
    t: int,
    m: Machine,
) -> (r: (int, nat))
    requires
        s.wf(),
        s.f.len == units.len(),
        0 <= c.idx <= t < units.len(),
        body_at(s, units, k, c, l),
        template::operands_fit(units, c),
    ensures
        body_at(s, units, r.0, meaning::seek(units, c, t), r.1),
        s.goes(s.line_of(t), m, r.0, m),
        template::operands_fit(units, meaning::seek(units, c, t)),
        meaning::seek(units, c, t).idx >= 0,
    decreases template::remaining(units, c.idx),
{
    lemma_body_step(s, units, k, c, l);
    let inner = if c.fused {
        template::exit(s.f, c.idx)
    } else {
        template::instruction(s.f, units, c, l)
    };
    let end = template::caches_end(units, c.idx);
    let binds = template::bind_units(c.idx + 1, end);
    let next = template::advance(units, c);
    let after = k + 1 + inner.len() + binds.len();
    let l2 = l + template::unit_labels(s.f, units, c);
    if c.idx == t {
        let head = seq![Item::Bind(c.idx as nat)];
        machine::lemma_at_line(s.p, k, head, 0);
        lemma_line_of(s, k, t);
        machine::lemma_goes_self(s.w, s.p, k, m);
        (k, l)
    } else if t < next.idx {
        let q = k + 1 + inner.len();
        let i = t - c.idx - 1;
        lemma_bind_line(c.idx + 1, end, i);
        machine::lemma_at_line(s.p, q, binds, i);
        lemma_line_of(s, q + i, t);
        lemma_binds(s, q, c.idx + 1, end, i, m);
        assert(meaning::seek(units, next, t) == next);
        (after, l2)
    } else {
        lemma_seek(s, units, after, next, l2, t, m)
    }
}

/// A unit that is gone to is there.
#[verifier::spinoff_prover]
#[verifier::rlimit(60)]
proof fn lemma_goto_range(
    f: Facts,
    host: machine::Host,
    units: Seq<CodeUnit>,
    c: Cursor,
    v: FrameState,
)
    requires
        0 <= c.idx < units.len(),
        template::operand_fits(units, c),
    ensures
        meaning::instruction(f, host, units, c, v).flow matches Flow::Goto(t) ==> 0 <= t < f.len,
{
    reveal(meaning::instruction);
    let arg = template::operand(units, c);
    let after = template::next_unit(units, c.idx);
    let fused = template::fusable(units, after);
    assert(fused matches Some(j) ==> 0 <= j.target && 0 <= j.after);
    assert(0 <= template::loop_exit(units, after + arg));
}

/// Code that runs off its end leaves with its length.
proof fn lemma_run_off(
    s: Setting,
    units: Seq<CodeUnit>,
    k: int,
    c: Cursor,
    l: nat,
    m: Machine,
    v: FrameState,
    t: Native,
) -> (m2: Machine)
    requires
        s.wf(),
        s.f.len == units.len(),
        body_at(s, units, k, c, l),
        c.idx >= units.len(),
        rel(m, v, t),
    ensures
        s.goes(k, m, s.epilogue(), m2),
        rel(m2, v, t),
        m2.regs[Reg::Rax] == units.len() as u64,
{
    broadcast use machine::lemma_at_add;

    let none: Seq<Item> = seq![];
    assert(template::body(s.f, units, c, l) == none);
    reveal(template::epilogue);
    assert(s.at(k + none.len(), template::epilogue(s.f)));
    lemma_exit(s, k, s.f.len as int, m, v, t)
}

/// Compiled code runs the units from the cursor on and comes to the epilogue.
#[verifier::spinoff_prover]
#[verifier::rlimit(60)]
proof fn lemma_run(
    s: Setting,
    units: Seq<CodeUnit>,
    start: int,
    fuel: nat,
    k: int,
    c: Cursor,
    l: nat,
    m: Machine,
    v: FrameState,
    t: Native,
    v2: FrameState,
    lasti: int,
) -> (m2: Machine)
    requires
        s.wf(),
        s.f.len == units.len(),
        body_at(s, units, start, template::start(), s.f.len + 1),
        template::operands_fit(units, template::start()),
        body_at(s, units, k, c, l),
        template::operands_fit(units, c),
        0 <= c.idx,
        rel(m, v, t),
        fits(s, t),
        meaning::run_units(s.f, s.w.host, units, fuel, c, v) == Some((v2, lasti)),
    ensures
        s.goes(k, m, s.epilogue(), m2),
        rel(m2, v2, t.scratched(m2.regs[SCRATCH])),
        m2.regs[Reg::Rax] == lasti as u64,
    decreases fuel,
{
    assert(t.scratched(t.scratch) == t);
    if c.idx >= units.len() {
        lemma_run_off(s, units, k, c, l, m, v, t)
    } else {
        lemma_body_step(s, units, k, c, l);
        let head = seq![Item::Bind(c.idx as nat)];
        machine::lemma_at_line(s.p, k, head, 0);
        machine::lemma_bind(s.w, s.p, k, m);
        if c.fused {
            let m2 = lemma_exit(s, k + 1, c.idx, m, v, t);
            lemma_then(s, k, m, k + 1, m, s.epilogue(), m2);
            m2
        } else {
            let ran = meaning::instruction(s.f, s.w.host, units, c, v);
            let rest = (fuel - 1) as nat;
            let (k1, m1) = lemma_instruction(s, k + 1, units, c, l, m, v, t);
            lemma_then(s, k, m, k + 1, m, k1, m1);
            let t1 = t.scratched(m1.regs[SCRATCH]);
            match ran.flow {
                Flow::Next => {
                    let lines = template::instruction(s.f, units, c, l);
                    let end = template::caches_end(units, c.idx);
                    let binds = template::bind_units(c.idx + 1, end);
                    let next = template::advance(units, c);
                    let l2 = l + template::unit_labels(s.f, units, c);
                    let k2 = k1 + binds.len();
                    lemma_binds(s, k1, c.idx + 1, end, 0, m1);
                    lemma_then(s, k, m, k1, m1, k2, m1);
                    let m3 = lemma_run(
                        s,
                        units,
                        start,
                        rest,
                        k2,
                        next,
                        l2,
                        m1,
                        ran.v,
                        t1,
                        v2,
                        lasti,
                    );
                    lemma_then(s, k, m, k2, m1, s.epilogue(), m3);
                    m3
                },
                Flow::Goto(x) => {
                    lemma_goto_range(s.f, s.w.host, units, c, v);
                    let (k2, l2) = lemma_seek(
                        s,
                        units,
                        start,
                        template::start(),
                        s.f.len + 1,
                        x,
                        m1,
                    );
                    lemma_then(s, k, m, k1, m1, k2, m1);
                    let m3 = lemma_run(
                        s,
                        units,
                        start,
                        rest,
                        k2,
                        meaning::entry(units, x),
                        l2,
                        m1,
                        ran.v,
                        t1,
                        v2,
                        lasti,
                    );
                    lemma_then(s, k, m, k2, m1, s.epilogue(), m3);
                    m3
                },
                Flow::Leave(_) => m1,
            }
        }
    }
}

/// The frame that a context describes.
pub open spec fn opened(
    ctx: u64,
    mem: Map<u64, u64>,
    half: Map<u64, u32>,
    calls: Seq<machine::Call>,
) -> FrameState {
    let locals = mem[machine::shifted(ctx, CTX_LOCALS as int)];
    FrameState {
        ctx,
        locals,
        stack: machine::shifted(locals, 8 * mem[machine::shifted(ctx, CTX_NLOCALSPLUS as int)]),
        top: half[mem[machine::shifted(ctx, CTX_STACK_TOP as int)]] as u64,
        mem,
        half,
        calls,
    }
}

/// The code has just been called with two arguments: nothing is pushed but the return address,
/// there is room on the stack, and it is as aligned as a call leaves it.
pub open spec fn entered(w: World, m: Machine, first: u64, second: u64) -> bool {
    &&& m.regs[w.abi.first_arg()] == first
    &&& m.regs[w.abi.second_arg()] == second
    &&& m.saved.len() == 0
    &&& m.bottom == m.regs[Reg::Rsp]
    &&& m.bottom >= 0x1000
    &&& m.bottom % 16 == 8
}

/// The code has returned `value` with the frame in memory, and every register that a callee
/// keeps is as it was.
pub open spec fn finished(
    abi: Abi,
    before: Machine,
    after: Machine,
    v: FrameState,
    value: u64,
) -> bool {
    &&& after.regs[Reg::Rax] == value
    &&& after.mem == v.mem
    &&& after.half == v.published().half
    &&& after.calls == v.calls
    &&& forall|r: Reg| abi.keeps(r) ==> #[trigger] after.regs[r] == before.regs[r]
}

/// What is pushed while compiled code runs.
spec fn kept(m: Machine) -> Seq<u64> {
    seq![
        m.regs[CTX],
        m.regs[TOP],
        m.regs[LOCALS],
        m.regs[STACK],
        m.regs[SCRATCH],
    ]
}

spec fn running(abi: Abi, m: Machine, scratch: u64) -> Native {
    Native {
        saved: kept(m),
        bottom: m.bottom,
        rsp: (m.bottom - 40 - abi.home_space()) as u64,
        rbp: m.regs[Reg::Rbp],
        windows: abi == Abi::Windows,
        rsi: m.regs[Reg::Rsi],
        rdi: m.regs[Reg::Rdi],
        scratch,
    }
}

/// The stack pointer is where so many words are pushed.
spec fn balanced(m: Machine) -> bool {
    &&& m.bottom >= 0x1000
    &&& m.saved.len() < 16
    &&& m.regs[Reg::Rsp] == m.bottom - 8 * m.saved.len()
}

/// Only the stack pointer, the pushed words and one register differ.
spec fn same_but(m: Machine, m2: Machine, r: Reg) -> bool {
    &&& m2.bottom == m.bottom
    &&& m2.mem == m.mem
    &&& m2.half == m.half
    &&& m2.calls == m.calls
    &&& forall|x: Reg| x != Reg::Rsp && x != r ==> #[trigger] m2.regs[x] == m.regs[x]
}

proof fn lemma_push_one(s: Setting, k: int, r: Reg, m: Machine) -> (m2: Machine)
    requires
        s.wf(),
        0 <= k < s.p.len(),
        s.p[k] == Item::Op(Insn::Push { r }),
        balanced(m),
        m.saved.len() < 15,
    ensures
        s.goes(k, m, k + 1, m2),
        balanced(m2),
        m2.saved == m.saved.push(m.regs[r]),
        same_but(m, m2, Reg::Rsp),
{
    let m2 = machine::exec(Insn::Push { r }, m).unwrap();
    machine::lemma_op(s.w, s.p, k, m, Insn::Push { r }, m2);
    m2
}

proof fn lemma_pop_one(s: Setting, k: int, r: Reg, m: Machine) -> (m2: Machine)
    requires
        s.wf(),
        0 <= k < s.p.len(),
        s.p[k] == Item::Op(Insn::Pop { r }),
        r != Reg::Rsp,
        balanced(m),
        m.saved.len() > 0,
    ensures
        s.goes(k, m, k + 1, m2),
        balanced(m2),
        m2.saved == m.saved.drop_last(),
        m2.regs[r] == m.saved.last(),
        same_but(m, m2, r),
{
    let m2 = machine::exec(Insn::Pop { r }, m).unwrap();
    machine::lemma_op(s.w, s.p, k, m, Insn::Pop { r }, m2);
    m2
}

proof fn lemma_pushes(s: Setting, k: int, lines: Seq<Item>, m: Machine) -> (m2: Machine)
    requires
        s.wf(),
        s.at(k, lines),
        lines == seq![
            Item::Op(Insn::Push { r: CTX }),
            Item::Op(Insn::Push { r: TOP }),
            Item::Op(Insn::Push { r: LOCALS }),
            Item::Op(Insn::Push { r: STACK }),
            Item::Op(Insn::Push { r: SCRATCH }),
        ],
        m.saved.len() == 0,
        m.bottom == m.regs[Reg::Rsp],
        m.bottom >= 0x1000,
    ensures
        s.goes(k, m, k + 5, m2),
        m2.saved == kept(m),
        m2.regs[Reg::Rsp] == m.bottom - 40,
        same_but(m, m2, Reg::Rsp),
{
    machine::lemma_at_line(s.p, k, lines, 0);
    machine::lemma_at_line(s.p, k, lines, 1);
    machine::lemma_at_line(s.p, k, lines, 2);
    machine::lemma_at_line(s.p, k, lines, 3);
    machine::lemma_at_line(s.p, k, lines, 4);
    let m1 = lemma_push_one(s, k, CTX, m);
    let m2 = lemma_push_one(s, k + 1, TOP, m1);
    lemma_then(s, k, m, k + 1, m1, k + 2, m2);
    let m3 = lemma_push_one(s, k + 2, LOCALS, m2);
    lemma_then(s, k, m, k + 2, m2, k + 3, m3);
    let m4 = lemma_push_one(s, k + 3, STACK, m3);
    lemma_then(s, k, m, k + 3, m3, k + 4, m4);
    let m5 = lemma_push_one(s, k + 4, SCRATCH, m4);
    lemma_then(s, k, m, k + 4, m4, k + 5, m5);
    assert(m5.saved =~= kept(m));
    m5
}

proof fn lemma_pops(s: Setting, k: int, lines: Seq<Item>, m: Machine, before: Machine) -> (m2: Machine)
    requires
        s.wf(),
        s.at(k, lines),
        lines == seq![
            Item::Op(Insn::Pop { r: SCRATCH }),
            Item::Op(Insn::Pop { r: STACK }),
            Item::Op(Insn::Pop { r: LOCALS }),
            Item::Op(Insn::Pop { r: TOP }),
            Item::Op(Insn::Pop { r: CTX }),
            Item::Op(Insn::Ret),
        ],
        m.saved == kept(before),
        m.bottom == before.bottom,
        before.bottom >= 0x1000,
        before.bottom == before.regs[Reg::Rsp],
        m.regs[Reg::Rsp] == m.bottom - 40,
        m.regs[Reg::Rbp] == before.regs[Reg::Rbp],
    ensures
        s.goes(k, m, k + 5, m2),
        machine::comes_back(s.w, machine::line(s.p, k + 5, m2), m2),
        m2.mem == m.mem,
        m2.half == m.half,
        m2.calls == m.calls,
        m2.regs[Reg::Rax] == m.regs[Reg::Rax],
        m2.regs[Reg::Rbx] == before.regs[Reg::Rbx],
        m2.regs[Reg::Rbp] == before.regs[Reg::Rbp],
        m2.regs[Reg::R12] == before.regs[Reg::R12],
        m2.regs[Reg::R13] == before.regs[Reg::R13],
        m2.regs[Reg::R14] == before.regs[Reg::R14],
        m2.regs[Reg::R15] == before.regs[Reg::R15],
        m2.regs[Reg::Rsp] == before.regs[Reg::Rsp],
        m2.regs[Reg::Rsi] == m.regs[Reg::Rsi],
        m2.regs[Reg::Rdi] == m.regs[Reg::Rdi],
{
    machine::lemma_at_line(s.p, k, lines, 0);
    machine::lemma_at_line(s.p, k, lines, 1);
    machine::lemma_at_line(s.p, k, lines, 2);
    machine::lemma_at_line(s.p, k, lines, 3);
    machine::lemma_at_line(s.p, k, lines, 4);
    machine::lemma_at_line(s.p, k, lines, 5);
    let m1 = lemma_pop_one(s, k, SCRATCH, m);
    let m2 = lemma_pop_one(s, k + 1, STACK, m1);
    lemma_then(s, k, m, k + 1, m1, k + 2, m2);
    let m3 = lemma_pop_one(s, k + 2, LOCALS, m2);
    lemma_then(s, k, m, k + 2, m2, k + 3, m3);
    let m4 = lemma_pop_one(s, k + 3, TOP, m3);
    lemma_then(s, k, m, k + 3, m3, k + 4, m4);
    let m5 = lemma_pop_one(s, k + 4, CTX, m4);
    lemma_then(s, k, m, k + 4, m4, k + 5, m5);
    assert(m5.saved.len() == 0);
    machine::lemma_ret(s.w, s.p, k + 5, m5);
    m5
}

proof fn lemma_scaled(x: u64, base: u64)
    ensures
        machine::wrap((x << 3u64) + base) == machine::shifted(base, 8 * x),
{
    assert(x << 3u64 == (8 * x) % 0x1_0000_0000_0000_0000) by (bit_vector);
    vstd::arithmetic::div_mod::lemma_add_mod_noop(
        8 * x,
        base as int,
        0x1_0000_0000_0000_0000,
    );
    vstd::arithmetic::div_mod::lemma_small_mod(base as nat, 0x1_0000_0000_0000_0000);
}

/// The prologue opens the frame and goes to the unit.
proof fn lemma_prologue(s: Setting, m: Machine, ctx: u64, to: int) -> (m2: Machine)
    requires
        s.wf(),
        s.at(0, template::prologue(s.f)),
        entered(s.w, m, ctx, (s.w.address + insn::offset(s.p, to)) as u64),
        s.w.address + insn::offset(s.p, to) <= u64::MAX,
    ensures
        s.goes(0, m, to, m2),
        rel(
            m2,
            opened(ctx, m.mem, m.half, m.calls),
            running(s.f.abi, m, m.regs[SCRATCH]),
        ),
{
    broadcast use machine::lemma_at_add;

    reveal(template::prologue);
    let v = opened(ctx, m.mem, m.half, m.calls);
    let pushes = seq![
        Item::Op(Insn::Push { r: CTX }),
        Item::Op(Insn::Push { r: TOP }),
        Item::Op(Insn::Push { r: LOCALS }),
        Item::Op(Insn::Push { r: STACK }),
        Item::Op(Insn::Push { r: SCRATCH }),
    ];
    let space = s.f.abi.home_space();
    let room: Seq<Item> = if space > 0 {
        seq![Item::Op(Insn::AluRI { op: Alu::Sub, dst: Reg::Rsp, imm: space })]
    } else {
        seq![]
    };
    let loads = seq![
        Item::Op(Insn::MovRR { dst: CTX, src: s.f.abi.first_arg() }),
        Item::Op(Insn::MovRM { dst: LOCALS, base: CTX, disp: CTX_LOCALS }),
        Item::Op(Insn::MovRM { dst: Reg::Rax, base: CTX, disp: CTX_STACK_TOP }),
        Item::Op(Insn::MovRM32 { dst: TOP, base: Reg::Rax, disp: 0 }),
        Item::Op(Insn::MovRM { dst: STACK, base: CTX, disp: CTX_NLOCALSPLUS }),
        Item::Op(Insn::ShiftRI { op: Shift::Shl, dst: STACK, imm: 3 }),
        Item::Op(Insn::AluRR { op: Alu::Add, dst: STACK, src: LOCALS }),
        Item::Op(Insn::JmpR { r: s.f.abi.second_arg() }),
    ];
    assert(s.at(0, pushes + room + loads));
    let m1 = lemma_pushes(s, 0, pushes, m);
    assert(s.at(5, room));
    let k = 5 + room.len() as int;
    assert(s.at(k, loads));
    let m2 = if space > 0 {
        reveal_with_fuel(machine::exec_lines, 2);
        let m2 = straight(s, 5, room, 1, m1);
        lemma_then(s, 0, m, 5, m1, k, m2);
        m2
    } else {
        m1
    };
    assert(m2.regs[Reg::Rsp] == m.bottom - 40 - space);
    assert(m2.regs[s.f.abi.first_arg()] == ctx);
    assert(m2.regs[s.f.abi.second_arg()] == s.w.address + insn::offset(s.p, to));
    let m3 = lemma_loads(s, k, loads, m2, m, ctx);
    lemma_then(s, 0, m, k, m2, k + 7, m3);
    machine::lemma_at_line(s.p, k, loads, 7);
    machine::lemma_jmp_r(s.w, s.p, k + 7, m3, s.f.abi.second_arg(), to);
    lemma_then(s, 0, m, k + 7, m3, to, m3);
    m3
}

/// The part of the prologue that loads the frame.
#[verifier::spinoff_prover]
#[verifier::rlimit(40)]
proof fn lemma_loads(s: Setting, k: int, loads: Seq<Item>, m2: Machine, m: Machine, ctx: u64) -> (m3:
    Machine)
    requires
        s.wf(),
        s.at(k, loads),
        loads == seq![
            Item::Op(Insn::MovRR { dst: CTX, src: s.f.abi.first_arg() }),
            Item::Op(Insn::MovRM { dst: LOCALS, base: CTX, disp: CTX_LOCALS }),
            Item::Op(Insn::MovRM { dst: Reg::Rax, base: CTX, disp: CTX_STACK_TOP }),
            Item::Op(Insn::MovRM32 { dst: TOP, base: Reg::Rax, disp: 0 }),
            Item::Op(Insn::MovRM { dst: STACK, base: CTX, disp: CTX_NLOCALSPLUS }),
            Item::Op(Insn::ShiftRI { op: Shift::Shl, dst: STACK, imm: 3 }),
            Item::Op(Insn::AluRR { op: Alu::Add, dst: STACK, src: LOCALS }),
            Item::Op(Insn::JmpR { r: s.f.abi.second_arg() }),
        ],
        m2.regs[s.f.abi.first_arg()] == ctx,
        m2.mem == m.mem,
        m2.half == m.half,
        m2.calls == m.calls,
        m2.saved == kept(m),
        m2.bottom == m.bottom,
        m.bottom >= 0x1000,
        m2.regs[Reg::Rsp] == m.bottom - 40 - s.f.abi.home_space(),
        m2.regs[Reg::Rbp] == m.regs[Reg::Rbp],
        m2.regs[SCRATCH] == m.regs[SCRATCH],
        m2.regs[Reg::Rsi] == m.regs[Reg::Rsi],
        m2.regs[Reg::Rdi] == m.regs[Reg::Rdi],
    ensures
        s.goes(k, m2, k + 7, m3),
        rel(
            m3,
            opened(ctx, m.mem, m.half, m.calls),
            running(s.f.abi, m, m.regs[SCRATCH]),
        ),
        m3.regs[s.f.abi.second_arg()] == m2.regs[s.f.abi.second_arg()],
{
    let locals = m.mem[machine::shifted(ctx, CTX_LOCALS as int)];
    let count = m.mem[machine::shifted(ctx, CTX_NLOCALSPLUS as int)];
    let shared = m.mem[machine::shifted(ctx, CTX_STACK_TOP as int)];
    lemma_scaled(count, locals);
    assert(machine::shifted(shared, 0) == shared);
    reveal_with_fuel(machine::exec_lines, 8);
    let m3 = straight(s, k, loads, 7, m2);
    assert(m3.regs[CTX] == ctx);
    assert(m3.regs[LOCALS] == locals);
    assert(m3.regs[STACK] == machine::shifted(locals, 8 * count));
    m3
}

/// The epilogue writes the height of the stack back and returns.
proof fn lemma_epilogue(s: Setting, k: int, m: Machine, v: FrameState, t: Native, before: Machine) -> (m2:
    Machine)
    requires
        s.wf(),
        s.at(k, template::epilogue(s.f)),
        rel(m, v, t),
        t == running(s.f.abi, before, t.scratch),
        before.bottom >= 0x1000,
        before.bottom == before.regs[Reg::Rsp],
    ensures
        machine::comes_back(s.w, machine::line(s.p, s.epilogue(), m), m2),
        finished(s.f.abi, before, m2, v, m.regs[Reg::Rax]),
{
    broadcast use machine::lemma_at_add;

    reveal(template::epilogue);
    let exit = template::exit(s.f, s.f.len as int);
    let bind = seq![Item::Bind(s.f.len)];
    let sync = template::sync_out();
    let space = s.f.abi.home_space();
    let room: Seq<Item> = if space > 0 {
        seq![Item::Op(Insn::AluRI { op: Alu::Add, dst: Reg::Rsp, imm: space })]
    } else {
        seq![]
    };
    let pops = seq![
        Item::Op(Insn::Pop { r: SCRATCH }),
        Item::Op(Insn::Pop { r: STACK }),
        Item::Op(Insn::Pop { r: LOCALS }),
        Item::Op(Insn::Pop { r: TOP }),
        Item::Op(Insn::Pop { r: CTX }),
        Item::Op(Insn::Ret),
    ];
    assert(s.at(k, exit + bind + sync + room + pops));
    let e = k + exit.len();
    assert(s.at(e, bind));
    machine::lemma_at_line(s.p, e, bind, 0);
    lemma_line_of(s, e, s.f.len as int);
    machine::lemma_bind(s.w, s.p, e, m);
    assert(s.at(e + 1, sync));
    let m1 = lemma_sync_out(s, e + 1, m, v, t);
    lemma_then(s, e, m, e + 1, m, e + 3, m1);
    assert(s.at(e + 3, room));
    let q = e + 3 + room.len();
    assert(s.at(q, pops));
    let m2 = if space > 0 {
        reveal_with_fuel(machine::exec_lines, 2);
        let m2 = straight(s, e + 3, room, 1, m1);
        lemma_then(s, e, m, e + 3, m1, q, m2);
        m2
    } else {
        m1
    };
    assert(m2.regs[Reg::Rsp] == before.bottom - 40);
    let m3 = lemma_pops(s, q, pops, m2, before);
    lemma_then(s, e, m, q, m2, q + 5, m3);
    reveal(machine::goes);
    machine::lemma_reaches_end(
        s.w,
        machine::line(s.p, e, m),
        machine::line(s.p, q + 5, m3),
        m3,
    );
    m3
}

proof fn lemma_setting(s: Setting, units: Seq<CodeUnit>)
    requires
        s.p == template::program(s.f, units),
        s.f.len == units.len(),
        s.w.code == insn::assemble(s.p),
        s.w.abi == s.f.abi,
        codegen::accepts(s.f, units),
    ensures
        s.wf(),
        s.at(0, template::prologue(s.f)),
        body_at(
            s,
            units,
            template::prologue(s.f).len() as int,
            template::start(),
            s.f.len + 1,
        ),
{
    assert(machine::well_bound(s.p)) by {
        reveal(machine::well_bound);
        assert forall|i: int, j: int|
            0 <= i < s.p.len() && 0 <= j < s.p.len() && #[trigger] s.p[i] is Bind
                && #[trigger] s.p[j] == s.p[i] implies i == j by {
            labels::law_no_label_bound_twice(s.f, units, i, j);
        }
    }
    assert forall|l: int| 0 <= l <= s.f.len implies 0 <= #[trigger] s.line_of(l) < s.p.len()
        && s.p[s.line_of(l)] == Item::Bind(l as nat) by {
        labels::law_labels_bound_once(s.f, units, l as nat);
    }
    let prologue = template::prologue(s.f);
    let rest = template::body(s.f, units, template::start(), s.f.len + 1) + template::epilogue(s.f);
    assert(s.p =~= prologue + rest);
    assert(s.at(0, prologue + rest)) by {
        reveal(machine::at);
        assert(s.p.subrange(0, s.p.len() as int) =~= s.p);
    }
    machine::lemma_at_add(s.p, 0, prologue, rest);
}

/// The epilogue stands behind the units.
proof fn lemma_epilogue_at(s: Setting, units: Seq<CodeUnit>, k: int, c: Cursor, l: nat)
    requires
        body_at(s, units, k, c, l),
    ensures
        s.at(k + template::body(s.f, units, c, l).len(), template::epilogue(s.f)),
{
    machine::lemma_at_add(
        s.p,
        k,
        template::body(s.f, units, c, l),
        template::epilogue(s.f),
    );
}

/// Compiled code does what the bytecode means. It is called with the address of a context and
/// the address of a unit. If running the units from there on the frame of the context comes to
/// unit `lasti`, where the interpreter takes over, then the machine returns `lasti`, with the
/// frame as the units leave it, the height of the stack in its shared word, the same calls made
/// in the same order, and the registers of the caller kept.
pub proof fn law_compiled_code_runs_the_bytecode(
    image: codegen::Image,
    f: Facts,
    units: Seq<CodeUnit>,
    w: World,
    ctx: u64,
    entry: int,
    before: Machine,
    fuel: nat,
    v: FrameState,
    lasti: int,
)
    requires
        f.len == units.len(),
        codegen::accepts(f, units),
        image.is_code_of(f, units),
        image.code@.len() <= u32::MAX,
        w.code == image.code@,
        w.abi == f.abi,
        w.address + w.code.len() <= u64::MAX,
        0 <= entry < units.len(),
        entered(w, before, ctx, (w.address + image.offsets@[entry]) as u64),
        meaning::run_units(
            f,
            w.host,
            units,
            fuel,
            meaning::entry(units, entry),
            opened(ctx, before.mem, before.half, before.calls),
        ) == Some((v, lasti)),
    ensures
        exists|after: Machine| #[trigger]
            machine::comes_back(w, machine::State { pc: 0, m: before }, after) && finished(
                w.abi,
                before,
                after,
                v,
                lasti as u64,
            ),
{
    let p = template::program(f, units);
    let s = Setting { w, p, f };
    lemma_setting(s, units);
    let start = template::prologue(f).len() as int;
    let to = s.line_of(entry);
    labels::law_labels_bound_once(f, units, entry as nat);
    codegen::law_entries_in_code(image, f, units, entry);
    let at = insn::offset(p, to);
    assert(insn::label_at(p, entry as nat) == Some(at));
    assert(at <= w.code.len()) by {
        codegen::lemma_label_in_code(p, entry as nat);
        layout::lemma_code_upto_len(p, p.len() as int, p);
    }
    assert(image.offsets@[entry] == at as u32);
    let m1 = lemma_prologue(s, before, ctx, to);
    let view = opened(ctx, before.mem, before.half, before.calls);
    let t = running(f.abi, before, before.regs[SCRATCH]);
    let (k2, l2) = lemma_seek(s, units, start, template::start(), f.len + 1, entry, m1);
    lemma_then(s, 0, before, to, m1, k2, m1);
    let m2 = lemma_run(
        s,
        units,
        start,
        fuel,
        k2,
        meaning::entry(units, entry),
        l2,
        m1,
        view,
        t,
        v,
        lasti,
    );
    lemma_then(s, 0, before, k2, m1, s.epilogue(), m2);
    lemma_epilogue_at(s, units, start, template::start(), f.len + 1);
    let t2 = t.scratched(m2.regs[SCRATCH]);
    assert(t2 == running(f.abi, before, t2.scratch));
    let m3 = lemma_epilogue(
        s,
        start + template::body(f, units, template::start(), f.len + 1).len(),
        m2,
        v,
        t2,
        before,
    );
    reveal(machine::goes);
    machine::lemma_reaches_end(
        w,
        machine::line(p, 0, before),
        machine::line(p, s.epilogue(), m2),
        m3,
    );
    assert(insn::offset(p, 0) == 0);
}

/// The object in `rax` has lost an owner: its count is one less, also where it is leaked. It
/// was handed to the drop helper, once, exactly if it is not leaked and that owner was the last;
/// the helper found the count taken down already. Otherwise nothing was called.
pub open spec fn released(f: Facts, host: machine::Host, m: Machine, after: Machine) -> bool {
    let obj = m.regs[Reg::Rax];
    let a = meaning::count_at(f, obj);
    let count = m.mem[a];
    let less = m.mem.insert(a, machine::wrap(count - 1));
    if !meaning::leaked(count) && meaning::owners(count) == 1 {
        let calls = m.calls.push(
            machine::Call {
                helper: (f.helpers)(HelperId::Drop),
                first: m.regs[CTX],
                second: obj,
            },
        );
        let shared = less[machine::shifted(m.regs[CTX], CTX_STACK_TOP as int)];
        let reply = host(calls, less, m.half.insert(shared, machine::low32(m.regs[TOP])));
        &&& after.calls == calls
        &&& after.mem == reply.mem
        &&& after.half == reply.half
    } else {
        &&& after.calls == m.calls
        &&& after.mem == less
        &&& after.half == m.half
        &&& after.regs[TOP] == m.regs[TOP]
    }
}

/// Wherever the lines that release an object stand in compiled code, they do just that, and the
/// machine comes to the line behind them.
pub proof fn law_release_lines_count_and_drop(
    f: Facts,
    units: Seq<CodeUnit>,
    w: World,
    k: int,
    l: nat,
    m: Machine,
)
    requires
        f.len == units.len(),
        codegen::accepts(f, units),
        w.code == insn::assemble(template::program(f, units)),
        w.abi == f.abi,
        machine::at(template::program(f, units), k, template::decref_rax(f, l)),
        m.regs[Reg::Rsp] % 16 == 0,
    ensures
        exists|after: Machine| #[trigger]
            machine::goes(
                w,
                template::program(f, units),
                k,
                m,
                k + template::decref_rax(f, l).len(),
                after,
            ) && released(f, w.host, m, after),
{
    let s = Setting { w, p: template::program(f, units), f };
    lemma_setting(s, units);
    let v = FrameState {
        ctx: m.regs[CTX],
        locals: m.regs[LOCALS],
        stack: m.regs[STACK],
        top: m.regs[TOP],
        mem: m.mem,
        half: m.half,
        calls: m.calls,
    };
    let t = Native {
        saved: m.saved,
        bottom: m.bottom,
        rsp: m.regs[Reg::Rsp],
        rbp: m.regs[Reg::Rbp],
        windows: f.abi == Abi::Windows,
        rsi: m.regs[Reg::Rsi],
        rdi: m.regs[Reg::Rdi],
        scratch: m.regs[SCRATCH],
    };
    let after = lemma_decref_rax(s, k, l, m, v, t);
    assert(released(f, w.host, m, after));
}

/// In the lines that release an object the count is read and taken down by one locked
/// instruction, which leaves in `rdx` what the count was. The line before it leaves memory alone.
pub proof fn law_release_counts_in_one_instruction(f: Facts, l: nat, m: Machine)
    ensures
        ({
            let lines = template::decref_rax(f, l);
            let locked = Insn::LockXadd {
                base: Reg::Rax,
                disp: f.refcount_offset,
                src: Reg::Rdx,
            };
            let a = meaning::count_at(f, m.regs[Reg::Rax]);
            &&& lines[1] == Item::Op(locked)
            &&& machine::exec_lines(lines, 1, m) matches Some(before)
            &&& before.mem == m.mem
            &&& machine::exec(locked, before) matches Some(after)
            &&& after.mem == m.mem.insert(a, machine::wrap(m.mem[a] - 1))
            &&& after.regs[Reg::Rdx] == m.mem[a]
        }),
{
    reveal(template::decref_rax);
    reveal_with_fuel(machine::exec_lines, 2);
    let lines = template::decref_rax(f, l);
    assert(lines[0] == Item::Op(Insn::MovRI { dst: Reg::Rdx, imm: u64::MAX }));
}

} // verus!
