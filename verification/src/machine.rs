//! A machine that runs code byte by byte.
//!
//! Memory is made of 64-bit words and of 32-bit words that lie apart from them; every access
//! is to a whole word. What is pushed lies in a stack of its own. A call leaves the code: the
//! host answers it, and may change memory and all registers but those a callee keeps.
use crate::assembler::{Cond, Reg};
use crate::decode;
use crate::decode::Fetched;
use crate::exec::Abi;
use crate::insn;
use crate::insn::{Alu, Insn, Item, Shift};
use crate::labels;
use crate::layout;
use vstd::prelude::*;

verus! {

/// A number in 64 bits.
pub open spec fn wrap(v: int) -> u64 {
    (v % 0x1_0000_0000_0000_0000) as u64
}

/// The address at a distance.
pub open spec fn shifted(a: u64, distance: int) -> u64 {
    wrap(a + distance)
}

/// The lower half of a word.
pub open spec fn low32(v: u64) -> u32 {
    (v as int % 0x1_0000_0000) as u32
}

/// The word is below zero, read as a signed number.
pub open spec fn negative(v: u64) -> bool {
    v >= 0x8000_0000_0000_0000
}

/// A call of the host: the address that is called, and the first two arguments.
pub struct Call {
    pub helper: u64,
    pub first: u64,
    pub second: u64,
}

/// What the host answers a call with.
pub struct Reply {
    pub value: u64,
    pub mem: Map<u64, u64>,
    pub half: Map<u64, u32>,
    /// what is left in the registers that a callee need not keep
    pub regs: Map<Reg, u64>,
    pub zero: bool,
    pub sign: bool,
}

/// The host: its answer to the last of the calls, with memory as it is then.
pub type Host = spec_fn(Seq<Call>, Map<u64, u64>, Map<u64, u32>) -> Reply;

pub struct Machine {
    pub regs: Map<Reg, u64>,
    pub zero: bool,
    pub sign: bool,
    pub mem: Map<u64, u64>,
    pub half: Map<u64, u32>,
    /// what was pushed
    pub saved: Seq<u64>,
    /// the stack pointer when nothing is pushed
    pub bottom: u64,
    pub calls: Seq<Call>,
}

/// The code, where it lies, and what it calls.
pub struct World {
    pub code: Seq<u8>,
    pub address: u64,
    pub abi: Abi,
    pub host: Host,
}

impl Machine {
    /// With a register changed.
    pub open spec fn set(self, r: Reg, v: u64) -> Machine {
        Machine { regs: self.regs.insert(r, v), ..self }
    }

    /// With a word of memory changed.
    pub open spec fn store(self, a: u64, v: u64) -> Machine {
        Machine { mem: self.mem.insert(a, v), ..self }
    }

    /// With the flags of a result.
    pub open spec fn flags(self, v: u64) -> Machine {
        Machine { zero: v == 0, sign: negative(v), ..self }
    }

    /// The address that an operand with a displacement names.
    pub open spec fn place(self, base: Reg, disp: i32) -> u64 {
        shifted(self.regs[base], disp as int)
    }

    /// The address that an indexed operand names.
    pub open spec fn indexed(self, base: Reg, index: Reg, disp: i8) -> u64 {
        shifted(self.regs[base], 8 * self.regs[index] + disp)
    }

    /// The topmost pushed word lies at the stack pointer.
    pub open spec fn at_saved(self) -> bool {
        self.regs[Reg::Rsp] == shifted(self.bottom, -8 * self.saved.len())
    }
}

/// An immediate operand in 64 bits.
pub open spec fn extended(imm: i32) -> u64 {
    wrap(imm as int)
}

pub open spec fn alu(op: Alu, a: u64, b: u64) -> u64 {
    match op {
        Alu::Add => wrap(a + b),
        Alu::Or => a | b,
        Alu::And => a & b,
        Alu::Sub => wrap(a - b),
        Alu::Cmp => wrap(a - b),
    }
}

/// How far a word is shifted: the lower six bits of the operand count. A shift by nothing
/// leaves the flags as they were.
pub open spec fn shift_count(imm: u8) -> u64 {
    (imm % 64) as u64
}

/// The machine after an instruction that goes on behind itself. Multiplication and the
/// arithmetic shift are not among them.
pub open spec fn exec(i: Insn, m: Machine) -> Option<Machine> {
    match i {
        Insn::MovRR { dst, src } => Some(m.set(dst, m.regs[src])),
        Insn::MovRM { dst, base, disp } => Some(m.set(dst, m.mem[m.place(base, disp)])),
        Insn::MovMR { base, disp, src } => Some(m.store(m.place(base, disp), m.regs[src])),
        Insn::MovRI { dst, imm } => Some(m.set(dst, imm)),
        Insn::MovRM32 { dst, base, disp } => Some(
            m.set(dst, m.half[m.place(base, disp)] as u64),
        ),
        Insn::MovMR32 { base, disp, src } => Some(
            Machine { half: m.half.insert(m.place(base, disp), low32(m.regs[src])), ..m },
        ),
        Insn::MovRMIdx8 { dst, base, index, disp } => Some(
            m.set(dst, m.mem[m.indexed(base, index, disp)]),
        ),
        Insn::MovMRIdx8 { base, index, disp, src } => Some(
            m.store(m.indexed(base, index, disp), m.regs[src]),
        ),
        Insn::LockXadd { base, disp, src } => {
            let a = m.place(base, disp);
            let sum = wrap(m.mem[a] + m.regs[src]);
            Some(m.store(a, sum).set(src, m.mem[a]).flags(sum))
        },
        Insn::LockAddMI { base, disp, imm } => {
            let a = m.place(base, disp);
            let sum = wrap(m.mem[a] + imm);
            Some(m.store(a, sum).flags(sum))
        },
        Insn::SubMI { base, disp, imm } => {
            let a = m.place(base, disp);
            let v = wrap(m.mem[a] - imm);
            Some(m.store(a, v).flags(v))
        },
        Insn::MovMI32 { base, disp, imm } => Some(m.store(m.place(base, disp), extended(imm))),
        Insn::AluRR { op, dst, src } => {
            let v = alu(op, m.regs[dst], m.regs[src]);
            Some(
                if op is Cmp {
                    m.flags(v)
                } else {
                    m.set(dst, v).flags(v)
                },
            )
        },
        Insn::TestRR { a, b } => Some(m.flags(m.regs[a] & m.regs[b])),
        Insn::AluRI { op, dst, imm } => {
            let v = alu(op, m.regs[dst], extended(imm));
            Some(
                if op is Cmp {
                    m.flags(v)
                } else {
                    m.set(dst, v).flags(v)
                },
            )
        },
        Insn::ShiftRI { op, dst, imm } => {
            let n = shift_count(imm);
            match op {
                Shift::Shl => {
                    let v = m.regs[dst] << n;
                    Some(
                        if n == 0 {
                            m
                        } else {
                            m.set(dst, v).flags(v)
                        },
                    )
                },
                Shift::Shr => {
                    let v = m.regs[dst] >> n;
                    Some(
                        if n == 0 {
                            m
                        } else {
                            m.set(dst, v).flags(v)
                        },
                    )
                },
                Shift::Sar => None,
            }
        },
        Insn::Push { r } => if m.at_saved() {
            Some(
                Machine {
                    saved: m.saved.push(m.regs[r]),
                    ..m.set(Reg::Rsp, shifted(m.regs[Reg::Rsp], -8))
                },
            )
        } else {
            None
        },
        Insn::Pop { r } => if m.at_saved() && m.saved.len() > 0 {
            Some(
                Machine {
                    saved: m.saved.drop_last(),
                    ..m.set(Reg::Rsp, shifted(m.regs[Reg::Rsp], 8)).set(r, m.saved.last())
                },
            )
        } else {
            None
        },
        _ => None,
    }
}

/// The conditions that depend on the zero and sign flags alone.
pub open spec fn holds(cond: Cond, m: Machine) -> Option<bool> {
    match cond {
        Cond::E => Some(m.zero),
        Cond::NE => Some(!m.zero),
        Cond::S => Some(m.sign),
        Cond::NS => Some(!m.sign),
        _ => None,
    }
}

/// Of a condition and its negation exactly one holds, wherever either is known.
pub proof fn law_negated_condition_is_the_opposite(cond: Cond, m: Machine)
    ensures
        holds(cond.negated(), m) == (match holds(cond, m) {
            Some(b) => Some(!b),
            None => None,
        }),
{
}

/// The machine after the host has answered a call through `r`.
pub open spec fn called(w: World, r: Reg, m: Machine) -> Machine {
    let calls = m.calls.push(
        Call {
            helper: m.regs[r],
            first: m.regs[w.abi.first_arg()],
            second: m.regs[w.abi.second_arg()],
        },
    );
    let reply = (w.host)(calls, m.mem, m.half);
    let kept = reply.regs.insert(Reg::Rbx, m.regs[Reg::Rbx]).insert(
        Reg::Rbp,
        m.regs[Reg::Rbp],
    ).insert(Reg::Rsp, m.regs[Reg::Rsp]).insert(Reg::R12, m.regs[Reg::R12]).insert(
        Reg::R13,
        m.regs[Reg::R13],
    ).insert(Reg::R14, m.regs[Reg::R14]).insert(Reg::R15, m.regs[Reg::R15]);
    let regs = if w.abi == Abi::Windows {
        kept.insert(Reg::Rsi, m.regs[Reg::Rsi]).insert(Reg::Rdi, m.regs[Reg::Rdi])
    } else {
        kept
    };
    Machine {
        regs: regs.insert(Reg::Rax, reply.value),
        zero: reply.zero,
        sign: reply.sign,
        mem: reply.mem,
        half: reply.half,
        saved: m.saved,
        bottom: m.bottom,
        calls,
    }
}

/// A call of the host leaves every register that a callee keeps, and returns a value; of the
/// other registers nothing is known but what the host says.
pub proof fn law_calls_keep_registers(w: World, r: Reg, m: Machine, x: Reg)
    ensures
        w.abi.keeps(x) ==> called(w, r, m).regs[x] == m.regs[x],
        ({
            let calls = called(w, r, m).calls;
            let reply = (w.host)(calls, m.mem, m.half);
            &&& called(w, r, m).regs[Reg::Rax] == reply.value
            &&& !w.abi.keeps(x) && x != Reg::Rax ==> called(w, r, m).regs[x] == reply.regs[x]
        }),
{
}

/// Where the machine stands in the code.
pub struct State {
    pub pc: int,
    pub m: Machine,
}

pub enum Step {
    Next(State),
    /// the code has returned
    Done(Machine),
    /// what the machine does next is not known
    Stuck,
}

/// What an instruction does that was fetched with the next one at `next`.
pub open spec fn step_op(w: World, i: Insn, next: int, m: Machine) -> Step {
    match i {
        Insn::CallR { r } => if m.regs[Reg::Rsp] % 16 == 0 {
            Step::Next(State { pc: next, m: called(w, r, m) })
        } else {
            Step::Stuck
        },
        Insn::JmpR { r } => Step::Next(State { pc: m.regs[r] - w.address, m }),
        Insn::Ret => if m.at_saved() && m.saved.len() == 0 {
            Step::Done(m)
        } else {
            Step::Stuck
        },
        _ => match exec(i, m) {
            Some(after) => Step::Next(State { pc: next, m: after }),
            None => Step::Stuck,
        },
    }
}

/// One step of the machine. A call must find the stack aligned to 16 bytes.
pub open spec fn step(w: World, s: State) -> Step {
    if 0 <= s.pc < w.code.len() {
        match decode::decode(w.code.skip(s.pc)) {
            Some((Fetched::Op(i), n)) => step_op(w, i, s.pc + n, s.m),
            Some((Fetched::Jmp(rel), n)) => Step::Next(State { pc: s.pc + n + rel, m: s.m }),
            Some((Fetched::Jcc(cond, rel), n)) => match holds(cond, s.m) {
                Some(true) => Step::Next(State { pc: s.pc + n + rel, m: s.m }),
                Some(false) => Step::Next(State { pc: s.pc + n, m: s.m }),
                None => Step::Stuck,
            },
            None => Step::Stuck,
        }
    } else {
        Step::Stuck
    }
}

/// So many steps of the machine.
pub open spec fn run(w: World, n: nat, s: State) -> Step
    decreases n,
{
    if n == 0 {
        Step::Next(s)
    } else {
        match step(w, s) {
            Step::Next(t) => run(w, (n - 1) as nat, t),
            other => other,
        }
    }
}

/// The machine comes from one state to the other.
pub open spec fn reaches(w: World, s: State, t: State) -> bool {
    exists|n: nat| #[trigger] run(w, n, s) == Step::Next(t)
}

/// The machine comes to return.
pub open spec fn comes_back(w: World, s: State, m: Machine) -> bool {
    exists|n: nat| #[trigger] run(w, n, s) == Step::Done(m)
}

proof fn lemma_run_add(w: World, a: nat, b: nat, s: State, t: State)
    requires
        run(w, a, s) == Step::Next(t),
    ensures
        run(w, a + b, s) == run(w, b, t),
    decreases a,
{
    if a > 0 {
        match step(w, s) {
            Step::Next(u) => lemma_run_add(w, (a - 1) as nat, b, u, t),
            _ => {},
        }
    }
}

pub proof fn lemma_reaches_trans(w: World, s: State, t: State, u: State)
    requires
        reaches(w, s, t),
        reaches(w, t, u),
    ensures
        reaches(w, s, u),
{
    let a = choose|n: nat| #[trigger] run(w, n, s) == Step::Next(t);
    let b = choose|n: nat| #[trigger] run(w, n, t) == Step::Next(u);
    lemma_run_add(w, a, b, s, t);
    assert(run(w, a + b, s) == Step::Next(u));
}

pub proof fn lemma_reaches_end(w: World, s: State, t: State, m: Machine)
    requires
        reaches(w, s, t),
        comes_back(w, t, m),
    ensures
        comes_back(w, s, m),
{
    let a = choose|n: nat| #[trigger] run(w, n, s) == Step::Next(t);
    let b = choose|n: nat| #[trigger] run(w, n, t) == Step::Done(m);
    lemma_run_add(w, a, b, s, t);
    assert(run(w, a + b, s) == Step::Done(m));
}

pub proof fn lemma_reaches_self(w: World, s: State)
    ensures
        reaches(w, s, s),
{
    assert(run(w, 0, s) == Step::Next(s));
}

proof fn lemma_reaches_step(w: World, s: State, t: State)
    requires
        step(w, s) == Step::Next(t),
    ensures
        reaches(w, s, t),
{
    assert(run(w, 0, t) == Step::Next(t));
    assert(run(w, 1, s) == Step::Next(t));
}

/// What comes after a return does not matter: the machine returns in one way.
pub proof fn law_run_is_determined(w: World, s: State, a: Machine, b: Machine)
    requires
        comes_back(w, s, a),
        comes_back(w, s, b),
    ensures
        a == b,
{
    let i = choose|n: nat| #[trigger] run(w, n, s) == Step::Done(a);
    let j = choose|n: nat| #[trigger] run(w, n, s) == Step::Done(b);
    lemma_done_stays(w, i, j, s, a);
    lemma_done_stays(w, j, i, s, b);
}

proof fn lemma_done_stays(w: World, i: nat, j: nat, s: State, m: Machine)
    requires
        run(w, i, s) == Step::Done(m),
    ensures
        j >= i ==> run(w, j, s) == Step::Done(m),
    decreases i,
{
    if i > 0 && j >= i {
        match step(w, s) {
            Step::Next(t) => lemma_done_stays(w, (i - 1) as nat, (j - 1) as nat, t, m),
            _ => {},
        }
    }
}

/// Every label that the lines bind is bound at one line only.
#[verifier::opaque]
pub open spec fn well_bound(p: Seq<Item>) -> bool {
    forall|i: int, j: int|
        0 <= i < p.len() && 0 <= j < p.len() && #[trigger] p[i] is Bind && #[trigger] p[j] == p[i]
            ==> i == j
}

/// The code is that of the lines.
pub open spec fn code_of(w: World, p: Seq<Item>) -> bool {
    &&& w.code == insn::assemble(p)
    &&& insn::jumps_resolve(p)
    &&& well_bound(p)
}

/// The state in which the machine is about to run line `k`.
pub open spec fn line(p: Seq<Item>, k: int, m: Machine) -> State {
    State { pc: insn::offset(p, k) as int, m }
}

/// The machine comes from one line to another.
#[verifier::opaque]
pub open spec fn goes(w: World, p: Seq<Item>, k: int, m: Machine, k2: int, m2: Machine) -> bool {
    reaches(w, line(p, k, m), line(p, k2, m2))
}

pub proof fn lemma_goes_trans(
    w: World,
    p: Seq<Item>,
    k: int,
    m: Machine,
    k2: int,
    m2: Machine,
    k3: int,
    m3: Machine,
)
    requires
        goes(w, p, k, m, k2, m2),
        goes(w, p, k2, m2, k3, m3),
    ensures
        goes(w, p, k, m, k3, m3),
{
    reveal(goes);
    lemma_reaches_trans(w, line(p, k, m), line(p, k2, m2), line(p, k3, m3));
}

pub proof fn lemma_goes_self(w: World, p: Seq<Item>, k: int, m: Machine)
    ensures
        goes(w, p, k, m, k, m),
{
    reveal(goes);
    lemma_reaches_self(w, line(p, k, m));
}

proof fn lemma_offset_step(p: Seq<Item>, k: int)
    requires
        0 <= k < p.len(),
    ensures
        insn::offset(p, k + 1) == insn::offset(p, k) + insn::item_len(p[k]),
{
    assert(p.take(k + 1).drop_last() =~= p.take(k));
    assert(p.take(k + 1).last() == p[k]);
}

proof fn lemma_offset_monotone(p: Seq<Item>, i: int, j: int)
    requires
        0 <= i <= j <= p.len(),
    ensures
        insn::offset(p, i) <= insn::offset(p, j),
    decreases j - i,
{
    if i < j {
        lemma_offset_monotone(p, i, j - 1);
        lemma_offset_step(p, j - 1);
    }
}

proof fn lemma_line_in_code(w: World, p: Seq<Item>, k: int)
    requires
        code_of(w, p),
        0 <= k < p.len(),
        insn::item_len(p[k]) > 0,
    ensures
        0 <= insn::offset(p, k) < w.code.len(),
{
    lemma_offset_step(p, k);
    lemma_offset_monotone(p, k + 1, p.len() as int);
    assert(p.take(p.len() as int) =~= p);
    layout::lemma_code_upto_len(p, p.len() as int, p);
}

proof fn lemma_encoded(i: Insn)
    requires
        decode::encodable(i),
    ensures
        insn::encode(i).len() > 0,
{
}

/// A line with an instruction that goes on behind itself.
pub proof fn lemma_op(w: World, p: Seq<Item>, k: int, m: Machine, i: Insn, m2: Machine)
    requires
        code_of(w, p),
        0 <= k < p.len(),
        p[k] == Item::Op(i),
        decode::encodable(i),
        step_op(w, i, insn::offset(p, k + 1) as int, m) == Step::Next(line(p, k + 1, m2)),
    ensures
        goes(w, p, k, m, k + 1, m2),
{
    reveal(goes);
    decode::law_code_reads_back(p, k);
    lemma_encoded(i);
    lemma_line_in_code(w, p, k);
    lemma_offset_step(p, k);
    lemma_reaches_step(w, line(p, k, m), line(p, k + 1, m2));
}

pub proof fn lemma_bind(w: World, p: Seq<Item>, k: int, m: Machine)
    requires
        0 <= k < p.len(),
        p[k] is Bind,
    ensures
        goes(w, p, k, m, k + 1, m),
{
    reveal(goes);
    lemma_offset_step(p, k);
    lemma_reaches_self(w, line(p, k, m));
}

proof fn lemma_label(p: Seq<Item>, k: int, l: nat)
    requires
        well_bound(p),
        0 <= k < p.len(),
        p[k] == Item::Bind(l),
    ensures
        insn::label_at(p, l) == Some(insn::offset(p, k)),
{
    reveal(well_bound);
    labels::lemma_label_at_bind(p, k, l);
}

pub proof fn lemma_jmp(w: World, p: Seq<Item>, k: int, m: Machine, to: int)
    requires
        code_of(w, p),
        0 <= k < p.len(),
        0 <= to < p.len(),
        p[k] matches Item::Jmp(l) && p[to] == Item::Bind(l),
    ensures
        goes(w, p, k, m, to, m),
{
    reveal(goes);
    decode::law_code_reads_back(p, k);
    lemma_line_in_code(w, p, k);
    match p[k] {
        Item::Jmp(l) => lemma_label(p, to, l),
        _ => {},
    }
    assert(decode::line_reads(p, k));
    lemma_reaches_step(w, line(p, k, m), line(p, to, m));
}

pub proof fn lemma_jcc(w: World, p: Seq<Item>, k: int, m: Machine, to: int)
    requires
        code_of(w, p),
        0 <= k < p.len(),
        0 <= to < p.len(),
        p[k] matches Item::Jcc(c, l) && p[to] == Item::Bind(l) && holds(c, m) == Some(true),
    ensures
        goes(w, p, k, m, to, m),
{
    reveal(goes);
    decode::law_code_reads_back(p, k);
    lemma_line_in_code(w, p, k);
    match p[k] {
        Item::Jcc(c, l) => lemma_label(p, to, l),
        _ => {},
    }
    assert(decode::line_reads(p, k));
    lemma_reaches_step(w, line(p, k, m), line(p, to, m));
}

pub proof fn lemma_jcc_past(w: World, p: Seq<Item>, k: int, m: Machine)
    requires
        code_of(w, p),
        0 <= k < p.len(),
        p[k] matches Item::Jcc(c, _) && holds(c, m) == Some(false),
    ensures
        goes(w, p, k, m, k + 1, m),
{
    reveal(goes);
    decode::law_code_reads_back(p, k);
    lemma_line_in_code(w, p, k);
    lemma_offset_step(p, k);
    assert(decode::line_reads(p, k));
    lemma_reaches_step(w, line(p, k, m), line(p, k + 1, m));
}

/// A jump through a register to the address of a line.
pub proof fn lemma_jmp_r(w: World, p: Seq<Item>, k: int, m: Machine, r: Reg, to: int)
    requires
        code_of(w, p),
        0 <= k < p.len(),
        p[k] == Item::Op(Insn::JmpR { r }),
        m.regs[r] == w.address + insn::offset(p, to),
    ensures
        goes(w, p, k, m, to, m),
{
    reveal(goes);
    decode::law_code_reads_back(p, k);
    lemma_encoded(Insn::JmpR { r });
    lemma_line_in_code(w, p, k);
    lemma_reaches_step(w, line(p, k, m), line(p, to, m));
}

/// A return with nothing left on the stack.
pub proof fn lemma_ret(w: World, p: Seq<Item>, k: int, m: Machine)
    requires
        code_of(w, p),
        0 <= k < p.len(),
        p[k] == Item::Op(Insn::Ret),
        m.at_saved(),
        m.saved.len() == 0,
    ensures
        comes_back(w, line(p, k, m), m),
{
    decode::law_code_reads_back(p, k);
    lemma_encoded(Insn::Ret);
    lemma_line_in_code(w, p, k);
    assert(step(w, line(p, k, m)) == Step::Done(m));
    assert(run(w, 1, line(p, k, m)) == Step::Done(m));
}

/// The lines stand in the listing from line `k` on.
#[verifier::opaque]
pub open spec fn at(p: Seq<Item>, k: int, t: Seq<Item>) -> bool {
    &&& 0 <= k
    &&& k + t.len() <= p.len()
    &&& p.subrange(k, k + t.len()) == t
}

pub proof fn lemma_at_line(p: Seq<Item>, k: int, t: Seq<Item>, j: int)
    requires
        at(p, k, t),
        0 <= j < t.len(),
    ensures
        0 <= k,
        k + j < p.len(),
        p[k + j] == t[j],
{
    reveal(at);
    assert(p.subrange(k, k + t.len())[j] == p[k + j]);
}

pub broadcast proof fn lemma_at_add(p: Seq<Item>, k: int, a: Seq<Item>, b: Seq<Item>)
    requires
        #[trigger] at(p, k, a + b),
    ensures
        at(p, k, a),
        at(p, k + a.len(), b),
{
    reveal(at);
    let t = a + b;
    assert(p.subrange(k, k + a.len()) =~= a) by {
        assert forall|i: int| 0 <= i < a.len() implies p.subrange(k, k + a.len())[i] == a[i] by {
            assert(p.subrange(k, k + t.len())[i] == t[i]);
        }
    }
    assert(p.subrange(k + a.len(), k + a.len() + b.len()) =~= b) by {
        assert forall|i: int| 0 <= i < b.len() implies p.subrange(
            k + a.len(),
            k + a.len() + b.len(),
        )[i] == b[i] by {
            assert(p.subrange(k, k + t.len())[a.len() + i] == t[a.len() + i]);
        }
    }
}

/// The machine after the first `n` lines, where these are instructions that go on behind
/// themselves.
pub open spec fn exec_lines(t: Seq<Item>, n: int, m: Machine) -> Option<Machine>
    decreases n,
{
    if n <= 0 {
        Some(m)
    } else {
        match (t[n - 1], exec_lines(t, n - 1, m)) {
            (Item::Op(i), Some(x)) => if decode::encodable(i) {
                exec(i, x)
            } else {
                None
            },
            _ => None,
        }
    }
}

/// A run of instructions that go on behind themselves.
pub proof fn lemma_straight(w: World, p: Seq<Item>, k: int, t: Seq<Item>, n: int, m: Machine) -> (m2:
    Machine)
    requires
        code_of(w, p),
        at(p, k, t),
        0 <= n <= t.len(),
        exec_lines(t, n, m) is Some,
    ensures
        Some(m2) == exec_lines(t, n, m),
        goes(w, p, k, m, k + n, m2),
    decreases n,
{
    if n == 0 {
        lemma_goes_self(w, p, k, m);
        m
    } else {
        let x = lemma_straight(w, p, k, t, n - 1, m);
        lemma_at_line(p, k, t, n - 1);
        let m2 = exec_lines(t, n, m).unwrap();
        match t[n - 1] {
            Item::Op(i) => lemma_op(w, p, k + n - 1, x, i, m2),
            _ => {},
        }
        lemma_goes_trans(w, p, k, m, k + n - 1, x, k + n, m2);
        m2
    }
}

} // verus!
