//! What bytecode does to a frame, unit by unit.
//!
//! A frame lies in memory: the locals, and behind them the stack. Objects carry a strong count
//! at a fixed offset. A stack slot is zero, the address of an object that it owns, or such an
//! address with the borrow tag.
use crate::bytecode;
use crate::bytecode::CodeUnit;
use crate::codegen::{HelperId, BORROW_TAG};
use crate::machine;
use crate::machine::{Call, Host};
use crate::template;
use crate::template::{Cursor, Facts, Fused, Op, CTX_BREAKER, CTX_STACK_TOP};
use vstd::prelude::*;

verus! {

/// A frame and the memory it lies in.
pub struct FrameState {
    /// the address of the context
    pub ctx: u64,
    /// the address of the first local
    pub locals: u64,
    /// the address of the first stack slot
    pub stack: u64,
    /// how many values are on the stack
    pub top: u64,
    pub mem: Map<u64, u64>,
    pub half: Map<u64, u32>,
    /// the calls of the host so far
    pub calls: Seq<Call>,
}

/// Where a unit goes on.
pub enum Flow {
    /// behind itself
    Next,
    /// at a unit
    Goto(int),
    /// in the interpreter, which resumes at the unit
    Leave(int),
}

pub struct Ran {
    pub v: FrameState,
    pub flow: Flow,
}

pub open spec fn next(v: FrameState) -> Ran {
    Ran { v, flow: Flow::Next }
}

/// Goes to a unit, or leaves where there is no such unit.
pub open spec fn towards(f: Facts, v: FrameState, target: int) -> Ran {
    Ran {
        v,
        flow: if target < f.len {
            Flow::Goto(target)
        } else {
            Flow::Leave(target)
        },
    }
}

impl FrameState {
    pub open spec fn store(self, a: u64, x: u64) -> FrameState {
        FrameState { mem: self.mem.insert(a, x), ..self }
    }

    /// The address of the stack slot, counted from the bottom.
    pub open spec fn slot(self, i: int) -> u64 {
        machine::shifted(self.stack, 8 * i)
    }

    /// With one value more on the stack.
    pub open spec fn push(self, x: u64) -> FrameState {
        FrameState { top: machine::wrap(self.top + 1), ..self.store(self.slot(self.top as int), x) }
    }

    /// With one value less on the stack.
    pub open spec fn shrink(self) -> FrameState {
        FrameState { top: machine::wrap(self.top - 1), ..self }
    }

    /// The value that was topmost before the stack shrank.
    pub open spec fn freed(self) -> u64 {
        self.mem[self.slot(self.top as int)]
    }

    /// The topmost value.
    pub open spec fn peek(self) -> u64 {
        self.mem[self.slot(self.top - 1)]
    }

    /// The address of a local.
    pub open spec fn local(self, var: u32) -> u64 {
        machine::shifted(self.locals, template::local_disp(var))
    }

    /// The address of the word that counts the stack for the helpers.
    pub open spec fn shared(self) -> u64 {
        self.mem[machine::shifted(self.ctx, CTX_STACK_TOP as int)]
    }

    /// With the height of the stack written to the shared word.
    pub open spec fn published(self) -> FrameState {
        FrameState { half: self.half.insert(self.shared(), machine::low32(self.top)), ..self }
    }

    /// With the height of the stack read from the shared word.
    pub open spec fn refreshed(self) -> FrameState {
        FrameState { top: self.half[self.shared()] as u64, ..self }
    }
}

/// The frame after a call of a helper: it finds the height of the stack in the shared word,
/// and leaves it there.
pub open spec fn host_call(f: Facts, host: Host, v: FrameState, id: HelperId, arg: u64) -> (FrameState, u64) {
    let a = v.published();
    let calls = a.calls.push(Call { helper: (f.helpers)(id), first: a.ctx, second: arg });
    let reply = host(calls, a.mem, a.half);
    (FrameState { mem: reply.mem, half: reply.half, calls, ..a }.refreshed(), reply.value)
}

/// A call of a helper on behalf of unit `idx`; after an error, a negative result, the
/// interpreter resumes just behind the unit.
pub open spec fn help(f: Facts, host: Host, v: FrameState, id: HelperId, arg: u64, idx: int) -> (
    Ran,
    u64,
) {
    let (after, value) = host_call(f, host, v, id, arg);
    (
        Ran {
            v: after,
            flow: if machine::negative(value) {
                Flow::Leave(idx + 1)
            } else {
                Flow::Next
            },
        },
        value,
    )
}

/// A stack value that does not own its object.
pub open spec fn borrowed(x: u64) -> bool {
    x % 2 == 1
}

/// The address of the object of a stack value.
pub open spec fn object(x: u64) -> u64 {
    (x - x % 2) as u64
}

pub open spec fn count_at(f: Facts, obj: u64) -> u64 {
    machine::shifted(obj, f.refcount_offset as int)
}

/// With one owner more of an object.
pub open spec fn retain(f: Facts, v: FrameState, obj: u64) -> FrameState {
    let a = count_at(f, obj);
    v.store(a, machine::wrap(v.mem[a] + 1))
}

/// The strong count marks an object that is never dropped.
pub open spec fn leaked(count: u64) -> bool {
    count as int / 0x2000_0000_0000_0000 % 2 == 1
}

/// The number of owners, without the flags.
pub open spec fn owners(count: u64) -> int {
    count as int % 0x2000_0000_0000_0000
}

/// With one owner less of an object; the last one has it dropped, unless it is leaked.
pub open spec fn release(f: Facts, host: Host, v: FrameState, obj: u64) -> FrameState {
    let a = count_at(f, obj);
    let count = v.mem[a];
    let less = v.store(a, machine::wrap(count - 1));
    if !leaked(count) && owners(count) == 1 {
        host_call(f, host, less, HelperId::Drop, obj).0
    } else {
        less
    }
}

/// Lets go of a stack value: one that is borrowed, or zero, has nothing to release.
pub open spec fn discard(f: Facts, host: Host, v: FrameState, x: u64) -> FrameState {
    if borrowed(x) || x == 0 {
        v
    } else {
        release(f, host, v, x)
    }
}

/// The object of a stack value as one that is owned.
pub open spec fn promote(f: Facts, v: FrameState, x: u64) -> FrameState {
    if borrowed(x) {
        retain(f, v, object(x))
    } else {
        v
    }
}

/// Pops a value and lets go of it.
pub open spec fn pop_top(f: Facts, host: Host, v: FrameState) -> FrameState {
    let s = v.shrink();
    discard(f, host, s, s.freed())
}

/// Pushes a local as an owned value; one that is not set is left to the helper.
pub open spec fn load_fast(f: Facts, host: Host, v: FrameState, var: u32, idx: int) -> Ran {
    let x = v.mem[v.local(var)];
    if x == 0 {
        help(f, host, v, HelperId::LoadFast, var as u64, idx).0
    } else {
        next(retain(f, v, x).push(x))
    }
}

/// Pops a value into a local, as an owned one, and releases what was there.
pub open spec fn store_fast(f: Facts, host: Host, v: FrameState, var: u32) -> FrameState {
    let s = v.shrink();
    let owned = promote(f, s, s.freed());
    let old = owned.mem[owned.local(var)];
    let stored = owned.store(owned.local(var), object(s.freed()));
    if old == 0 {
        stored
    } else {
        release(f, host, stored, old)
    }
}

/// The bool singleton as a borrowed value.
pub open spec fn singleton(f: Facts, b: bool) -> u64 {
    if b {
        f.true_ptr | BORROW_TAG
    } else {
        f.false_ptr | BORROW_TAG
    }
}

/// Goes to `target` where the result is one exactly if `jump_on` says so.
pub open spec fn branch(f: Facts, v: FrameState, value: u64, jump_on: bool, target: int) -> Ran {
    if (value == 1) == jump_on {
        towards(f, v, target)
    } else {
        next(v)
    }
}

/// Where a comparison goes on that was compiled with the jump behind it.
pub open spec fn fused_branch(f: Facts, v: FrameState, value: u64, j: Fused) -> Ran {
    if (value == 1) == j.jump_on {
        towards(f, v, j.target)
    } else {
        towards(f, v, j.after)
    }
}

/// The comparison has a result: the operands are popped, and the result is pushed, or decides
/// the jump.
pub open spec fn compare_hit(f: Facts, host: Host, v: FrameState, value: u64, fused: Option<Fused>) -> Ran {
    let popped = pop_top(f, host, pop_top(f, host, v));
    match fused {
        Some(j) => fused_branch(f, popped, value, j),
        None => next(popped.push(singleton(f, value == 1))),
    }
}

/// The generic helper compares; where a jump follows, its result is popped and decides it.
pub open spec fn compare_miss(
    f: Facts,
    host: Host,
    v: FrameState,
    arg: u32,
    idx: int,
    fused: Option<Fused>,
) -> Ran {
    let ran = help(f, host, v, HelperId::CompareOp, arg as u64, idx).0;
    match (ran.flow, fused) {
        (Flow::Next, Some(j)) => {
            let (truth, value) = help(f, host, ran.v, HelperId::PopIsTrue, 0, idx);
            match truth.flow {
                Flow::Next => fused_branch(f, truth.v, value, j),
                _ => truth,
            }
        },
        _ => ran,
    }
}

/// A comparison, through the fast helper, or the generic one where that has no result.
pub open spec fn compare_op(
    f: Facts,
    host: Host,
    v: FrameState,
    arg: u32,
    idx: int,
    fused: Option<Fused>,
) -> Ran {
    let (ran, value) = help(f, host, v, HelperId::CompareFast, arg as u64, idx);
    match ran.flow {
        Flow::Next => if value == 2 {
            compare_miss(f, host, ran.v, arg, idx, fused)
        } else {
            compare_hit(f, host, ran.v, value, fused)
        },
        _ => ran,
    }
}

/// Arithmetic, through the fast helper, or the generic one where that has no result.
pub open spec fn binary_op_int(f: Facts, host: Host, v: FrameState, arg: u32, idx: int) -> Ran {
    let (ran, value) = help(f, host, v, HelperId::BinaryOpIntFast, arg as u64, idx);
    match ran.flow {
        Flow::Next => if value == 2 {
            help(f, host, ran.v, HelperId::BinaryOp, arg as u64, idx).0
        } else {
            ran
        },
        _ => ran,
    }
}

/// Pushes a small int, borrowed where it is interned.
pub open spec fn load_small_int(f: Facts, host: Host, v: FrameState, i: u32, idx: int) -> Ran {
    match (f.small_int)(i as i32) {
        Some(ptr) => next(v.push(ptr | BORROW_TAG)),
        None => help(f, host, v, HelperId::LoadSmallInt, i as u64, idx).0,
    }
}

/// The address of the count of back-edges.
pub open spec fn breaker(v: FrameState) -> u64 {
    machine::shifted(v.ctx, CTX_BREAKER as int)
}

/// Counts a back-edge. The last one of an interval asks the eval breaker, and a new interval
/// begins.
pub open spec fn eval_breaker(f: Facts, host: Host, v: FrameState, idx: int) -> Ran {
    let left = machine::wrap(v.mem[breaker(v)] - 1);
    let counted = v.store(breaker(v), left);
    if left != 0 {
        next(counted)
    } else {
        let ran = help(f, host, counted, HelperId::EvalBreaker, 0, idx).0;
        match ran.flow {
            Flow::Next => next(ran.v.store(breaker(ran.v), 64)),
            _ => ran,
        }
    }
}

/// Pops a value and branches on its truth: at once for the bool singletons, otherwise by the
/// helper.
pub open spec fn pop_jump_if_bool(
    f: Facts,
    host: Host,
    v: FrameState,
    jump_on: bool,
    target: int,
    idx: int,
) -> Ran {
    let x = v.peek();
    if object(x) == f.true_ptr || object(x) == f.false_ptr {
        let popped = discard(f, host, v.shrink(), x);
        if (object(x) == f.true_ptr) == jump_on {
            towards(f, popped, target)
        } else {
            next(popped)
        }
    } else {
        let (ran, value) = help(f, host, v, HelperId::PopIsTrue, 0, idx);
        match ran.flow {
            Flow::Next => branch(f, ran.v, value, jump_on, target),
            _ => ran,
        }
    }
}

/// Pops a value and branches on whether it is none.
pub open spec fn pop_jump_if_none(f: Facts, host: Host, v: FrameState, on_none: bool, target: int) -> Ran {
    let s = v.shrink();
    let x = s.freed();
    let popped = discard(f, host, s, x);
    if (object(x) == f.none_ptr) == on_none {
        towards(f, popped, target)
    } else {
        next(popped)
    }
}

/// Steps a loop; one whose iterator has run out goes on behind it.
pub open spec fn for_iter(f: Facts, host: Host, v: FrameState, arg: u64, exit: int, idx: int) -> Ran {
    let (ran, value) = help(f, host, v, HelperId::ForIter, arg, idx);
    match ran.flow {
        Flow::Next => branch(f, ran.v, value, true, exit),
        _ => ran,
    }
}

/// What the instruction at the cursor does.
#[verifier::opaque]
pub open spec fn instruction(f: Facts, host: Host, units: Seq<CodeUnit>, c: Cursor, v: FrameState) -> Ran {
    let idx = c.idx;
    let arg = template::operand(units, c);
    let after = template::next_unit(units, idx);
    match template::classify(bytecode::base_op(units[idx].op)) {
        Op::Extend => next(v),
        Op::Nothing => next(v),
        Op::LoadFast => load_fast(f, host, v, arg, idx),
        Op::LoadFastLoadFast => {
            let ran = load_fast(f, host, v, arg / 16, idx);
            match ran.flow {
                Flow::Next => load_fast(f, host, ran.v, arg % 16, idx),
                _ => ran,
            }
        },
        Op::StoreFast => next(store_fast(f, host, v, arg)),
        Op::StoreFastLoadFast => load_fast(
            f,
            host,
            store_fast(f, host, v, arg / 16),
            arg % 16,
            idx,
        ),
        Op::StoreFastStoreFast => next(
            store_fast(f, host, store_fast(f, host, v, arg / 16), arg % 16),
        ),
        Op::LoadSmallInt => load_small_int(f, host, v, arg, idx),
        Op::BinaryOp => if template::int_specialized(units[idx].op) {
            binary_op_int(f, host, v, arg, idx)
        } else {
            help(f, host, v, HelperId::BinaryOp, arg as u64, idx).0
        },
        Op::CompareOp => compare_op(f, host, v, arg, idx, template::fusable(units, after)),
        Op::PopTop => next(pop_top(f, host, v)),
        Op::PopJumpIfBool(jump_on) => pop_jump_if_bool(f, host, v, jump_on, after + arg, idx),
        Op::PopJumpIfNone(on_none) => pop_jump_if_none(f, host, v, on_none, after + arg),
        Op::ForIter => for_iter(
            f,
            host,
            v,
            (after + arg) as u64,
            template::loop_exit(units, after + arg),
            idx,
        ),
        Op::JumpForward => towards(f, v, after + arg),
        Op::JumpBackward => {
            let ran = eval_breaker(f, host, v, idx);
            match ran.flow {
                Flow::Next => towards(f, ran.v, after - arg),
                _ => ran,
            }
        },
        Op::JumpBackwardNoInterrupt => towards(f, v, after - arg),
        Op::Helper(id) => help(f, host, v, id, arg as u64, idx).0,
        Op::PlainHelper(id) => help(f, host, v, id, 0, idx).0,
        Op::Unsupported => Ran { v, flow: Flow::Leave(idx) },
    }
}

/// The first instruction at or behind unit `t`, from the cursor on.
pub open spec fn seek(units: Seq<CodeUnit>, c: Cursor, t: int) -> Cursor
    decreases template::remaining(units, c.idx),
{
    if 0 <= c.idx < units.len() && c.idx < t {
        seek(units, template::advance(units, c), t)
    } else {
        c
    }
}

/// The instruction that is run when unit `t` is entered: a cache goes on behind itself.
pub open spec fn entry(units: Seq<CodeUnit>, t: int) -> Cursor {
    seek(units, template::start(), t)
}

/// Runs units from the cursor on until the interpreter takes over: the frame then, and the
/// unit to resume at. Nothing if that takes more than `fuel` instructions.
pub open spec fn run_units(
    f: Facts,
    host: Host,
    units: Seq<CodeUnit>,
    fuel: nat,
    c: Cursor,
    v: FrameState,
) -> Option<(FrameState, int)>
    decreases fuel,
{
    if c.idx >= units.len() {
        Some((v, units.len() as int))
    } else if c.fused {
        Some((v, c.idx))
    } else if fuel == 0 {
        None
    } else {
        let ran = instruction(f, host, units, c, v);
        let rest = (fuel - 1) as nat;
        match ran.flow {
            Flow::Next => run_units(f, host, units, rest, template::advance(units, c), ran.v),
            Flow::Goto(t) => run_units(f, host, units, rest, entry(units, t), ran.v),
            Flow::Leave(t) => Some((ran.v, t)),
        }
    }
}

} // verus!
