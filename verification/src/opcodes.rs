//! What each instruction does, told by the number of its opcode and in words of memory alone.
//!
//! The laws here speak of addresses, of words and of the calls that are made. They hold of
//! every frame and of every host.
use crate::assembler::Reg;
use crate::bytecode;
use crate::bytecode::CodeUnit;
use crate::codegen;
use crate::codegen::{Env, HelperId, HelperTable, FAST_PATH_MISS};
use crate::exec::Abi;
use crate::machine;
use crate::machine::{Call, Host, Machine, Reply, World};
use crate::meaning;
use crate::meaning::{Flow, FrameState, Ran};
use crate::simulate;
use crate::template;
use crate::template::{Cursor, Facts};
use vstd::prelude::*;

verus! {

/// The address `d` bytes from `a`; addresses go round.
pub open spec fn offset(a: u64, d: int) -> u64 {
    ((a + d) % 0x1_0000_0000_0000_0000) as u64
}

/// The number `d` more than `x`; numbers go round.
pub open spec fn plus(x: u64, d: int) -> u64 {
    ((x + d) % 0x1_0000_0000_0000_0000) as u64
}

/// The opcode that the instruction at the cursor stands for.
pub open spec fn opcode(units: Seq<CodeUnit>, c: Cursor) -> u8 {
    bytecode::base_op(units[c.idx].op)
}

/// The operand at the cursor: the last three of the bytes before it, and its own byte.
pub open spec fn operand(units: Seq<CodeUnit>, c: Cursor) -> int {
    c.pending as int % 0x100_0000 * 0x100 + units[c.idx].arg
}

/// The unit behind the one at `i` and its caches.
pub open spec fn behind(units: Seq<CodeUnit>, i: int) -> int {
    i + 1 + bytecode::caches(units[i].op)
}

/// Where a jump to the unit goes on: there, or in the interpreter where there is no such unit.
pub open spec fn going(f: Facts, target: int) -> Flow {
    if target >= f.len {
        Flow::Leave(target)
    } else {
        Flow::Goto(target)
    }
}

/// The address of a stack slot, counted from the bottom.
pub open spec fn slot(v: FrameState, i: int) -> u64 {
    offset(v.stack, 8 * i)
}

/// The lower 32 bits as a signed number.
pub open spec fn signed(x: int) -> int {
    if x >= 0x8000_0000 {
        x - 0x1_0000_0000
    } else {
        x
    }
}

/// The address of a local.
pub open spec fn home(v: FrameState, var: int) -> u64 {
    offset(v.locals, 8 * signed(var))
}

/// The address at which the context keeps where the height of the stack is shared.
pub open spec fn height_at(v: FrameState) -> u64 {
    offset(v.ctx, 16)
}

/// What the host answers to a call of the helper: it finds the height of the stack in the
/// shared word, the context as its first argument and the operand as its second.
pub open spec fn reply(f: Facts, host: Host, v: FrameState, id: HelperId, x: int) -> Reply {
    host(
        v.calls.push(Call { helper: (f.helpers)(id), first: v.ctx, second: x as u64 }),
        v.mem,
        v.half.insert(v.mem[height_at(v)], (v.top as int % 0x1_0000_0000) as u32),
    )
}

/// The frame after a call of the helper: memory is what the host left, and the height of the
/// stack is what it left in the shared word.
pub open spec fn answered(f: Facts, host: Host, v: FrameState, id: HelperId, x: int) -> FrameState {
    let r = reply(f, host, v, id, x);
    FrameState {
        ctx: v.ctx,
        locals: v.locals,
        stack: v.stack,
        top: r.half[r.mem[height_at(v)]] as u64,
        mem: r.mem,
        half: r.half,
        calls: v.calls.push(Call { helper: (f.helpers)(id), first: v.ctx, second: x as u64 }),
    }
}

/// The host has answered with a negative number.
pub open spec fn fails(r: Reply) -> bool {
    r.value >= 0x8000_0000_0000_0000
}

/// All that was done is one call of the helper; after an error the interpreter goes on just
/// behind the unit.
pub open spec fn only_calls(
    f: Facts,
    host: Host,
    v: FrameState,
    ran: Ran,
    id: HelperId,
    x: int,
    idx: int,
) -> bool {
    &&& ran.v == answered(f, host, v, id, x)
    &&& ran.flow == (if fails(reply(f, host, v, id, x)) {
        Flow::Leave(idx + 1)
    } else {
        Flow::Next
    })
}

/// The address of the strong count of an object.
pub open spec fn count_of(f: Facts, obj: u64) -> u64 {
    offset(obj, f.refcount_offset as int)
}

/// The frame with a word of memory changed.
pub open spec fn written(v: FrameState, a: u64, x: u64) -> FrameState {
    FrameState { mem: v.mem.insert(a, x), ..v }
}

/// The frame with one owner more of the object.
pub open spec fn owned_once_more(f: Facts, v: FrameState, obj: u64) -> FrameState {
    written(v, count_of(f, obj), plus(v.mem[count_of(f, obj)], 1))
}

/// The frame with one owner less of the object. It is handed to the drop helper exactly if
/// bit 61 of its count was clear and the bits below that made one.
pub open spec fn owned_once_less(f: Facts, host: Host, v: FrameState, obj: u64) -> FrameState {
    let count = v.mem[count_of(f, obj)];
    let less = written(v, count_of(f, obj), plus(count, -1));
    if count as int % 0x4000_0000_0000_0000 == 1 {
        answered(f, host, less, HelperId::Drop, obj as int)
    } else {
        less
    }
}

/// The frame with the value on top of the stack.
pub open spec fn topped(v: FrameState, x: u64) -> FrameState {
    FrameState { top: plus(v.top, 1), ..written(v, slot(v, v.top as int), x) }
}

/// The frame with one stack slot less.
pub open spec fn lowered(v: FrameState) -> FrameState {
    FrameState { top: plus(v.top, -1), ..v }
}

/// The frame after a popped value was let go: an odd word is borrowed, zero is no value.
pub open spec fn let_go(f: Facts, host: Host, v: FrameState, x: u64) -> FrameState {
    if x % 2 == 0 && x != 0 {
        owned_once_less(f, host, v, x)
    } else {
        v
    }
}

/// The frame with the topmost value popped and let go.
pub open spec fn popped(f: Facts, host: Host, v: FrameState) -> FrameState {
    let s = lowered(v);
    let_go(f, host, s, s.mem[slot(s, s.top as int)])
}

/// The local is on top of the stack, with an owner more; one that is not set was left to the
/// helper.
pub open spec fn loaded(f: Facts, host: Host, v: FrameState, ran: Ran, var: int, idx: int) -> bool {
    let x = v.mem[home(v, var)];
    if x == 0 {
        only_calls(f, host, v, ran, HelperId::LoadFast, var, idx)
    } else {
        &&& ran.v == topped(owned_once_more(f, v, x), x)
        &&& ran.flow is Next
    }
}

/// The frame with the topmost value moved to the local: a borrowed one gains an owner, and what
/// the local held loses one.
pub open spec fn stored(f: Facts, host: Host, v: FrameState, var: int) -> FrameState {
    let s = lowered(v);
    let x = s.mem[slot(s, s.top as int)];
    let obj = (x - x % 2) as u64;
    let kept = if x % 2 == 1 {
        owned_once_more(f, s, obj)
    } else {
        s
    };
    let old = kept.mem[home(v, var)];
    let moved = written(kept, home(v, var), obj);
    if old == 0 {
        moved
    } else {
        owned_once_less(f, host, moved, old)
    }
}

/// A helper is called the same way from everywhere.
proof fn lemma_call(f: Facts, host: Host, v: FrameState, id: HelperId, x: u64, idx: int)
    ensures
        meaning::host_call(f, host, v, id, x).0 == answered(f, host, v, id, x as int),
        meaning::host_call(f, host, v, id, x).1 == reply(f, host, v, id, x as int).value,
        only_calls(f, host, v, meaning::help(f, host, v, id, x, idx).0, id, x as int, idx),
        meaning::help(f, host, v, id, x, idx).1 == reply(f, host, v, id, x as int).value,
{
}

proof fn lemma_last_owner(count: u64)
    ensures
        (count as int % 0x4000_0000_0000_0000 == 1) <==> (!meaning::leaked(count)
            && meaning::owners(count) == 1),
{
}

proof fn lemma_release(f: Facts, host: Host, v: FrameState, obj: u64)
    ensures
        meaning::release(f, host, v, obj) == owned_once_less(f, host, v, obj),
{
    let a = count_of(f, obj);
    lemma_last_owner(v.mem[a]);
    lemma_call(f, host, written(v, a, plus(v.mem[a], -1)), HelperId::Drop, obj, 0);
}

proof fn lemma_pop(f: Facts, host: Host, v: FrameState, x: u64)
    ensures
        meaning::discard(f, host, v, x) == let_go(f, host, v, x),
        meaning::pop_top(f, host, v) == popped(f, host, v),
{
    lemma_release(f, host, v, x);
    let s = lowered(v);
    lemma_release(f, host, s, s.mem[slot(s, s.top as int)]);
}

proof fn lemma_home(v: FrameState, var: u32)
    ensures
        var as i32 == signed(var as int),
        v.local(var) == home(v, var as int),
{
    assert(var < 0x8000_0000 ==> (var as i32) == var) by (bit_vector);
    assert(var >= 0x8000_0000 ==> (var as i32) == var - 0x1_0000_0000) by (bit_vector);
}

proof fn lemma_load(f: Facts, host: Host, v: FrameState, var: u32, idx: int)
    ensures
        loaded(f, host, v, meaning::load_fast(f, host, v, var, idx), var as int, idx),
{
    lemma_home(v, var);
    lemma_call(f, host, v, HelperId::LoadFast, var as u64, idx);
}

proof fn lemma_store(f: Facts, host: Host, v: FrameState, var: u32)
    ensures
        meaning::store_fast(f, host, v, var) == stored(f, host, v, var as int),
{
    lemma_home(v, var);
    let s = lowered(v);
    let x = s.mem[slot(s, s.top as int)];
    let obj = (x - x % 2) as u64;
    let kept = if x % 2 == 1 {
        owned_once_more(f, s, obj)
    } else {
        s
    };
    assert(kept.local(var) == v.local(var));
    lemma_release(
        f,
        host,
        written(kept, home(v, var as int), obj),
        kept.mem[home(v, var as int)],
    );
}

/// The operand and the unit behind are those that the compiler finds.
proof fn lemma_operand(units: Seq<CodeUnit>, c: Cursor)
    ensures
        template::operand(units, c) == operand(units, c),
        template::next_unit(units, c.idx) == behind(units, c.idx),
{
}

/// Constants, globals, the unary operators and the shuffling of the stack are each one call of
/// the helper that is named like the instruction. Those that have an operand hand on the whole
/// of it, the others hand on zero.
pub proof fn law_plain_instructions_call_their_helper(
    f: Facts,
    host: Host,
    units: Seq<CodeUnit>,
    c: Cursor,
    v: FrameState,
)
    ensures
        ({
            let ran = meaning::instruction(f, host, units, c, v);
            let op = opcode(units, c);
            let x = operand(units, c);
            let idx = c.idx;
            &&& op == bytecode::LOAD_CONST ==> only_calls(
                f,
                host,
                v,
                ran,
                HelperId::LoadConst,
                x,
                idx,
            )
            &&& op == bytecode::LOAD_GLOBAL ==> only_calls(
                f,
                host,
                v,
                ran,
                HelperId::LoadGlobal,
                x,
                idx,
            )
            &&& op == bytecode::COPY ==> only_calls(f, host, v, ran, HelperId::Copy, x, idx)
            &&& op == bytecode::SWAP ==> only_calls(f, host, v, ran, HelperId::Swap, x, idx)
            &&& op == bytecode::TO_BOOL ==> only_calls(f, host, v, ran, HelperId::ToBool, 0, idx)
            &&& op == bytecode::UNARY_NOT ==> only_calls(
                f,
                host,
                v,
                ran,
                HelperId::UnaryNot,
                0,
                idx,
            )
            &&& op == bytecode::UNARY_NEGATIVE ==> only_calls(
                f,
                host,
                v,
                ran,
                HelperId::UnaryNegative,
                0,
                idx,
            )
            &&& op == bytecode::UNARY_INVERT ==> only_calls(
                f,
                host,
                v,
                ran,
                HelperId::UnaryInvert,
                0,
                idx,
            )
        }),
{
    reveal(meaning::instruction);
    lemma_operand(units, c);
    let x = operand(units, c) as u64;
    lemma_call(f, host, v, HelperId::LoadConst, x, c.idx);
    lemma_call(f, host, v, HelperId::LoadGlobal, x, c.idx);
    lemma_call(f, host, v, HelperId::Copy, x, c.idx);
    lemma_call(f, host, v, HelperId::Swap, x, c.idx);
    lemma_call(f, host, v, HelperId::ToBool, 0, c.idx);
    lemma_call(f, host, v, HelperId::UnaryNot, 0, c.idx);
    lemma_call(f, host, v, HelperId::UnaryNegative, 0, c.idx);
    lemma_call(f, host, v, HelperId::UnaryInvert, 0, c.idx);
}

/// The opcodes that code is made for. Every other one is left to the interpreter.
pub open spec fn compiled(op: u8) -> bool {
    ||| op == bytecode::EXTENDED_ARG
    ||| op == bytecode::CACHE
    ||| op == bytecode::NOP
    ||| op == bytecode::NOT_TAKEN
    ||| op == bytecode::LOAD_FAST
    ||| op == bytecode::LOAD_FAST_BORROW
    ||| op == bytecode::LOAD_FAST_CHECK
    ||| op == bytecode::LOAD_FAST_LOAD_FAST
    ||| op == bytecode::LOAD_FAST_BORROW_LOAD_FAST_BORROW
    ||| op == bytecode::STORE_FAST
    ||| op == bytecode::STORE_FAST_LOAD_FAST
    ||| op == bytecode::STORE_FAST_STORE_FAST
    ||| op == bytecode::LOAD_CONST
    ||| op == bytecode::LOAD_SMALL_INT
    ||| op == bytecode::LOAD_GLOBAL
    ||| op == bytecode::BINARY_OP
    ||| op == bytecode::COMPARE_OP
    ||| op == bytecode::TO_BOOL
    ||| op == bytecode::UNARY_NOT
    ||| op == bytecode::UNARY_NEGATIVE
    ||| op == bytecode::UNARY_INVERT
    ||| op == bytecode::POP_TOP
    ||| op == bytecode::END_FOR
    ||| op == bytecode::POP_ITER
    ||| op == bytecode::COPY
    ||| op == bytecode::SWAP
    ||| op == bytecode::POP_JUMP_IF_FALSE
    ||| op == bytecode::POP_JUMP_IF_TRUE
    ||| op == bytecode::POP_JUMP_IF_NONE
    ||| op == bytecode::POP_JUMP_IF_NOT_NONE
    ||| op == bytecode::FOR_ITER
    ||| op == bytecode::JUMP_FORWARD
    ||| op == bytecode::JUMP_BACKWARD
    ||| op == bytecode::JUMP_BACKWARD_NO_INTERRUPT
}

/// An instruction of any other opcode leaves at its own unit before it has changed anything;
/// among these are attributes, calls, subscripts and the end of the function. One of the
/// compiled opcodes never leaves there.
pub proof fn law_other_opcodes_are_left_to_the_interpreter(
    f: Facts,
    host: Host,
    units: Seq<CodeUnit>,
    c: Cursor,
    v: FrameState,
)
    ensures
        !compiled(opcode(units, c)) ==> meaning::instruction(f, host, units, c, v) == (Ran {
            v,
            flow: Flow::Leave(c.idx),
        }),
        !compiled(bytecode::LOAD_ATTR),
        !compiled(bytecode::STORE_ATTR),
        !compiled(bytecode::LOAD_SUPER_ATTR),
        !compiled(bytecode::CALL),
        !compiled(bytecode::CALL_KW),
        !compiled(bytecode::CALL_FUNCTION_EX),
        !compiled(bytecode::STORE_SUBSCR),
        !compiled(bytecode::CONTAINS_OP),
        !compiled(bytecode::UNPACK_SEQUENCE),
        !compiled(bytecode::SEND),
        !compiled(bytecode::YIELD_VALUE),
        !compiled(bytecode::END_SEND),
        !compiled(bytecode::END_ASYNC_FOR),
        !compiled(bytecode::RESUME),
        !compiled(bytecode::RETURN_VALUE),
{
    reveal(meaning::instruction);
}

/// The numbers of the opcodes are those of the instruction set.
pub proof fn law_opcode_numbers()
    ensures
        bytecode::CACHE == 0 && bytecode::END_FOR == 9 && bytecode::NOP == 27,
        bytecode::NOT_TAKEN == 28 && bytecode::POP_ITER == 30 && bytecode::POP_TOP == 31,
        bytecode::RETURN_VALUE == 35 && bytecode::STORE_SUBSCR == 38 && bytecode::TO_BOOL == 39,
        bytecode::UNARY_INVERT == 40 && bytecode::UNARY_NEGATIVE == 41 && bytecode::UNARY_NOT == 42,
        bytecode::BINARY_OP == 44 && bytecode::CALL == 52 && bytecode::COMPARE_OP == 56,
        bytecode::COPY == 59 && bytecode::EXTENDED_ARG == 69 && bytecode::FOR_ITER == 70,
        bytecode::JUMP_BACKWARD == 75 && bytecode::JUMP_BACKWARD_NO_INTERRUPT == 76,
        bytecode::JUMP_FORWARD == 77 && bytecode::LOAD_ATTR == 80 && bytecode::LOAD_CONST == 82,
        bytecode::LOAD_FAST == 84 && bytecode::LOAD_FAST_BORROW == 86,
        bytecode::LOAD_FAST_BORROW_LOAD_FAST_BORROW == 87 && bytecode::LOAD_FAST_CHECK == 88,
        bytecode::LOAD_FAST_LOAD_FAST == 89 && bytecode::LOAD_GLOBAL == 92,
        bytecode::LOAD_SMALL_INT == 94 && bytecode::POP_JUMP_IF_FALSE == 100,
        bytecode::POP_JUMP_IF_NONE == 101 && bytecode::POP_JUMP_IF_NOT_NONE == 102,
        bytecode::POP_JUMP_IF_TRUE == 103 && bytecode::STORE_ATTR == 110,
        bytecode::STORE_FAST == 112 && bytecode::STORE_FAST_LOAD_FAST == 113,
        bytecode::STORE_FAST_STORE_FAST == 114 && bytecode::SWAP == 117,
        bytecode::BINARY_OP_ADD_INT == 130 && bytecode::BINARY_OP_MULTIPLY_INT == 134,
        bytecode::BINARY_OP_SUBTRACT_INT == 142 && bytecode::INSTRUMENTED_END_FOR == 234,
{
}

/// An operand prefix, a cache and the two markers change nothing and go on.
pub proof fn law_markers_do_nothing(
    f: Facts,
    host: Host,
    units: Seq<CodeUnit>,
    c: Cursor,
    v: FrameState,
)
    requires
        ({
            let op = opcode(units, c);
            ||| op == bytecode::EXTENDED_ARG
            ||| op == bytecode::CACHE
            ||| op == bytecode::NOP
            ||| op == bytecode::NOT_TAKEN
        }),
    ensures
        meaning::instruction(f, host, units, c, v) == (Ran { v, flow: Flow::Next }),
{
    reveal(meaning::instruction);
}

/// Loads and stores of locals. Where the operand names two locals, its lower four bits are the
/// second and what is above them is the first; the first is done first, and a load that fails
/// is the last thing done.
#[verifier::spinoff_prover]
pub proof fn law_locals_are_loaded_and_stored(
    f: Facts,
    host: Host,
    units: Seq<CodeUnit>,
    c: Cursor,
    v: FrameState,
)
    ensures
        ({
            let ran = meaning::instruction(f, host, units, c, v);
            let op = opcode(units, c);
            let x = operand(units, c);
            let idx = c.idx;
            &&& op == bytecode::LOAD_FAST || op == bytecode::LOAD_FAST_BORROW || op
                == bytecode::LOAD_FAST_CHECK ==> loaded(f, host, v, ran, x, idx)
            &&& op == bytecode::STORE_FAST ==> ran == (Ran {
                v: stored(f, host, v, x),
                flow: Flow::Next,
            })
            &&& op == bytecode::STORE_FAST_LOAD_FAST ==> loaded(
                f,
                host,
                stored(f, host, v, x / 16),
                ran,
                x % 16,
                idx,
            )
            &&& op == bytecode::STORE_FAST_STORE_FAST ==> ran == (Ran {
                v: stored(f, host, stored(f, host, v, x / 16), x % 16),
                flow: Flow::Next,
            })
            &&& op == bytecode::LOAD_FAST_LOAD_FAST || op
                == bytecode::LOAD_FAST_BORROW_LOAD_FAST_BORROW ==> exists|first: Ran| #[trigger]
                loaded(f, host, v, first, x / 16, idx) && if first.flow is Next {
                    loaded(f, host, first.v, ran, x % 16, idx)
                } else {
                    ran == first
                }
        }),
{
    reveal(meaning::instruction);
    lemma_operand(units, c);
    let arg = template::operand(units, c);
    let idx = c.idx;
    lemma_load(f, host, v, arg, idx);
    lemma_load(f, host, v, arg / 16, idx);
    let first = meaning::load_fast(f, host, v, arg / 16, idx);
    assert(loaded(f, host, v, first, operand(units, c) / 16, idx));
    lemma_load(f, host, first.v, arg % 16, idx);
    lemma_store(f, host, v, arg);
    lemma_store(f, host, v, arg / 16);
    let mid = meaning::store_fast(f, host, v, arg / 16);
    lemma_store(f, host, mid, arg % 16);
    lemma_load(f, host, mid, arg % 16, idx);
}

/// The six instructions on locals, with the operand taken apart.
proof fn lemma_local_ops(f: Facts, host: Host, units: Seq<CodeUnit>, c: Cursor, v: FrameState)
    ensures
        ({
            let ran = meaning::instruction(f, host, units, c, v);
            let op = opcode(units, c);
            let x = template::operand(units, c);
            let first = meaning::load_fast(f, host, v, x / 16, c.idx);
            let stored = meaning::store_fast(f, host, v, x / 16);
            &&& op == bytecode::LOAD_FAST || op == bytecode::LOAD_FAST_BORROW ==> ran
                == meaning::load_fast(f, host, v, x, c.idx)
            &&& op == bytecode::STORE_FAST ==> ran == meaning::next(
                meaning::store_fast(f, host, v, x),
            )
            &&& op == bytecode::LOAD_FAST_LOAD_FAST || op
                == bytecode::LOAD_FAST_BORROW_LOAD_FAST_BORROW ==> ran == (if first.flow is Next {
                meaning::load_fast(f, host, first.v, x % 16, c.idx)
            } else {
                first
            })
            &&& op == bytecode::STORE_FAST_LOAD_FAST ==> ran == meaning::load_fast(
                f,
                host,
                stored,
                x % 16,
                c.idx,
            )
            &&& op == bytecode::STORE_FAST_STORE_FAST ==> ran == meaning::next(
                meaning::store_fast(f, host, stored, x % 16),
            )
        }),
{
    reveal(meaning::instruction);
}

/// An instruction that names two locals does what the two instructions do that name one each,
/// one after the other at the same unit; the second is not run if the first has left.
pub proof fn law_two_locals_are_one_and_one(
    f: Facts,
    host: Host,
    both: Seq<CodeUnit>,
    c: Cursor,
    one: Seq<CodeUnit>,
    c1: Cursor,
    other: Seq<CodeUnit>,
    c2: Cursor,
    v: FrameState,
)
    requires
        c1.idx == c.idx,
        c2.idx == c.idx,
        operand(both, c) == 16 * operand(one, c1) + operand(other, c2),
        operand(other, c2) < 16,
        ({
            let (op, op1, op2) = (opcode(both, c), opcode(one, c1), opcode(other, c2));
            ||| op == bytecode::STORE_FAST_LOAD_FAST && op1 == bytecode::STORE_FAST && op2
                == bytecode::LOAD_FAST
            ||| op == bytecode::STORE_FAST_STORE_FAST && op1 == bytecode::STORE_FAST && op2
                == bytecode::STORE_FAST
            ||| op == bytecode::LOAD_FAST_LOAD_FAST && op1 == bytecode::LOAD_FAST && op2
                == bytecode::LOAD_FAST
            ||| op == bytecode::LOAD_FAST_BORROW_LOAD_FAST_BORROW && op1
                == bytecode::LOAD_FAST_BORROW && op2 == bytecode::LOAD_FAST_BORROW
        }),
    ensures
        ({
            let first = meaning::instruction(f, host, one, c1, v);
            meaning::instruction(f, host, both, c, v) == (if first.flow is Next {
                meaning::instruction(f, host, other, c2, first.v)
            } else {
                first
            })
        }),
{
    lemma_operand(both, c);
    lemma_operand(one, c1);
    lemma_operand(other, c2);
    assert(template::operand(both, c) / 16 == template::operand(one, c1));
    assert(template::operand(both, c) % 16 == template::operand(other, c2));
    lemma_local_ops(f, host, both, c, v);
    lemma_local_ops(f, host, one, c1, v);
    lemma_local_ops(f, host, other, c2, meaning::instruction(f, host, one, c1, v).v);
}

/// A small int that is interned is pushed as a borrowed value, without any call; another one is
/// left to the helper. The operand is read as a signed number of 32 bits.
pub proof fn law_small_ints_are_pushed(
    f: Facts,
    host: Host,
    units: Seq<CodeUnit>,
    c: Cursor,
    v: FrameState,
)
    requires
        opcode(units, c) == bytecode::LOAD_SMALL_INT,
    ensures
        ({
            let ran = meaning::instruction(f, host, units, c, v);
            let x = operand(units, c);
            match (f.small_int)(signed(x) as i32) {
                Some(ptr) => {
                    &&& ran.flow is Next
                    &&& ran.v == topped(v, ptr | 1)
                    &&& ptr % 2 == 0 ==> (ptr | 1) == ptr + 1
                },
                None => only_calls(f, host, v, ran, HelperId::LoadSmallInt, x, c.idx),
            }
        }),
{
    reveal(meaning::instruction);
    lemma_operand(units, c);
    let arg = template::operand(units, c);
    lemma_home(v, arg);
    lemma_call(f, host, v, HelperId::LoadSmallInt, arg as u64, c.idx);
    assert forall|ptr: u64| ptr % 2 == 0 implies (#[trigger] (ptr | 1)) == ptr + 1 by {
        assert(ptr % 2 == 0 ==> (ptr | 1) == ptr + 1) by (bit_vector);
    }
}

/// A binary operation calls the generic helper with the operand of the instruction. Where it
/// was specialized to the addition, subtraction or multiplication of ints, the fast helper is
/// called with that operand before, and the generic one only if the fast one has missed.
pub proof fn law_binary_operations(
    f: Facts,
    host: Host,
    units: Seq<CodeUnit>,
    c: Cursor,
    v: FrameState,
)
    requires
        opcode(units, c) == bytecode::BINARY_OP,
    ensures
        ({
            let ran = meaning::instruction(f, host, units, c, v);
            let op = units[c.idx].op;
            let x = operand(units, c);
            if op == bytecode::BINARY_OP_ADD_INT || op == bytecode::BINARY_OP_SUBTRACT_INT || op
                == bytecode::BINARY_OP_MULTIPLY_INT {
                if reply(f, host, v, HelperId::BinaryOpIntFast, x).value == FAST_PATH_MISS {
                    only_calls(
                        f,
                        host,
                        answered(f, host, v, HelperId::BinaryOpIntFast, x),
                        ran,
                        HelperId::BinaryOp,
                        x,
                        c.idx,
                    )
                } else {
                    only_calls(f, host, v, ran, HelperId::BinaryOpIntFast, x, c.idx)
                }
            } else {
                only_calls(f, host, v, ran, HelperId::BinaryOp, x, c.idx)
            }
        }),
{
    reveal(meaning::instruction);
    lemma_operand(units, c);
    let x = operand(units, c) as u64;
    lemma_call(f, host, v, HelperId::BinaryOpIntFast, x, c.idx);
    let missed = answered(f, host, v, HelperId::BinaryOpIntFast, x as int);
    lemma_call(f, host, missed, HelperId::BinaryOp, x, c.idx);
    lemma_call(f, host, v, HelperId::BinaryOp, x, c.idx);
}

/// The calls of arithmetic that was specialized to ints: the fast helper with the operand, and
/// where its answer is a miss the generic one with the same operand, and no other.
pub proof fn law_calls_of_int_arithmetic(
    f: Facts,
    host: Host,
    v: FrameState,
    arg: u32,
    idx: int,
)
    ensures
        ({
            let ran = meaning::binary_op_int(f, host, v, arg, idx);
            let fast = Call {
                helper: (f.helpers)(HelperId::BinaryOpIntFast),
                first: v.ctx,
                second: arg as u64,
            };
            let generic = Call {
                helper: (f.helpers)(HelperId::BinaryOp),
                first: v.ctx,
                second: arg as u64,
            };
            let missed = reply(f, host, v, HelperId::BinaryOpIntFast, arg as int).value
                == FAST_PATH_MISS;
            ran.v.calls == (if missed {
                v.calls.push(fast).push(generic)
            } else {
                v.calls.push(fast)
            })
        }),
{
    lemma_call(f, host, v, HelperId::BinaryOpIntFast, arg as u64, idx);
    let missed = answered(f, host, v, HelperId::BinaryOpIntFast, arg as int);
    lemma_call(f, host, missed, HelperId::BinaryOp, arg as u64, idx);
}

/// The calls of a comparison: the fast helper comes first, with the operand; where its answer is
/// a miss the generic helper comes next, with the same operand, and then at most the one that
/// pops the result for a jump. An answer is a miss exactly if it is `FAST_PATH_MISS`.
pub proof fn law_calls_of_a_comparison(
    f: Facts,
    host: Host,
    v: FrameState,
    arg: u32,
    idx: int,
    fused: Option<template::Fused>,
)
    ensures
        ({
            let ran = meaning::compare_op(f, host, v, arg, idx, fused);
            let n = v.calls.len() as int;
            let fast = Call {
                helper: (f.helpers)(HelperId::CompareFast),
                first: v.ctx,
                second: arg as u64,
            };
            let generic = Call {
                helper: (f.helpers)(HelperId::CompareOp),
                first: v.ctx,
                second: arg as u64,
            };
            let truth = Call {
                helper: (f.helpers)(HelperId::PopIsTrue),
                first: v.ctx,
                second: 0,
            };
            let first = reply(f, host, v, HelperId::CompareFast, arg as int);
            let w = answered(f, host, v, HelperId::CompareFast, arg as int);
            let compared = v.calls.push(fast).push(generic);
            first.value == FAST_PATH_MISS ==> ran.v.calls == (if fused is Some && !fails(
                reply(f, host, w, HelperId::CompareOp, arg as int),
            ) {
                compared.push(truth)
            } else {
                compared
            })
        }),
{
    lemma_call(f, host, v, HelperId::CompareFast, arg as u64, idx);
    let w = answered(f, host, v, HelperId::CompareFast, arg as int);
    lemma_call(f, host, w, HelperId::CompareOp, arg as u64, idx);
    let w2 = answered(f, host, w, HelperId::CompareOp, arg as int);
    lemma_call(f, host, w2, HelperId::PopIsTrue, 0, idx);
}

/// The instruction at the unit is a jump on a truth: which one it jumps on.
pub open spec fn jumps_on(units: Seq<CodeUnit>, i: int) -> Option<bool> {
    if i >= units.len() {
        None
    } else if bytecode::base_op(units[i].op) == bytecode::POP_JUMP_IF_TRUE {
        Some(true)
    } else if bytecode::base_op(units[i].op) == bytecode::POP_JUMP_IF_FALSE {
        Some(false)
    } else {
        None
    }
}

/// What follows a comparison with the result `yes`, where the jump behind it at unit `i` jumps
/// on `on`: its target is counted by its own byte alone.
pub open spec fn decided(f: Facts, units: Seq<CodeUnit>, i: int, on: bool, yes: bool) -> Flow {
    going(
        f,
        if yes == on {
            behind(units, i) + units[i].arg
        } else {
            behind(units, i)
        },
    )
}

/// A comparison asks the fast helper, which leaves the operands on the stack. With a result they
/// are popped, and the result is pushed as a borrowed singleton. With a miss the generic helper
/// does it all. Where a jump on a truth follows, no result is left on the stack, and the jump is
/// done as well.
#[verifier::spinoff_prover]
#[verifier::rlimit(40)]
pub proof fn law_comparisons(
    f: Facts,
    host: Host,
    units: Seq<CodeUnit>,
    c: Cursor,
    v: FrameState,
)
    requires
        opcode(units, c) == bytecode::COMPARE_OP,
    ensures
        ({
            let ran = meaning::instruction(f, host, units, c, v);
            let x = operand(units, c);
            let jump = behind(units, c.idx);
            let r = reply(f, host, v, HelperId::CompareFast, x);
            let w = answered(f, host, v, HelperId::CompareFast, x);
            let r2 = reply(f, host, w, HelperId::CompareOp, x);
            let w2 = answered(f, host, w, HelperId::CompareOp, x);
            let r3 = reply(f, host, w2, HelperId::PopIsTrue, 0);
            let w3 = answered(f, host, w2, HelperId::PopIsTrue, 0);
            let bare = popped(f, host, popped(f, host, w));
            let failure = Flow::Leave(c.idx + 1);
            if fails(r) {
                ran == (Ran { v: w, flow: failure })
            } else if r.value != FAST_PATH_MISS {
                match jumps_on(units, jump) {
                    Some(on) => ran == (Ran {
                        v: bare,
                        flow: decided(f, units, jump, on, r.value == 1),
                    }),
                    None => ran == (Ran {
                        v: topped(
                            bare,
                            if r.value == 1 {
                                f.true_ptr | 1
                            } else {
                                f.false_ptr | 1
                            },
                        ),
                        flow: Flow::Next,
                    }),
                }
            } else if fails(r2) {
                ran == (Ran { v: w2, flow: failure })
            } else {
                match jumps_on(units, jump) {
                    Some(on) => if fails(r3) {
                        ran == (Ran { v: w3, flow: failure })
                    } else {
                        ran == (Ran { v: w3, flow: decided(f, units, jump, on, r3.value == 1) })
                    },
                    None => ran == (Ran { v: w2, flow: Flow::Next }),
                }
            }
        }),
{
    reveal(meaning::instruction);
    lemma_operand(units, c);
    let x = operand(units, c) as u64;
    let idx = c.idx;
    lemma_call(f, host, v, HelperId::CompareFast, x, idx);
    let w = answered(f, host, v, HelperId::CompareFast, x as int);
    lemma_call(f, host, w, HelperId::CompareOp, x, idx);
    let w2 = answered(f, host, w, HelperId::CompareOp, x as int);
    lemma_call(f, host, w2, HelperId::PopIsTrue, 0, idx);
    lemma_pop(f, host, w, 0);
    lemma_pop(f, host, popped(f, host, w), 0);
}

/// Popping is the same for the three instructions that do it: what was on top is let go.
pub proof fn law_pops(f: Facts, host: Host, units: Seq<CodeUnit>, c: Cursor, v: FrameState)
    requires
        ({
            let op = opcode(units, c);
            ||| op == bytecode::POP_TOP
            ||| op == bytecode::END_FOR
            ||| op == bytecode::POP_ITER
        }),
    ensures
        meaning::instruction(f, host, units, c, v) == (Ran {
            v: popped(f, host, v),
            flow: Flow::Next,
        }),
{
    reveal(meaning::instruction);
    lemma_pop(f, host, v, 0);
}

/// A jump on a truth pops the value. It asks the helper only of a value that is neither of the
/// two singletons, owned or borrowed; the answer one is true. The target lies as many units
/// behind the caches of the jump as the operand says.
#[verifier::spinoff_prover]
pub proof fn law_jumps_on_a_truth(
    f: Facts,
    host: Host,
    units: Seq<CodeUnit>,
    c: Cursor,
    v: FrameState,
    on: bool,
)
    requires
        opcode(units, c) == (if on {
            bytecode::POP_JUMP_IF_TRUE
        } else {
            bytecode::POP_JUMP_IF_FALSE
        }),
        f.true_ptr != f.false_ptr,
    ensures
        ({
            let ran = meaning::instruction(f, host, units, c, v);
            let x = v.mem[slot(v, v.top - 1)];
            let obj = x - x % 2;
            let taken = going(f, behind(units, c.idx) + operand(units, c));
            let bare = let_go(f, host, lowered(v), x);
            let r = reply(f, host, v, HelperId::PopIsTrue, 0);
            let w = answered(f, host, v, HelperId::PopIsTrue, 0);
            if obj == f.true_ptr {
                ran == (Ran {
                    v: bare,
                    flow: if on {
                        taken
                    } else {
                        Flow::Next
                    },
                })
            } else if obj == f.false_ptr {
                ran == (Ran {
                    v: bare,
                    flow: if on {
                        Flow::Next
                    } else {
                        taken
                    },
                })
            } else {
                ran == (Ran {
                    v: w,
                    flow: if fails(r) {
                        Flow::Leave(c.idx + 1)
                    } else if (r.value == 1) == on {
                        taken
                    } else {
                        Flow::Next
                    },
                })
            }
        }),
{
    reveal(meaning::instruction);
    lemma_operand(units, c);
    lemma_call(f, host, v, HelperId::PopIsTrue, 0, c.idx);
    lemma_pop(f, host, lowered(v), v.mem[slot(v, v.top - 1)]);
}

/// A jump on none pops the value and lets it go, and never asks a helper what it is: it is none
/// exactly if it is that object, owned or borrowed.
pub proof fn law_jumps_on_none(
    f: Facts,
    host: Host,
    units: Seq<CodeUnit>,
    c: Cursor,
    v: FrameState,
    on: bool,
)
    requires
        opcode(units, c) == (if on {
            bytecode::POP_JUMP_IF_NONE
        } else {
            bytecode::POP_JUMP_IF_NOT_NONE
        }),
    ensures
        ({
            let ran = meaning::instruction(f, host, units, c, v);
            let s = lowered(v);
            let x = s.mem[slot(s, s.top as int)];
            &&& ran.v == let_go(f, host, s, x)
            &&& ran.flow == (if on == (x - x % 2 == f.none_ptr) {
                going(f, behind(units, c.idx) + operand(units, c))
            } else {
                Flow::Next
            })
        }),
{
    reveal(meaning::instruction);
    lemma_operand(units, c);
    let s = lowered(v);
    lemma_pop(f, host, s, s.mem[slot(s, s.top as int)]);
}

/// A step of a loop asks the helper, and hands it the unit that the operand names. The answer
/// one says that the iterator has run out: the loop goes to that unit, and past a marker of its
/// end, instrumented or not, if there is one.
pub proof fn law_loops(f: Facts, host: Host, units: Seq<CodeUnit>, c: Cursor, v: FrameState)
    requires
        opcode(units, c) == bytecode::FOR_ITER,
        0 <= c.idx < units.len() <= codegen::MAX_UNITS,
    ensures
        ({
            let ran = meaning::instruction(f, host, units, c, v);
            let end = behind(units, c.idx) + operand(units, c);
            let marked = end < units.len() && (units[end].op == bytecode::END_FOR || units[end].op
                == bytecode::INSTRUMENTED_END_FOR);
            let r = reply(f, host, v, HelperId::ForIter, end);
            &&& ran.v == answered(f, host, v, HelperId::ForIter, end)
            &&& ran.flow == (if fails(r) {
                Flow::Leave(c.idx + 1)
            } else if r.value != 1 {
                Flow::Next
            } else if marked {
                going(f, end + 1)
            } else {
                going(f, end)
            })
        }),
{
    reveal(meaning::instruction);
    lemma_operand(units, c);
    let end = behind(units, c.idx) + operand(units, c);
    lemma_call(f, host, v, HelperId::ForIter, end as u64, c.idx);
}

/// The jumps without a condition: the distance is the operand, counted from behind the caches
/// of the jump. Only the backward jump with an interrupt does anything else: it counts down the
/// word of the context, and when that comes to zero asks the eval breaker and begins a count of
/// 64.
pub proof fn law_plain_jumps(f: Facts, host: Host, units: Seq<CodeUnit>, c: Cursor, v: FrameState)
    ensures
        ({
            let ran = meaning::instruction(f, host, units, c, v);
            let op = opcode(units, c);
            let ahead = going(f, behind(units, c.idx) + operand(units, c));
            let back = going(f, behind(units, c.idx) - operand(units, c));
            let a = offset(v.ctx, 32);
            let left = plus(v.mem[a], -1);
            let counted = written(v, a, left);
            let r = reply(f, host, counted, HelperId::EvalBreaker, 0);
            let w = answered(f, host, counted, HelperId::EvalBreaker, 0);
            &&& op == bytecode::JUMP_FORWARD ==> ran == (Ran { v, flow: ahead })
            &&& op == bytecode::JUMP_BACKWARD_NO_INTERRUPT ==> ran == (Ran { v, flow: back })
            &&& op == bytecode::JUMP_BACKWARD ==> if left != 0 {
                ran == (Ran { v: counted, flow: back })
            } else if fails(r) {
                ran == (Ran { v: w, flow: Flow::Leave(c.idx + 1) })
            } else {
                ran == (Ran { v: written(w, a, 64), flow: back })
            }
        }),
{
    reveal(meaning::instruction);
    lemma_operand(units, c);
    let a = offset(v.ctx, 32);
    let counted = written(v, a, plus(v.mem[a], -1));
    lemma_call(f, host, counted, HelperId::EvalBreaker, 0, c.idx);
}

/// Where the scan of the units stands after so many of them, from the first on.
pub open spec fn scanned(units: Seq<CodeUnit>, n: nat) -> Cursor
    decreases n,
{
    if n == 0 {
        Cursor { idx: 0, pending: 0, fused: false }
    } else {
        template::advance(units, scanned(units, (n - 1) as nat))
    }
}

/// The scan goes from an instruction to the one behind its caches. Only an operand prefix hands
/// bytes on, all that it has and its own. A jump on a truth directly behind a comparison belongs
/// to it, and nothing else does.
pub proof fn law_scan_steps(units: Seq<CodeUnit>, c: Cursor)
    ensures
        ({
            let n = template::advance(units, c);
            &&& n.idx == behind(units, c.idx)
            &&& !c.fused ==> n.pending == (if opcode(units, c) == bytecode::EXTENDED_ARG {
                operand(units, c)
            } else {
                0
            })
            &&& n.fused == (!c.fused && opcode(units, c) == bytecode::COMPARE_OP && jumps_on(
                units,
                n.idx,
            ) is Some)
        }),
{
}

/// The number that so many operand bytes make, which stand in the units before unit `i`.
pub open spec fn prefixed(units: Seq<CodeUnit>, i: int, n: nat) -> int
    decreases n,
{
    if n == 0 {
        0
    } else {
        prefixed(units, i - 1, (n - 1) as nat) * 0x100 + units[i - 1].arg
    }
}

/// How many operand prefixes stand directly before a unit of the scan.
pub open spec fn prefixes(units: Seq<CodeUnit>, n: nat) -> nat
    decreases n,
{
    if n == 0 {
        0
    } else {
        let c = scanned(units, (n - 1) as nat);
        if !c.fused && opcode(units, c) == bytecode::EXTENDED_ARG {
            prefixes(units, (n - 1) as nat) + 1
        } else {
            0
        }
    }
}

#[verifier::spinoff_prover]
proof fn lemma_mod_step(a: int, b: int)
    ensures
        (a % 0x1_0000_0000 % 0x100_0000 * 0x100 + b) % 0x1_0000_0000 == (a * 0x100 + b)
            % 0x1_0000_0000,
{
    let q = a / 0x100_0000;
    let r = a % 0x100_0000;
    vstd::arithmetic::div_mod::lemma_mod_mod(a, 0x100_0000, 0x100);
    assert(a == 0x100_0000 * q + r);
    vstd::arithmetic::div_mod::lemma_mod_multiples_vanish(q, r * 0x100 + b, 0x1_0000_0000);
}

/// The operand of an instruction is its own byte and those of the prefixes directly before it,
/// the first the most significant; of more than four bytes the last four count. Whatever came
/// before these plays no part.
pub proof fn law_operands_gather_their_prefixes(units: Seq<CodeUnit>, n: nat)
    ensures
        ({
            let c = scanned(units, n);
            let k = prefixes(units, n);
            &&& c.pending == prefixed(units, c.idx, k) % 0x1_0000_0000
            &&& operand(units, c) == prefixed(units, c.idx + 1, k + 1) % 0x1_0000_0000
            &&& forall|i: int|
                c.idx - k <= i < c.idx ==> (#[trigger] units[i]).op == bytecode::EXTENDED_ARG
            &&& c.fused ==> k == 0
        }),
    decreases n,
{
    let c = scanned(units, n);
    let k = prefixes(units, n);
    if n > 0 {
        let before = (n - 1) as nat;
        law_operands_gather_their_prefixes(units, before);
        law_scan_steps(units, scanned(units, before));
    }
    assert(prefixed(units, c.idx + 1, k + 1) == prefixed(units, c.idx, k) * 0x100
        + units[c.idx].arg);
    lemma_mod_step(prefixed(units, c.idx, k), units[c.idx].arg as int);
    assert(0 <= operand(units, c) < 0x1_0000_0000);
}

proof fn lemma_seek(units: Seq<CodeUnit>, n: nat, m: nat, t: int)
    requires
        m <= n,
        t <= units.len(),
        forall|i: nat| m <= i < n ==> (#[trigger] scanned(units, i)).idx < t,
        forall|i: nat| m <= i < n ==> 0 <= (#[trigger] scanned(units, i)).idx,
        scanned(units, n).idx >= t,
    ensures
        meaning::seek(units, scanned(units, m), t) == scanned(units, n),
    decreases n - m,
{
    if m < n {
        assert(scanned(units, m).idx < t);
        assert(scanned(units, m + 1) == template::advance(units, scanned(units, m)));
        lemma_seek(units, n, m + 1, t);
    }
}

proof fn lemma_scan_grows(units: Seq<CodeUnit>, n: nat)
    ensures
        scanned(units, n).idx >= n,
    decreases n,
{
    if n > 0 {
        lemma_scan_grows(units, (n - 1) as nat);
        law_scan_steps(units, scanned(units, (n - 1) as nat));
    }
}

/// What is run when a unit is entered is the first instruction of the scan that stands there or
/// behind it.
pub proof fn law_entering_a_unit(units: Seq<CodeUnit>, t: int, n: nat)
    requires
        t <= units.len(),
        scanned(units, n).idx >= t,
        forall|i: nat| i < n ==> (#[trigger] scanned(units, i)).idx < t,
    ensures
        meaning::entry(units, t) == scanned(units, n),
{
    assert forall|i: nat| 0 <= i < n implies 0 <= (#[trigger] scanned(units, i)).idx by {
        lemma_scan_grows(units, i);
    }
    assert(scanned(units, 0) == template::start());
    lemma_seek(units, n, 0, t);
}

/// A run does one instruction after the other. It leaves with the number of units at their end,
/// with its own unit at a jump that belongs to the comparison before it, and else with the unit
/// that an instruction has left at.
pub proof fn law_runs_go_step_by_step(
    f: Facts,
    host: Host,
    units: Seq<CodeUnit>,
    fuel: nat,
    c: Cursor,
    v: FrameState,
)
    ensures
        c.idx >= units.len() ==> meaning::run_units(f, host, units, fuel, c, v) == Some(
            (v, units.len() as int),
        ),
        c.idx < units.len() && c.fused ==> meaning::run_units(f, host, units, fuel, c, v) == Some(
            (v, c.idx),
        ),
        c.idx < units.len() && !c.fused ==> ({
            let ran = meaning::instruction(f, host, units, c, v);
            meaning::run_units(f, host, units, fuel + 1, c, v) == (match ran.flow {
                Flow::Leave(t) => Some((ran.v, t)),
                Flow::Goto(t) => meaning::run_units(
                    f,
                    host,
                    units,
                    fuel,
                    meaning::entry(units, t),
                    ran.v,
                ),
                Flow::Next => meaning::run_units(
                    f,
                    host,
                    units,
                    fuel,
                    template::advance(units, c),
                    ran.v,
                ),
            })
        }),
{
}

/// The operand keeps the units from being compiled: it names a local whose distance is no
/// number of 32 bits, or a backward jump to before the first unit. No other instruction does.
pub open spec fn refused(units: Seq<CodeUnit>, c: Cursor) -> bool {
    let op = opcode(units, c);
    let x = operand(units, c);
    ||| (op == bytecode::LOAD_FAST || op == bytecode::LOAD_FAST_BORROW || op
        == bytecode::LOAD_FAST_CHECK || op == bytecode::STORE_FAST) && !(-0x8000_0000 <= 8 * signed(
        x,
    ) < 0x8000_0000)
    ||| (op == bytecode::LOAD_FAST_LOAD_FAST || op == bytecode::LOAD_FAST_BORROW_LOAD_FAST_BORROW
        || op == bytecode::STORE_FAST_LOAD_FAST || op == bytecode::STORE_FAST_STORE_FAST) && !(8 * (
    x / 16) < 0x8000_0000)
    ||| (op == bytecode::JUMP_BACKWARD || op == bytecode::JUMP_BACKWARD_NO_INTERRUPT) && behind(
        units,
        c.idx,
    ) - x < 0
}

proof fn lemma_refused(units: Seq<CodeUnit>, c: Cursor)
    ensures
        template::operand_fits(units, c) == !refused(units, c),
{
    lemma_operand(units, c);
    let x = template::operand(units, c);
    assert(x < 0x8000_0000 ==> (x as i32) == x) by (bit_vector);
    assert(x >= 0x8000_0000 ==> (x as i32) == x - 0x1_0000_0000) by (bit_vector);
    assert((x / 16) < 0x8000_0000 ==> ((x / 16) as i32) == x / 16) by (bit_vector);
}

proof fn lemma_operands_fit(units: Seq<CodeUnit>, n: nat)
    ensures
        template::operands_fit(units, scanned(units, n)) <==> (forall|i: nat|
            n <= i && (#[trigger] scanned(units, i)).idx < units.len() && !scanned(units, i).fused
                ==> !refused(units, scanned(units, i))),
    decreases template::remaining(units, scanned(units, n).idx),
{
    let c = scanned(units, n);
    lemma_scan_grows(units, n);
    lemma_refused(units, c);
    law_scan_steps(units, c);
    if c.idx < units.len() {
        assert(scanned(units, n + 1) == template::advance(units, c));
        lemma_operands_fit(units, n + 1);
        if template::operands_fit(units, c) {
            assert forall|i: nat|
                n <= i && (#[trigger] scanned(units, i)).idx < units.len() && !scanned(
                    units,
                    i,
                ).fused implies !refused(units, scanned(units, i)) by {
                if i > n {
                    assert(n + 1 <= i);
                }
            }
        }
    } else {
        assert forall|i: nat| n <= i implies (#[trigger] scanned(units, i)).idx >= units.len() by {
            lemma_scan_stays(units, n, i);
        }
    }
}

proof fn lemma_scan_stays(units: Seq<CodeUnit>, n: nat, i: nat)
    requires
        n <= i,
    ensures
        scanned(units, i).idx >= scanned(units, n).idx,
    decreases i - n,
{
    if n < i {
        lemma_scan_stays(units, n, (i - 1) as nat);
        law_scan_steps(units, scanned(units, (i - 1) as nat));
    }
}

/// Units are refused for their operands exactly if one of the instructions that are compiled has
/// an operand that cannot be.
pub proof fn law_which_operands_are_refused(units: Seq<CodeUnit>)
    ensures
        template::operands_fit(units, template::start()) <==> (forall|i: nat|
            (#[trigger] scanned(units, i)).idx < units.len() && !scanned(units, i).fused
                ==> !refused(units, scanned(units, i))),
{
    lemma_operands_fit(units, 0);
    assert(scanned(units, 0) == template::start());
}

/// What is baked into code is what the environment and the table say, each under its own name.
pub proof fn law_code_bakes_in_its_environment<F: Fn(i32) -> Option<u64>>(
    helpers: HelperTable,
    env: Env<F>,
    abi: Abi,
    len: nat,
    id: HelperId,
    i: i32,
    r: Option<u64>,
)
    requires
        env.wf(),
    ensures
        ({
            let f = codegen::facts(helpers, env, abi, len);
            &&& (f.helpers)(id) == helpers.at(id)
            &&& f.refcount_offset == env.refcount_offset
            &&& f.true_ptr == env.true_ptr
            &&& f.false_ptr == env.false_ptr
            &&& f.none_ptr == env.none_ptr
            &&& call_ensures(env.small_int, (i,), r) ==> (f.small_int)(i) == r
            &&& f.abi == abi
            &&& f.len == len
        }),
{
    if call_ensures(env.small_int, (i,), r) {
        assert(call_ensures(env.small_int, (i,), env.interned(i)));
    }
}

/// What the caller of compiled code gets. The context is five words: behind the first, which is
/// the helpers' own, the address of the locals, the address of the shared height of the stack,
/// the number of locals, and the count of back-edges. The stack begins behind the locals. If
/// running the units from the entry on that frame comes to unit `lasti`, the code returns that
/// number, with memory and the calls as the units leave them and the height of the stack in its
/// shared word, and the registers that belong to the caller are as they were.
pub proof fn law_what_the_caller_gets(
    image: codegen::Image,
    f: Facts,
    units: Seq<CodeUnit>,
    w: World,
    ctx: u64,
    entry: int,
    before: Machine,
    fuel: nat,
    v: FrameState,
    lasti: int,
)
    requires
        f.len == units.len(),
        codegen::accepts(f, units),
        image.is_code_of(f, units),
        image.code@.len() <= u32::MAX,
        w.code == image.code@,
        w.abi == f.abi,
        w.address + w.code.len() <= u64::MAX,
        0 <= entry < units.len(),
        simulate::entered(w, before, ctx, (w.address + image.offsets@[entry]) as u64),
        ({
            let locals = before.mem[offset(ctx, 8)];
            meaning::run_units(
                f,
                w.host,
                units,
                fuel,
                meaning::entry(units, entry),
                FrameState {
                    ctx,
                    locals,
                    stack: offset(locals, 8 * before.mem[offset(ctx, 24)]),
                    top: before.half[before.mem[offset(ctx, 16)]] as u64,
                    mem: before.mem,
                    half: before.half,
                    calls: before.calls,
                },
            ) == Some((v, lasti))
        }),
    ensures
        exists|after: Machine| #[trigger]
            machine::comes_back(w, machine::State { pc: 0, m: before }, after) && {
                &&& after.regs[Reg::Rax] == lasti as u64
                &&& after.mem == v.mem
                &&& after.half == v.half.insert(
                    v.mem[offset(v.ctx, 16)],
                    (v.top as int % 0x1_0000_0000) as u32,
                )
                &&& after.calls == v.calls
                &&& after.regs[Reg::Rbx] == before.regs[Reg::Rbx]
                &&& after.regs[Reg::Rbp] == before.regs[Reg::Rbp]
                &&& after.regs[Reg::Rsp] == before.regs[Reg::Rsp]
                &&& after.regs[Reg::R12] == before.regs[Reg::R12]
                &&& after.regs[Reg::R13] == before.regs[Reg::R13]
                &&& after.regs[Reg::R14] == before.regs[Reg::R14]
                &&& after.regs[Reg::R15] == before.regs[Reg::R15]
                &&& w.abi == Abi::Windows ==> after.regs[Reg::Rsi] == before.regs[Reg::Rsi]
                    && after.regs[Reg::Rdi] == before.regs[Reg::Rdi]
            },
{
    simulate::law_compiled_code_runs_the_bytecode(
        image,
        f,
        units,
        w,
        ctx,
        entry,
        before,
        fuel,
        v,
        lasti,
    );
    let after = choose|after: Machine| #[trigger]
        machine::comes_back(w, machine::State { pc: 0, m: before }, after) && simulate::finished(
            w.abi,
            before,
            after,
            v,
            lasti as u64,
        );
    assert(w.abi.keeps(Reg::Rbx) && w.abi.keeps(Reg::Rbp) && w.abi.keeps(Reg::Rsp));
    assert(after.regs[Reg::Rbx] == before.regs[Reg::Rbx]);
    assert(machine::comes_back(w, machine::State { pc: 0, m: before }, after));
}

/// The code is entered with the context as the first argument and the address of the unit as
/// the second, in the registers of the convention.
pub proof fn law_arguments_of_the_code(w: World, m: Machine, first: u64, second: u64)
    requires
        simulate::entered(w, m, first, second),
    ensures
        w.abi == Abi::SystemV ==> m.regs[Reg::Rdi] == first && m.regs[Reg::Rsi] == second,
        w.abi == Abi::Windows ==> m.regs[Reg::Rcx] == first && m.regs[Reg::Rdx] == second,
{
}

} // verus!
