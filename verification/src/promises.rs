//! What running bytecode promises: owners are counted, helpers are asked when they must be,
//! and the interpreter resumes at the right unit.
use crate::bytecode;
use crate::bytecode::CodeUnit;
use crate::codegen::{HelperId, JitContext, BORROW_TAG, BREAKER_INTERVAL};
use crate::machine;
use crate::machine::{Call, Host};
use crate::meaning;
use crate::meaning::{Flow, FrameState};
use crate::opcodes;
use crate::simulate;
use crate::template;
use crate::template::{
    Cursor, Facts, CTX_BREAKER, CTX_LOCALS, CTX_NLOCALSPLUS, CTX_STACK_TOP,
};
use vstd::prelude::*;

verus! {

/// A helper is called once more, with the operand.
pub open spec fn one_more_call(
    f: Facts,
    before: FrameState,
    after: FrameState,
    id: HelperId,
    arg: u64,
) -> bool {
    after.calls == before.calls.push(
        Call { helper: (f.helpers)(id), first: before.ctx, second: arg },
    )
}

/// A value that is pushed is the one that is popped, and the stack is as high as before.
pub proof fn law_pop_undoes_push(v: FrameState, x: u64)
    ensures
        v.push(x).shrink().top == v.top,
        v.push(x).shrink().freed() == x,
        v.push(x).peek() == x || v.top == u64::MAX,
{
    assert(machine::wrap(machine::wrap(v.top + 1) - 1) == v.top);
}

/// A helper finds the height of the stack in the shared word, and what it leaves there is the
/// height afterwards.
pub proof fn law_helpers_share_the_stack_height(
    f: Facts,
    host: Host,
    v: FrameState,
    id: HelperId,
    arg: u64,
)
    requires
        v.top <= u32::MAX,
    ensures
        v.published().half[v.shared()] == v.top,
        ({
            let (after, value) = meaning::host_call(f, host, v, id, arg);
            let calls = v.calls.push(
                Call { helper: (f.helpers)(id), first: v.ctx, second: arg },
            );
            let reply = host(calls, v.mem, v.published().half);
            &&& one_more_call(f, v, after, id, arg)
            &&& value == reply.value
            &&& after.mem == reply.mem
            &&& after.half == reply.half
            &&& after.top == reply.half[after.shared()]
        }),
{
}

/// Loading a local that is set asks no helper: the object has one owner more and is on top of
/// the stack.
pub proof fn law_load_fast_owns_what_it_pushes(
    f: Facts,
    host: Host,
    v: FrameState,
    var: u32,
    idx: int,
)
    requires
        v.mem[v.local(var)] != 0,
        meaning::count_at(f, v.mem[v.local(var)]) != v.slot(v.top as int),
    ensures
        ({
            let x = v.mem[v.local(var)];
            let a = meaning::count_at(f, x);
            let ran = meaning::load_fast(f, host, v, var, idx);
            &&& ran.flow is Next
            &&& ran.v.calls == v.calls
            &&& ran.v.top == machine::wrap(v.top + 1)
            &&& ran.v.mem == v.mem.insert(a, machine::wrap(v.mem[a] + 1)).insert(
                v.slot(v.top as int),
                x,
            )
            &&& ran.v.mem[a] == machine::wrap(v.mem[a] + 1)
        }),
{
}

/// Loading a local that is not set is left to the helper.
pub proof fn law_load_fast_of_nothing_asks_the_helper(
    f: Facts,
    host: Host,
    v: FrameState,
    var: u32,
    idx: int,
)
    requires
        v.mem[v.local(var)] == 0,
    ensures
        one_more_call(
            f,
            v,
            meaning::load_fast(f, host, v, var, idx).v,
            HelperId::LoadFast,
            var as u64,
        ),
{
}

/// An object that loses an owner has one less; the last owner of one that is not leaked has it
/// dropped, and nothing else is called.
pub proof fn law_last_owner_drops(f: Facts, host: Host, v: FrameState, obj: u64)
    ensures
        ({
            let a = meaning::count_at(f, obj);
            let count = v.mem[a];
            let after = meaning::release(f, host, v, obj);
            let less = v.store(a, machine::wrap(count - 1));
            if meaning::leaked(count) || meaning::owners(count) != 1 {
                after == less
            } else {
                &&& one_more_call(f, v, after, HelperId::Drop, obj)
                &&& after == meaning::host_call(f, host, less, HelperId::Drop, obj).0
            }
        }),
{
}

/// Letting go of a borrowed value, or of an empty slot, changes nothing.
pub proof fn law_borrowed_values_cost_nothing(f: Facts, host: Host, v: FrameState, x: u64)
    requires
        meaning::borrowed(x) || x == 0,
    ensures
        meaning::discard(f, host, v, x) == v,
{
}

/// The borrow tag makes a borrowed value of an object, and the object is still its object.
pub proof fn law_tagged_values_are_borrowed(obj: u64)
    requires
        obj % 2 == 0,
    ensures
        meaning::borrowed(obj | BORROW_TAG),
        meaning::object(obj | BORROW_TAG) == obj,
        !meaning::borrowed(obj),
        meaning::object(obj) == obj,
{
    assert(obj % 2 == 0 ==> (obj | 1u64) % 2 == 1 && (obj | 1u64) - 1 == obj) by (bit_vector);
}

/// A local that was not set gives back what is stored in it, and the store and the load are
/// each an owner: a borrowed value gains two, an owned one gains one.
pub proof fn law_load_gives_back_what_was_stored(
    f: Facts,
    host: Host,
    v: FrameState,
    var: u32,
    idx: int,
)
    requires
        ({
            let x = v.shrink().freed();
            let a = meaning::count_at(f, meaning::object(x));
            &&& meaning::object(x) != 0
            &&& v.mem[v.local(var)] == 0
            &&& a != v.local(var)
            &&& a != v.shrink().slot(v.shrink().top as int)
        }),
    ensures
        ({
            let x = v.shrink().freed();
            let a = meaning::count_at(f, meaning::object(x));
            let stored = meaning::store_fast(f, host, v, var);
            let ran = meaning::load_fast(f, host, stored, var, idx);
            let gain: int = if meaning::borrowed(x) {
                2
            } else {
                1
            };
            &&& stored.mem[v.local(var)] == meaning::object(x)
            &&& ran.flow is Next
            &&& ran.v.calls == v.calls
            &&& ran.v.mem[ran.v.slot(stored.top as int)] == meaning::object(x)
            &&& ran.v.top == machine::wrap(stored.top + 1)
            &&& ran.v.mem[a] == machine::wrap(v.mem[a] + gain)
        }),
{
    let x = v.shrink().freed();
    let a = meaning::count_at(f, meaning::object(x));
    assert(machine::wrap(machine::wrap(v.mem[a] + 1) + 1) == machine::wrap(v.mem[a] + 2));
}

/// A jump on a bool singleton, owned or borrowed, asks no helper but to drop: it goes to the
/// target exactly where the value is the one that is asked for.
pub proof fn law_bool_singletons_need_no_helper(
    f: Facts,
    host: Host,
    v: FrameState,
    jump_on: bool,
    target: int,
    idx: int,
)
    requires
        f.true_ptr != f.false_ptr,
        meaning::object(v.peek()) == f.true_ptr || meaning::object(v.peek()) == f.false_ptr,
    ensures
        ({
            let ran = meaning::pop_jump_if_bool(f, host, v, jump_on, target, idx);
            let hit = meaning::object(v.peek()) == (if jump_on {
                f.true_ptr
            } else {
                f.false_ptr
            });
            &&& ran.v == meaning::discard(f, host, v.shrink(), v.peek())
            &&& ran.flow == (if hit {
                meaning::towards(f, v, target).flow
            } else {
                Flow::Next
            })
        }),
{
}

/// The two jumps on none go opposite ways and leave the frame the same.
pub proof fn law_none_jumps_are_opposite(f: Facts, host: Host, v: FrameState, target: int)
    ensures
        ({
            let a = meaning::pop_jump_if_none(f, host, v, true, target);
            let b = meaning::pop_jump_if_none(f, host, v, false, target);
            &&& a.v == b.v
            &&& a.flow is Next <==> !(b.flow is Next)
        }),
{
}

/// An error of a helper leaves just behind the unit; any other result goes on.
pub proof fn law_helper_errors_leave_behind_the_unit(
    f: Facts,
    host: Host,
    v: FrameState,
    id: HelperId,
    arg: u64,
    idx: int,
)
    ensures
        ({
            let (ran, value) = meaning::help(f, host, v, id, arg, idx);
            ran.flow == (if (value as i64) < 0 {
                Flow::Leave(idx + 1)
            } else {
                Flow::Next
            })
        }),
{
    let value = meaning::help(f, host, v, id, arg, idx).1;
    assert((value as i64) < 0 <==> value >= 0x8000_0000_0000_0000) by (bit_vector);
}

/// An instruction that is not supported leaves before it has changed anything.
pub proof fn law_unsupported_instructions_leave_at_once(
    f: Facts,
    host: Host,
    units: Seq<CodeUnit>,
    c: Cursor,
    v: FrameState,
)
    requires
        template::classify(bytecode::base_op(units[c.idx].op)) is Unsupported,
    ensures
        meaning::instruction(f, host, units, c, v) == (meaning::Ran {
            v,
            flow: Flow::Leave(c.idx),
        }),
{
    reveal(meaning::instruction);
}

/// The interpreter resumes at a unit that is not supported, just behind one whose helper has
/// failed, or past the end.
#[verifier::spinoff_prover]
#[verifier::rlimit(40)]
pub proof fn law_where_the_interpreter_resumes(
    f: Facts,
    host: Host,
    units: Seq<CodeUnit>,
    c: Cursor,
    v: FrameState,
)
    ensures
        meaning::instruction(f, host, units, c, v).flow matches Flow::Leave(t) ==> {
            ||| t == c.idx + 1
            ||| t >= f.len
            ||| t == c.idx && template::classify(bytecode::base_op(units[c.idx].op)) is Unsupported
        },
{
    reveal(meaning::instruction);
}

/// A loop whose iterator has run out goes past the marker of its end.
pub proof fn law_exhausted_loop_skips_its_end(
    f: Facts,
    host: Host,
    units: Seq<CodeUnit>,
    c: Cursor,
    v: FrameState,
)
    requires
        template::classify(bytecode::base_op(units[c.idx].op)) is ForIter,
        ({
            let target = template::next_unit(units, c.idx) + template::operand(units, c);
            &&& 0 <= target < units.len()
            &&& units[target].op == bytecode::END_FOR
            &&& target + 1 < f.len
        }),
        ({
            let target = template::next_unit(units, c.idx) + template::operand(units, c);
            meaning::help(f, host, v, HelperId::ForIter, target as u64, c.idx).1 == 1
        }),
    ensures
        meaning::instruction(f, host, units, c, v).flow == Flow::Goto(
            template::next_unit(units, c.idx) + template::operand(units, c) + 1,
        ),
{
    reveal(meaning::instruction);
}

/// How many back-edges are left, the next one included, before the eval breaker is asked.
pub open spec fn countdown(v: FrameState) -> u64 {
    v.mem[meaning::breaker(v)]
}

/// What is left when so many back-edges of a run were taken: the first one asks, and then
/// every one that ends an interval.
pub open spec fn left_after(taken: nat) -> int {
    let k = taken % BREAKER_INTERVAL as nat;
    if k == 0 {
        1
    } else {
        BREAKER_INTERVAL + 1 - k
    }
}

/// The eval breaker is asked.
pub open spec fn asks(f: Facts, before: FrameState, after: FrameState) -> bool {
    one_more_call(f, before, after, HelperId::EvalBreaker, 0)
}

/// A back-edge counts down and makes no call; the one that uses the count up asks the eval
/// breaker, and unless that fails a whole interval begins.
pub proof fn law_back_edge_counts_down_or_asks(f: Facts, host: Host, v: FrameState, idx: int)
    requires
        countdown(v) > 0,
    ensures
        ({
            let ran = meaning::eval_breaker(f, host, v, idx);
            if countdown(v) == 1 {
                &&& asks(f, v, ran.v)
                &&& ran.flow is Next ==> countdown(ran.v) == BREAKER_INTERVAL
            } else {
                &&& ran.v.calls == v.calls
                &&& ran.flow is Next
                &&& countdown(ran.v) == countdown(v) - 1
            }
        }),
{
    assert(machine::wrap(countdown(v) - 1) == countdown(v) - 1);
}

/// The back-edge does not fail, and the next one finds the count as this one has left it.
pub open spec fn next_edge_follows(
    f: Facts,
    host: Host,
    edges: Seq<FrameState>,
    idx: Seq<int>,
    i: int,
) -> bool {
    let ran = meaning::eval_breaker(f, host, edges[i], idx[i]);
    &&& ran.flow is Next
    &&& countdown(edges[i + 1]) == countdown(ran.v)
}

/// The back-edges of a run on a new context, in order, each with the frame it finds: whatever
/// happens between them, if each finds the count as the one before has left it and none of
/// these has failed, the breaker is asked on the first and then on every one that ends an
/// interval, and on no other.
pub proof fn law_breaker_is_asked_every_interval(
    f: Facts,
    host: Host,
    edges: Seq<FrameState>,
    idx: Seq<int>,
    k: int,
)
    requires
        0 <= k < edges.len(),
        idx.len() == edges.len(),
        countdown(edges[0]) == 1,
        forall|i: int| 0 <= i < k ==> #[trigger] next_edge_follows(f, host, edges, idx, i),
    ensures
        ({
            let after = meaning::eval_breaker(f, host, edges[k], idx[k]).v;
            &&& countdown(edges[k]) == left_after(k as nat)
            &&& if k % BREAKER_INTERVAL as int == 0 {
                asks(f, edges[k], after)
            } else {
                after.calls == edges[k].calls
            }
        }),
    decreases k,
{
    if k > 0 {
        law_breaker_is_asked_every_interval(f, host, edges, idx, k - 1);
        assert(next_edge_follows(f, host, edges, idx, k - 1));
        law_back_edge_counts_down_or_asks(f, host, edges[k - 1], idx[k - 1]);
        assert(countdown(edges[k]) == left_after(k as nat));
    }
    law_back_edge_counts_down_or_asks(f, host, edges[k], idx[k]);
}

/// The cursor is at an instruction that is run.
pub open spec fn runs(units: Seq<CodeUnit>, c: Cursor) -> bool {
    c.idx < units.len() && !c.fused
}

/// Where a run from the cursor stands after `n` instructions, if it has not left by then.
pub open spec fn stands(
    f: Facts,
    host: Host,
    units: Seq<CodeUnit>,
    c: Cursor,
    v: FrameState,
    n: nat,
) -> Option<(Cursor, FrameState)>
    decreases n,
{
    if n == 0 {
        Some((c, v))
    } else {
        match stands(f, host, units, c, v, (n - 1) as nat) {
            Some((at, w)) => if runs(units, at) {
                let ran = meaning::instruction(f, host, units, at, w);
                match ran.flow {
                    Flow::Next => Some((template::advance(units, at), ran.v)),
                    Flow::Goto(t) => Some((meaning::entry(units, t), ran.v)),
                    Flow::Leave(_) => None,
                }
            } else {
                None
            },
            None => None,
        }
    }
}

/// A run that stands somewhere goes on from there.
pub proof fn law_run_goes_on_where_it_stands(
    f: Facts,
    host: Host,
    units: Seq<CodeUnit>,
    c: Cursor,
    v: FrameState,
    n: nat,
    fuel: nat,
)
    ensures
        stands(f, host, units, c, v, n) matches Some((at, w)) ==> meaning::run_units(
            f,
            host,
            units,
            n + fuel,
            c,
            v,
        ) == meaning::run_units(f, host, units, fuel, at, w),
    decreases n,
{
    if n > 0 {
        law_run_goes_on_where_it_stands(f, host, units, c, v, (n - 1) as nat, fuel + 1);
    }
}

/// The cursor is at an instruction that takes a counted back-edge.
pub open spec fn at_back_edge(units: Seq<CodeUnit>, c: Cursor) -> bool {
    &&& runs(units, c)
    &&& template::classify(bytecode::base_op(units[c.idx].op)) is JumpBackward
}

/// How many counted back-edges are among the first `n` instructions of a run.
pub open spec fn edges_taken(
    f: Facts,
    host: Host,
    units: Seq<CodeUnit>,
    c: Cursor,
    v: FrameState,
    n: nat,
) -> nat
    decreases n,
{
    if n == 0 {
        0
    } else {
        let before = (n - 1) as nat;
        let rest = edges_taken(f, host, units, c, v, before);
        match stands(f, host, units, c, v, before) {
            Some((at, _)) => if at_back_edge(units, at) {
                rest + 1
            } else {
                rest
            },
            None => rest,
        }
    }
}

/// Among the first `n` instructions of a run, none but the counted back-edges change the count.
pub open spec fn count_left_alone(
    f: Facts,
    host: Host,
    units: Seq<CodeUnit>,
    c: Cursor,
    v: FrameState,
    n: nat,
) -> bool
    decreases n,
{
    n > 0 ==> {
        let before = (n - 1) as nat;
        &&& count_left_alone(f, host, units, c, v, before)
        &&& match (stands(f, host, units, c, v, before), stands(f, host, units, c, v, n)) {
            (Some((at, w)), Some((_, x))) => at_back_edge(units, at) || countdown(x) == countdown(
                w,
            ),
            _ => true,
        }
    }
}

proof fn lemma_back_edge(
    f: Facts,
    host: Host,
    units: Seq<CodeUnit>,
    c: Cursor,
    v: FrameState,
)
    requires
        at_back_edge(units, c),
    ensures
        ({
            let ran = meaning::instruction(f, host, units, c, v);
            let counted = meaning::eval_breaker(f, host, v, c.idx);
            &&& ran.v == counted.v
            &&& !(counted.flow is Next) ==> ran.flow is Leave
        }),
{
    reveal(meaning::instruction);
}

proof fn lemma_countdown_of_run(
    f: Facts,
    host: Host,
    units: Seq<CodeUnit>,
    c: Cursor,
    v: FrameState,
    n: nat,
)
    requires
        countdown(v) == 1,
        count_left_alone(f, host, units, c, v, n),
    ensures
        stands(f, host, units, c, v, n) matches Some((_, w)) ==> countdown(w) == left_after(
            edges_taken(f, host, units, c, v, n),
        ),
    decreases n,
{
    if n > 0 {
        let before = (n - 1) as nat;
        lemma_countdown_of_run(f, host, units, c, v, before);
        match stands(f, host, units, c, v, before) {
            Some((at, w)) => {
                if at_back_edge(units, at) {
                    lemma_back_edge(f, host, units, at, w);
                    law_back_edge_counts_down_or_asks(f, host, w, at.idx);
                }
            },
            None => {},
        }
    }
}

/// In one run on a new context, the eval breaker is asked by the back-edge before which so many
/// others were taken exactly if that many are whole intervals: by the first, and then by every
/// one that ends an interval. Nothing but the back-edges may have changed the count.
pub proof fn law_breaker_interval_of_a_run(
    f: Facts,
    host: Host,
    units: Seq<CodeUnit>,
    c: Cursor,
    v: FrameState,
    n: nat,
    at: Cursor,
    w: FrameState,
)
    requires
        countdown(v) == 1,
        count_left_alone(f, host, units, c, v, n),
        stands(f, host, units, c, v, n) == Some((at, w)),
        at_back_edge(units, at),
    ensures
        ({
            let taken = edges_taken(f, host, units, c, v, n);
            let after = meaning::instruction(f, host, units, at, w).v;
            if taken % BREAKER_INTERVAL as nat == 0 {
                asks(f, w, after)
            } else {
                after.calls == w.calls
            }
        }),
{
    lemma_countdown_of_run(f, host, units, c, v, n);
    lemma_back_edge(f, host, units, at, w);
    law_back_edge_counts_down_or_asks(f, host, w, at.idx);
}

/// The backward jump without an interrupt neither counts nor asks: it only jumps.
pub proof fn law_uninterrupted_jump_only_jumps(
    f: Facts,
    host: Host,
    units: Seq<CodeUnit>,
    c: Cursor,
    v: FrameState,
)
    requires
        template::classify(bytecode::base_op(units[c.idx].op)) is JumpBackwardNoInterrupt,
    ensures
        meaning::instruction(f, host, units, c, v) == meaning::towards(
            f,
            v,
            template::next_unit(units, c.idx) - template::operand(units, c),
        ),
        meaning::instruction(f, host, units, c, v).v == v,
{
    reveal(meaning::instruction);
}

/// A comparison that the fast helper decides makes no other call but to drop its operands, and
/// with a jump compiled into it pushes nothing.
pub proof fn law_fast_comparison(
    f: Facts,
    host: Host,
    v: FrameState,
    arg: u32,
    idx: int,
    jump_on: bool,
    target: int,
    after: int,
)
    requires
        ({
            let (ran, value) = meaning::help(f, host, v, HelperId::CompareFast, arg as u64, idx);
            ran.flow is Next && value != 2
        }),
    ensures
        ({
            let (ran, value) = meaning::help(f, host, v, HelperId::CompareFast, arg as u64, idx);
            let popped = meaning::pop_top(f, host, meaning::pop_top(f, host, ran.v));
            let fused = template::Fused { jump_on, target, after };
            &&& meaning::compare_op(f, host, v, arg, idx, None) == meaning::next(
                popped.push(meaning::singleton(f, value == 1)),
            )
            &&& meaning::compare_op(f, host, v, arg, idx, Some(fused)) == meaning::towards(
                f,
                popped,
                if (value == 1) == jump_on {
                    target
                } else {
                    after
                },
            )
        }),
{
}

/// The instruction that is run when a unit is entered stands there or behind it; where the
/// scan stops at a unit, entering it runs that very instruction.
pub proof fn law_entry_is_at_or_behind(units: Seq<CodeUnit>, c: Cursor, t: int)
    requires
        0 <= c.idx,
        t <= units.len(),
    ensures
        meaning::seek(units, c, t).idx >= t,
        c.idx == t ==> meaning::seek(units, c, t) == c,
    decreases template::remaining(units, c.idx),
{
    if c.idx < units.len() && c.idx < t {
        law_entry_is_at_or_behind(units, template::advance(units, c), t);
    }
}

/// Entering a jump that was compiled with the comparison before it leaves at once.
pub proof fn law_fused_jump_is_left_to_the_interpreter(
    f: Facts,
    host: Host,
    units: Seq<CodeUnit>,
    fuel: nat,
    c: Cursor,
    v: FrameState,
)
    requires
        c.fused,
        c.idx < units.len(),
    ensures
        meaning::run_units(f, host, units, fuel, c, v) == Some((v, c.idx)),
{
}

/// Prefixed operand bytes widen the operand: three of them and the unit's own make a number of
/// four bytes, the first of them the most significant.
pub proof fn law_operand_bytes_gather(a: u8, b: u8, c: u8, d: u8)
    ensures
        bytecode::widen(bytecode::widen(bytecode::widen(bytecode::widen(0, a), b), c), d) == a
            * 0x100_0000 + b * 0x1_0000 + c * 0x100 + d,
{
}

/// A specialized instruction means what the one it stands for means, but for arithmetic that
/// was specialized to ints.
pub proof fn law_specialized_instructions_mean_their_base(
    f: Facts,
    host: Host,
    units: Seq<CodeUnit>,
    c: Cursor,
    v: FrameState,
)
    requires
        0 <= c.idx < units.len(),
        !template::int_specialized(units[c.idx].op),
    ensures
        ({
            let unit = units[c.idx];
            let base = CodeUnit { op: bytecode::base_op(unit.op), arg: unit.arg };
            meaning::instruction(f, host, units, c, v) == meaning::instruction(
                f,
                host,
                units.update(c.idx, base),
                c,
                v,
            )
        }),
{
    reveal(meaning::instruction);
    let unit = units[c.idx];
    let base = CodeUnit { op: bytecode::base_op(unit.op), arg: unit.arg };
    let plain = units.update(c.idx, base);
    let after = template::next_unit(units, c.idx);
    assert(bytecode::base_op(base.op) == base.op);
    assert(template::next_unit(plain, c.idx) == after);
    assert(after > c.idx);
    assert(after < units.len() ==> plain[after] == units[after]);
    assert(template::fusable(plain, after) == template::fusable(units, after));
    let target = after + template::operand(units, c);
    assert(target > c.idx);
    assert(template::loop_exit(plain, target) == template::loop_exit(units, target));
}

/// The context lies in memory at the address.
pub open spec fn holds_context(mem: Map<u64, u64>, a: u64, c: JitContext) -> bool {
    &&& mem[machine::shifted(a, CTX_LOCALS as int)] == c.word(CTX_LOCALS as int)
    &&& mem[machine::shifted(a, CTX_STACK_TOP as int)] == c.word(CTX_STACK_TOP as int)
    &&& mem[machine::shifted(a, CTX_NLOCALSPLUS as int)] == c.word(CTX_NLOCALSPLUS as int)
    &&& mem[machine::shifted(a, CTX_BREAKER as int)] == c.word(CTX_BREAKER as int)
}

/// Code that is called with a context runs on the frame that the context describes: the stack
/// lies behind the locals, and is as high as the shared word says.
pub proof fn law_context_opens_its_frame(
    mem: Map<u64, u64>,
    half: Map<u64, u32>,
    calls: Seq<Call>,
    a: u64,
    c: JitContext,
)
    requires
        holds_context(mem, a, c),
    ensures
        ({
            let v = simulate::opened(a, mem, half, calls);
            &&& v.ctx == a
            &&& v.locals == c.locals
            &&& v.stack == machine::shifted(c.locals, 8 * c.nlocalsplus)
            &&& v.shared() == c.stack_top
            &&& v.top == half[c.stack_top]
            &&& v.mem[meaning::breaker(v)] == c.breaker_countdown
        }),
{
}

/// What a slot holds: nothing, or an object, owned or borrowed.
pub open spec fn value_of(x: u64) -> Option<u64> {
    if x == 0 {
        None
    } else {
        Some(meaning::object(x))
    }
}

/// The first `n` locals of the frame.
pub open spec fn locals_of(v: FrameState, n: nat) -> Seq<Option<u64>> {
    Seq::new(n, |i: int| value_of(v.mem[machine::shifted(v.locals, 8 * i)]))
}

/// The values on the stack of the frame, the topmost last.
pub open spec fn stack_of(v: FrameState) -> Seq<Option<u64>> {
    Seq::new(v.top as nat, |i: int| value_of(v.mem[v.slot(i)]))
}

/// The frame has `n` locals and behind them room for `room` values, which are not all used.
pub open spec fn laid_out(v: FrameState, n: nat, room: nat) -> bool {
    &&& v.top < room
    &&& v.stack == v.locals + 8 * n
    &&& v.locals + 8 * (n + room) <= u64::MAX
    &&& n <= 0x0FFF_FFFF
}

/// The word does not overlap the frame.
pub open spec fn apart(v: FrameState, n: nat, room: nat, a: u64) -> bool {
    a < v.locals || a >= v.locals + 8 * (n + room)
}

proof fn lemma_slots(v: FrameState, n: nat, room: nat, i: int, j: int)
    requires
        laid_out(v, n, room),
        0 <= i < n,
        0 <= j < room,
    ensures
        machine::shifted(v.locals, 8 * i) == v.locals + 8 * i,
        v.slot(j) == v.locals + 8 * (n + j),
        template::local_disp(i as u32) == 8 * i,
        v.local(i as u32) == v.locals + 8 * i,
{
}

/// Code that loads a local by itself does to the frame what the helper does.
pub proof fn law_inline_load_agrees_with_the_helper(
    f: Facts,
    host: Host,
    v: FrameState,
    n: nat,
    room: nat,
    var: u32,
    idx: int,
)
    requires
        laid_out(v, n, room),
        var < n,
        v.mem[v.local(var)] != 0,
        apart(v, n, room, meaning::count_at(f, v.mem[v.local(var)])),
    ensures
        ({
            let ran = meaning::load_fast(f, host, v, var, idx);
            &&& locals_of(ran.v, n) == locals_of(v, n)
            &&& stack_of(ran.v) == stack_of(v).push(locals_of(v, n)[var as int])
        }),
{
    let ran = meaning::load_fast(f, host, v, var, idx);
    lemma_slots(v, n, room, var as int, v.top as int);
    assert forall|i: int| 0 <= i < n implies locals_of(ran.v, n)[i] == locals_of(v, n)[i] by {
        lemma_slots(v, n, room, i, v.top as int);
    }
    assert forall|j: int| 0 <= j < v.top + 1 implies #[trigger] stack_of(ran.v)[j] == stack_of(
        v,
    ).push(locals_of(v, n)[var as int])[j] by {
        lemma_slots(v, n, room, var as int, j);
    }
    assert(locals_of(ran.v, n) =~= locals_of(v, n));
    assert(stack_of(ran.v) =~= stack_of(v).push(locals_of(v, n)[var as int]));
}

/// Code that stores a local by itself does to the frame what the helper does, where nothing is
/// dropped.
pub proof fn law_inline_store_agrees_with_the_helper(
    f: Facts,
    host: Host,
    v: FrameState,
    n: nat,
    room: nat,
    var: u32,
)
    requires
        laid_out(v, n, room),
        var < n,
        v.top > 0,
        ({
            let x = v.shrink().freed();
            let old = v.mem[v.local(var)];
            let a = meaning::count_at(f, meaning::object(x));
            let b = meaning::count_at(f, old);
            &&& apart(v, n, room, a)
            &&& old != 0 ==> {
                &&& apart(v, n, room, b)
                &&& a != b
                &&& meaning::leaked(v.mem[b]) || meaning::owners(v.mem[b]) != 1
            }
            &&& x == 0 || meaning::object(x) != 0
        }),
    ensures
        ({
            let after = meaning::store_fast(f, host, v, var);
            &&& locals_of(after, n) == locals_of(v, n).update(var as int, stack_of(v).last())
            &&& stack_of(after) == stack_of(v).drop_last()
            &&& after.calls == v.calls
        }),
{
    let after = meaning::store_fast(f, host, v, var);
    let x = v.shrink().freed();
    assert(v.shrink().top == v.top - 1);
    lemma_slots(v, n, room, var as int, v.top - 1);
    assert(value_of(meaning::object(x)) == value_of(x));
    assert forall|i: int| 0 <= i < n implies #[trigger] locals_of(after, n)[i] == locals_of(
        v,
        n,
    ).update(var as int, stack_of(v).last())[i] by {
        lemma_slots(v, n, room, i, v.top - 1);
    }
    assert forall|j: int| 0 <= j < v.top - 1 implies #[trigger] stack_of(after)[j] == stack_of(
        v,
    )[j] by {
        lemma_slots(v, n, room, var as int, j);
    }
    assert(locals_of(after, n) =~= locals_of(v, n).update(var as int, stack_of(v).last()));
    assert(stack_of(after) =~= stack_of(v).drop_last());
}

/// Code that pops a value by itself does to the frame what the helper does, where nothing is
/// dropped.
pub proof fn law_inline_pop_agrees_with_the_helper(
    f: Facts,
    host: Host,
    v: FrameState,
    n: nat,
    room: nat,
)
    requires
        laid_out(v, n, room),
        n > 0,
        v.top > 0,
        ({
            let x = v.shrink().freed();
            let a = meaning::count_at(f, x);
            meaning::borrowed(x) || x == 0 || {
                &&& apart(v, n, room, a)
                &&& meaning::leaked(v.mem[a]) || meaning::owners(v.mem[a]) != 1
            }
        }),
    ensures
        ({
            let after = meaning::pop_top(f, host, v);
            &&& locals_of(after, n) == locals_of(v, n)
            &&& stack_of(after) == stack_of(v).drop_last()
            &&& after.calls == v.calls
        }),
{
    let after = meaning::pop_top(f, host, v);
    assert(v.shrink().top == v.top - 1);
    assert forall|i: int| 0 <= i < n implies #[trigger] locals_of(after, n)[i] == locals_of(
        v,
        n,
    )[i] by {
        lemma_slots(v, n, room, i, 0);
    }
    assert forall|j: int| 0 <= j < v.top - 1 implies #[trigger] stack_of(after)[j] == stack_of(
        v,
    )[j] by {
        lemma_slots(v, n, room, 0, j);
    }
    assert(locals_of(after, n) =~= locals_of(v, n));
    assert(stack_of(after) =~= stack_of(v).drop_last());
}

/// The instruction that stores one local and loads another does to the frame what the helper
/// does, where nothing is dropped: the value popped is in the first local and no other local has
/// changed; what is pushed is what the second local holds after that.
pub proof fn law_store_and_load_agrees_with_the_helper(
    f: Facts,
    host: Host,
    units: Seq<CodeUnit>,
    c: Cursor,
    v: FrameState,
    n: nat,
    room: nat,
    first: u32,
    second: u32,
)
    requires
        bytecode::base_op(units[c.idx].op) == bytecode::STORE_FAST_LOAD_FAST,
        opcodes::operand(units, c) == 16 * first + second,
        second < 16,
        first < n,
        second < n,
        laid_out(v, n, room),
        v.top > 0,
        ({
            let x = v.shrink().freed();
            let old = v.mem[v.local(first)];
            let a = meaning::count_at(f, meaning::object(x));
            let b = meaning::count_at(f, old);
            let value = if first == second {
                meaning::object(x)
            } else {
                v.mem[v.local(second)]
            };
            &&& apart(v, n, room, a)
            &&& old != 0 ==> {
                &&& apart(v, n, room, b)
                &&& a != b
                &&& meaning::leaked(v.mem[b]) || meaning::owners(v.mem[b]) != 1
            }
            &&& x == 0 || meaning::object(x) != 0
            &&& value != 0
            &&& apart(v, n, room, meaning::count_at(f, value))
        }),
    ensures
        ({
            let ran = meaning::instruction(f, host, units, c, v);
            &&& ran.flow is Next
            &&& ran.v.calls == v.calls
            &&& locals_of(ran.v, n) == locals_of(v, n).update(first as int, stack_of(v).last())
            &&& stack_of(ran.v) == stack_of(v).drop_last().push(locals_of(ran.v, n)[second as int])
        }),
{
    let arg = template::operand(units, c);
    assert(arg / 16 == first && arg % 16 == second);
    let mid = meaning::store_fast(f, host, v, first);
    assert(meaning::instruction(f, host, units, c, v) == meaning::load_fast(
        f,
        host,
        mid,
        second,
        c.idx,
    )) by {
        reveal(meaning::instruction);
    }
    law_inline_store_agrees_with_the_helper(f, host, v, n, room, first);
    lemma_slots(v, n, room, first as int, 0);
    lemma_slots(v, n, room, second as int, 0);
    assert(mid.top == v.top - 1);
    assert(laid_out(mid, n, room));
    law_inline_load_agrees_with_the_helper(f, host, mid, n, room, second, c.idx);
}

/// The instruction that loads two locals pushes the first and then the second, and changes no
/// local.
pub proof fn law_two_loads_agree_with_the_helper(
    f: Facts,
    host: Host,
    units: Seq<CodeUnit>,
    c: Cursor,
    v: FrameState,
    n: nat,
    room: nat,
    first: u32,
    second: u32,
)
    requires
        ({
            let op = bytecode::base_op(units[c.idx].op);
            ||| op == bytecode::LOAD_FAST_LOAD_FAST
            ||| op == bytecode::LOAD_FAST_BORROW_LOAD_FAST_BORROW
        }),
        opcodes::operand(units, c) == 16 * first + second,
        second < 16,
        first < n,
        second < n,
        laid_out(v, n, room),
        v.top + 1 < room,
        v.mem[v.local(first)] != 0,
        v.mem[v.local(second)] != 0,
        apart(v, n, room, meaning::count_at(f, v.mem[v.local(first)])),
        apart(v, n, room, meaning::count_at(f, v.mem[v.local(second)])),
    ensures
        ({
            let ran = meaning::instruction(f, host, units, c, v);
            &&& ran.flow is Next
            &&& ran.v.calls == v.calls
            &&& locals_of(ran.v, n) == locals_of(v, n)
            &&& stack_of(ran.v) == stack_of(v).push(locals_of(v, n)[first as int]).push(
                locals_of(v, n)[second as int],
            )
        }),
{
    let arg = template::operand(units, c);
    assert(arg / 16 == first && arg % 16 == second);
    let mid = meaning::load_fast(f, host, v, first, c.idx);
    assert(meaning::instruction(f, host, units, c, v) == meaning::load_fast(
        f,
        host,
        mid.v,
        second,
        c.idx,
    )) by {
        reveal(meaning::instruction);
    }
    law_inline_load_agrees_with_the_helper(f, host, v, n, room, first, c.idx);
    lemma_slots(v, n, room, first as int, v.top as int);
    lemma_slots(v, n, room, second as int, v.top as int);
    assert(laid_out(mid.v, n, room));
    law_inline_load_agrees_with_the_helper(f, host, mid.v, n, room, second, c.idx);
}

/// A store to a local that was not set changes nothing else in the frame.
proof fn lemma_store_unset(f: Facts, host: Host, v: FrameState, n: nat, room: nat, var: u32, i: int)
    requires
        laid_out(v, n, room),
        var < n,
        v.top > 0,
        v.mem[v.local(var)] == 0,
        apart(v, n, room, meaning::count_at(f, meaning::object(v.shrink().freed()))),
        0 <= i < n + room,
        i != var,
    ensures
        ({
            let mid = meaning::store_fast(f, host, v, var);
            &&& mid.locals == v.locals
            &&& mid.stack == v.stack
            &&& mid.top == v.top - 1
            &&& mid.mem[(v.locals + 8 * i) as u64] == v.mem[(v.locals + 8 * i) as u64]
        }),
{
    lemma_slots(v, n, room, var as int, v.top - 1);
}

/// The instruction that stores two locals pops twice: the topmost value goes to the first local,
/// the one below it to the second, where neither was set before.
pub proof fn law_two_stores_agree_with_the_helper(
    f: Facts,
    host: Host,
    units: Seq<CodeUnit>,
    c: Cursor,
    v: FrameState,
    n: nat,
    room: nat,
    first: u32,
    second: u32,
)
    requires
        bytecode::base_op(units[c.idx].op) == bytecode::STORE_FAST_STORE_FAST,
        opcodes::operand(units, c) == 16 * first + second,
        second < 16,
        first < n,
        second < n,
        first != second,
        laid_out(v, n, room),
        v.top > 1,
        v.mem[v.local(first)] == 0,
        v.mem[v.local(second)] == 0,
        ({
            let x = v.mem[v.slot(v.top - 1)];
            let y = v.mem[v.slot(v.top - 2)];
            &&& apart(v, n, room, meaning::count_at(f, meaning::object(x)))
            &&& apart(v, n, room, meaning::count_at(f, meaning::object(y)))
            &&& x == 0 || meaning::object(x) != 0
            &&& y == 0 || meaning::object(y) != 0
        }),
    ensures
        ({
            let ran = meaning::instruction(f, host, units, c, v);
            let top = v.top as int;
            &&& ran.flow is Next
            &&& ran.v.calls == v.calls
            &&& locals_of(ran.v, n) == locals_of(v, n).update(
                first as int,
                stack_of(v)[top - 1],
            ).update(second as int, stack_of(v)[top - 2])
            &&& stack_of(ran.v) == stack_of(v).take(top - 2)
        }),
{
    let arg = template::operand(units, c);
    assert(arg / 16 == first && arg % 16 == second);
    let mid = meaning::store_fast(f, host, v, first);
    assert(meaning::instruction(f, host, units, c, v) == meaning::next(
        meaning::store_fast(f, host, mid, second),
    )) by {
        reveal(meaning::instruction);
    }
    assert(v.shrink().top == v.top - 1);
    law_inline_store_agrees_with_the_helper(f, host, v, n, room, first);
    lemma_slots(v, n, room, second as int, v.top - 2);
    lemma_store_unset(f, host, v, n, room, first, second as int);
    lemma_store_unset(f, host, v, n, room, first, n + v.top - 2);
    lemma_second_store(f, host, v, mid, n, room, first, second);
}

/// The second of two stores, from what the first has left.
proof fn lemma_second_store(
    f: Facts,
    host: Host,
    v: FrameState,
    mid: FrameState,
    n: nat,
    room: nat,
    first: u32,
    second: u32,
)
    requires
        first < n,
        second < n,
        laid_out(v, n, room),
        v.top > 1,
        mid.locals == v.locals,
        mid.stack == v.stack,
        mid.top == v.top - 1,
        mid.mem[v.local(second)] == 0,
        mid.mem[v.slot(v.top - 2)] == v.mem[v.slot(v.top - 2)],
        ({
            let y = v.mem[v.slot(v.top - 2)];
            &&& apart(v, n, room, meaning::count_at(f, meaning::object(y)))
            &&& y == 0 || meaning::object(y) != 0
        }),
        locals_of(mid, n) == locals_of(v, n).update(first as int, stack_of(v).last()),
        stack_of(mid) == stack_of(v).drop_last(),
    ensures
        ({
            let after = meaning::store_fast(f, host, mid, second);
            let top = v.top as int;
            &&& after.calls == mid.calls
            &&& locals_of(after, n) == locals_of(v, n).update(
                first as int,
                stack_of(v)[top - 1],
            ).update(second as int, stack_of(v)[top - 2])
            &&& stack_of(after) == stack_of(v).take(top - 2)
        }),
{
    assert(laid_out(mid, n, room));
    assert(mid.shrink().top == v.top - 2);
    assert(mid.shrink().freed() == v.mem[v.slot(v.top - 2)]);
    law_inline_store_agrees_with_the_helper(f, host, mid, n, room, second);
    assert(stack_of(v).drop_last().drop_last() =~= stack_of(v).take(v.top - 2));
    assert(stack_of(mid).last() == stack_of(v)[v.top - 2]);
}

} // verus!
