//! Every label of a compiled listing is bound, and bound once; code of ordinary size can
//! always be finished.
use crate::assembler::{Cond, Reg};
use crate::bytecode;
use crate::bytecode::CodeUnit;
use crate::codegen;
use crate::codegen::HelperId;
use crate::insn;
use crate::insn::{Insn, Item};
use crate::template;
use crate::template::{Cursor, Facts, Fused, Op};
use vstd::prelude::*;

verus! {

/// How often the first `k` lines bind the label.
pub open spec fn tally(items: Seq<Item>, k: int, l: nat) -> nat
    decreases k,
{
    if k <= 0 {
        0
    } else {
        tally(items, k - 1, l) + (if items[k - 1] == Item::Bind(l) {
            1nat
        } else {
            0
        })
    }
}

/// How often the lines bind the label.
#[verifier::opaque]
pub open spec fn count(items: Seq<Item>, l: nat) -> nat {
    tally(items, items.len() as int, l)
}

/// Every jump among the first `k` lines goes to a label below `bound`.
pub open spec fn reach_below(items: Seq<Item>, k: int, bound: nat) -> bool
    decreases k,
{
    if k <= 0 {
        true
    } else {
        &&& reach_below(items, k - 1, bound)
        &&& insn::jump_label(items[k - 1]) matches Some(l) ==> l < bound
    }
}

/// Every jump among the lines goes to a label below `bound`.
#[verifier::opaque]
pub open spec fn jumps_below(items: Seq<Item>, bound: nat) -> bool {
    reach_below(items, items.len() as int, bound)
}

/// The lines bind the `n` labels from `lo` on, each of them once, and no other. Their jumps
/// go to these labels, or to the units and the epilogue of code for `len` units. There are at
/// most `lines` of them.
pub open spec fn owns(items: Seq<Item>, lo: nat, n: nat, len: nat, lines: nat) -> bool {
    &&& forall|l: nat| #[trigger]
        count(items, l) == (if lo <= l < lo + n {
            1nat
        } else {
            0
        })
    &&& forall|bound: nat|
        bound > len && bound >= lo + n ==> #[trigger] jumps_below(items, bound)
    &&& items.len() <= lines
}

proof fn lemma_tally_same(a: Seq<Item>, b: Seq<Item>, k: int, l: nat)
    requires
        k <= a.len(),
        k <= b.len(),
        forall|i: int| 0 <= i < k ==> a[i] == b[i],
    ensures
        tally(a, k, l) == tally(b, k, l),
        reach_below(a, k, l) == reach_below(b, k, l),
    decreases k,
{
    if k > 0 {
        lemma_tally_same(a, b, k - 1, l);
    }
}

proof fn lemma_tally_add(a: Seq<Item>, b: Seq<Item>, k: int, l: nat)
    requires
        0 <= k <= b.len(),
    ensures
        tally(a + b, a.len() + k, l) == tally(a, a.len() as int, l) + tally(b, k, l),
        reach_below(a + b, a.len() + k, l) == (reach_below(a, a.len() as int, l) && reach_below(
            b,
            k,
            l,
        )),
    decreases k,
{
    if k == 0 {
        lemma_tally_same(a + b, a, a.len() as int, l);
    } else {
        lemma_tally_add(a, b, k - 1, l);
    }
}

broadcast proof fn lemma_count_push(items: Seq<Item>, item: Item, l: nat)
    ensures
        #[trigger] count(items.push(item), l) == count(items, l) + (if item == Item::Bind(l) {
            1nat
        } else {
            0
        }),
{
    reveal(count);
    lemma_tally_same(items.push(item), items, items.len() as int, l);
}

broadcast proof fn lemma_below_push(items: Seq<Item>, item: Item, bound: nat)
    ensures
        #[trigger] jumps_below(items.push(item), bound) == (jumps_below(items, bound) && (
        insn::jump_label(item) matches Some(l) ==> l < bound)),
{
    reveal(jumps_below);
    lemma_tally_same(items.push(item), items, items.len() as int, bound);
}

broadcast proof fn lemma_count_add(a: Seq<Item>, b: Seq<Item>, l: nat)
    ensures
        #[trigger] count(a + b, l) == count(a, l) + count(b, l),
{
    reveal(count);
    lemma_tally_add(a, b, b.len() as int, l);
}

broadcast proof fn lemma_below_add(a: Seq<Item>, b: Seq<Item>, bound: nat)
    ensures
        #[trigger] jumps_below(a + b, bound) == (jumps_below(a, bound) && jumps_below(b, bound)),
{
    reveal(jumps_below);
    lemma_tally_add(a, b, b.len() as int, bound);
}

broadcast proof fn lemma_count_empty(l: nat)
    ensures
        #[trigger] count(Seq::<Item>::empty(), l) == 0,
{
    reveal(count);
}

broadcast proof fn lemma_below_empty(bound: nat)
    ensures
        #[trigger] jumps_below(Seq::<Item>::empty(), bound),
{
    reveal(jumps_below);
}

broadcast proof fn lemma_count_array<const N: usize>(a: [Item; N], l: nat)
    ensures
        #[trigger] count(a@, l) == tally(a@, N as int, l),
{
    reveal(count);
}

broadcast proof fn lemma_below_array<const N: usize>(a: [Item; N], bound: nat)
    ensures
        #[trigger] jumps_below(a@, bound) == reach_below(a@, N as int, bound),
{
    reveal(jumps_below);
}

broadcast group group_lines {
    lemma_count_empty,
    lemma_below_empty,
    lemma_count_array,
    lemma_below_array,
    lemma_count_push,
    lemma_below_push,
    lemma_count_add,
    lemma_below_add,
}

proof fn lemma_exit(f: Facts, lasti: int, lo: nat)
    ensures
        owns(template::exit(f, lasti), lo, 0, f.len, 2),
{
    broadcast use group_lines;
    reveal_with_fuel(tally, 13);
    reveal_with_fuel(reach_below, 13);
    reveal(template::exit);
}

proof fn lemma_straight(f: Facts, lo: nat, r: Reg, id: HelperId)
    ensures
        owns(template::sync_out(), lo, 0, f.len, 2),
        owns(template::sync_in(), lo, 0, f.len, 2),
        owns(template::call_raw(f, id), lo, 0, f.len, 3),
        owns(template::push(r), lo, 0, f.len, 2),
        owns(template::pop(r), lo, 0, f.len, 2),
        owns(template::peek(r), lo, 0, f.len, 1),
        owns(template::incref(f, r), lo, 0, f.len, 1),
{
    broadcast use group_lines;
    reveal_with_fuel(tally, 13);
    reveal_with_fuel(reach_below, 13);
    reveal(template::sync_out);
    reveal(template::sync_in);
    reveal(template::call_raw);
    reveal(template::push);
    reveal(template::pop);
    reveal(template::peek);
    reveal(template::incref);
}

proof fn lemma_call(f: Facts, id: HelperId, arg: u64, idx: int, l: nat)
    ensures
        owns(template::call(f, id, arg, idx, l), l, 1, f.len, 13),
{
    broadcast use group_lines;
    reveal_with_fuel(tally, 13);
    reveal_with_fuel(reach_below, 13);
    reveal(template::call);
    lemma_straight(f, l, Reg::Rax, id);
    lemma_exit(f, idx + 1, l);
}

proof fn lemma_decref_rax(f: Facts, l: nat)
    ensures
        owns(template::decref_rax(f, l), l, 1, f.len, 19),
{
    broadcast use group_lines;
    reveal_with_fuel(tally, 13);
    reveal_with_fuel(reach_below, 13);
    reveal(template::decref_rax);
    reveal(template::call_with_reg_arg);
    lemma_straight(f, l, Reg::Rax, HelperId::Drop);
}

proof fn lemma_discard_rax(f: Facts, l: nat)
    ensures
        owns(template::discard_rax(f, l), l, 2, f.len, 25),
{
    broadcast use group_lines;
    reveal_with_fuel(tally, 13);
    reveal_with_fuel(reach_below, 13);
    reveal(template::discard_rax);
    lemma_decref_rax(f, l + 1);
}

proof fn lemma_promote_rax(f: Facts, l: nat)
    ensures
        owns(template::promote_rax(f, l), l, 1, f.len, 6),
{
    broadcast use group_lines;
    reveal_with_fuel(tally, 13);
    reveal_with_fuel(reach_below, 13);
    reveal(template::promote_rax);
    lemma_straight(f, l, Reg::Rax, HelperId::Drop);
}

proof fn lemma_load_fast(f: Facts, var: u32, idx: int, l: nat)
    ensures
        owns(template::load_fast(f, var, idx, l), l, 3, f.len, 22),
{
    broadcast use group_lines;
    reveal_with_fuel(tally, 13);
    reveal_with_fuel(reach_below, 13);
    reveal(template::load_fast);
    lemma_straight(f, l, Reg::Rax, HelperId::Drop);
    lemma_call(f, HelperId::LoadFast, var as u64, idx, l + 2);
}

proof fn lemma_store_fast(f: Facts, var: u32, l: nat)
    ensures
        owns(template::store_fast(f, var, l), l, 3, f.len, 33),
{
    broadcast use group_lines;
    reveal_with_fuel(tally, 13);
    reveal_with_fuel(reach_below, 13);
    reveal(template::store_fast);
    lemma_straight(f, l, Reg::Rax, HelperId::Drop);
    lemma_promote_rax(f, l + 1);
    lemma_decref_rax(f, l + 2);
}

proof fn lemma_pop_top(f: Facts, l: nat)
    ensures
        owns(template::pop_top(f, l), l, 2, f.len, 27),
        owns(template::drop_top(f, l), l, 2, f.len, 26),
{
    broadcast use group_lines;
    reveal_with_fuel(tally, 13);
    reveal_with_fuel(reach_below, 13);
    reveal(template::pop_top);
    reveal(template::drop_top);
    lemma_straight(f, l, Reg::Rax, HelperId::Drop);
    lemma_discard_rax(f, l);
}

proof fn lemma_push_bool(f: Facts, l: nat)
    ensures
        owns(template::push_bool_from_scratch(f, l), l, 2, f.len, 11),
{
    broadcast use group_lines;
    reveal_with_fuel(tally, 13);
    reveal_with_fuel(reach_below, 13);
    reveal(template::push_bool_from_scratch);
    lemma_straight(f, l, Reg::Rax, HelperId::Drop);
}

proof fn lemma_jump(f: Facts, target: int, l: nat)
    requires
        target >= 0,
    ensures
        owns(template::jump(f, target), l, 0, f.len, 2),
{
    broadcast use group_lines;
    reveal_with_fuel(tally, 13);
    reveal_with_fuel(reach_below, 13);
    reveal(template::jump);
    lemma_exit(f, target, l);
}

proof fn lemma_branch_to(f: Facts, cond: Cond, target: int, l: nat)
    requires
        target >= 0,
    ensures
        owns(template::branch_to(f, cond, target, l), l, template::branch_labels(f, target), f.len, 4),
        owns(template::branch_if(f, cond, target, l), l, template::branch_labels(f, target), f.len, 5),
{
    broadcast use group_lines;
    reveal_with_fuel(tally, 13);
    reveal_with_fuel(reach_below, 13);
    reveal(template::branch_to);
    reveal(template::branch_if);
    lemma_exit(f, target, l);
}

proof fn lemma_compare_hit(f: Facts, fused: Option<Fused>, l: nat)
    requires
        fused matches Some(j) ==> j.target >= 0 && j.after >= 0,
    ensures
        owns(template::compare_hit(f, fused, l), l, template::hit_labels(f, fused), f.len, 11),
{
    broadcast use group_lines;
    reveal_with_fuel(tally, 13);
    reveal_with_fuel(reach_below, 13);
    reveal(template::compare_hit);
    lemma_push_bool(f, l);
    match fused {
        Some(j) => lemma_branch_to(f, template::on(j.jump_on), j.target, l),
        None => {},
    }
}

proof fn lemma_compare_miss(f: Facts, fused: Option<Fused>, idx: int, l: nat)
    requires
        fused matches Some(j) ==> j.target >= 0 && j.after >= 0,
    ensures
        owns(template::compare_miss(f, fused, idx, l), l, template::miss_labels(f, fused), f.len, 18),
{
    broadcast use group_lines;
    reveal_with_fuel(tally, 13);
    reveal_with_fuel(reach_below, 13);
    reveal(template::compare_miss);
    match fused {
        Some(j) => {
            lemma_call(f, HelperId::PopIsTrue, 0, idx, l);
            lemma_branch_to(f, template::on(j.jump_on), j.target, l + 1);
        },
        None => {},
    }
}

#[verifier::rlimit(40)]
proof fn lemma_compare_op(f: Facts, arg: u32, idx: int, fused: Option<Fused>, l: nat)
    requires
        fused matches Some(j) ==> j.target >= 0 && j.after >= 0,
    ensures
        owns(
            template::compare_op(f, arg, idx, fused, l),
            l,
            8 + template::hit_labels(f, fused) + template::miss_labels(f, fused),
            f.len,
            120,
        ),
{
    broadcast use group_lines;
    reveal_with_fuel(tally, 13);
    reveal_with_fuel(reach_below, 13);
    reveal(template::compare_op);
    let m = l + 7 + template::hit_labels(f, fused);
    lemma_call(f, HelperId::CompareFast, arg as u64, idx, l + 2);
    lemma_pop_top(f, l + 3);
    lemma_pop_top(f, l + 5);
    lemma_compare_hit(f, fused, l + 7);
    lemma_call(f, HelperId::CompareOp, arg as u64, idx, m);
    lemma_compare_miss(f, fused, idx, m + 1);
    match fused {
        Some(j) => lemma_jump(f, j.after, l),
        None => {},
    }
}

proof fn lemma_eval_breaker(f: Facts, idx: int, l: nat)
    ensures
        owns(template::eval_breaker(f, idx, l), l, 2, f.len, 17),
{
    broadcast use group_lines;
    reveal_with_fuel(tally, 13);
    reveal_with_fuel(reach_below, 13);
    reveal(template::eval_breaker);
    lemma_call(f, HelperId::EvalBreaker, 0, idx, l + 1);
}

proof fn lemma_binary_op_int(f: Facts, arg: u32, idx: int, l: nat)
    ensures
        owns(template::binary_op_int(f, arg, idx, l), l, 3, f.len, 29),
{
    broadcast use group_lines;
    reveal_with_fuel(tally, 13);
    reveal_with_fuel(reach_below, 13);
    reveal(template::binary_op_int);
    lemma_call(f, HelperId::BinaryOpIntFast, arg as u64, idx, l + 1);
    lemma_call(f, HelperId::BinaryOp, arg as u64, idx, l + 2);
}

proof fn lemma_load_small_int(f: Facts, i: u32, idx: int, l: nat)
    ensures
        owns(
            template::load_small_int(f, i, idx, l),
            l,
            if (f.small_int)(i as i32) is Some {
                0
            } else {
                1
            },
            f.len,
            13,
        ),
{
    broadcast use group_lines;
    reveal_with_fuel(tally, 13);
    reveal_with_fuel(reach_below, 13);
    reveal(template::load_small_int);
    lemma_straight(f, l, Reg::Rax, HelperId::Drop);
    lemma_call(f, HelperId::LoadSmallInt, i as u64, idx, l);
}

/// The lines bind nothing, and their jumps stay below the bound.
spec fn plain(items: Seq<Item>, bound: nat, lines: nat) -> bool {
    &&& forall|l: nat| #[trigger] count(items, l) == 0
    &&& jumps_below(items, bound)
    &&& items.len() <= lines
}

proof fn lemma_tests(f: Facts, l: nat)
    ensures
        plain(template::test_bool(f, l), l + 3, 10),
        plain(template::test_none(f, l), l + 1, 7),
        forall|bound: nat| bound >= l + 3 ==> #[trigger] jumps_below(template::test_bool(f, l), bound),
        forall|bound: nat| bound >= l + 1 ==> #[trigger] jumps_below(template::test_none(f, l), bound),
{
    broadcast use group_lines;
    reveal_with_fuel(tally, 13);
    reveal_with_fuel(reach_below, 13);
    reveal(template::test_bool);
    reveal(template::test_none);
    lemma_straight(f, l, Reg::Rax, HelperId::Drop);
    reveal(template::peek);
    reveal(template::pop);
}

#[verifier::rlimit(40)]
proof fn lemma_pop_jump_if_bool(f: Facts, jump_on: bool, target: int, idx: int, l: nat)
    requires
        target >= 0,
    ensures
        owns(
            template::pop_jump_if_bool(f, jump_on, target, idx, l),
            l,
            9 + template::branch_labels(f, target),
            f.len,
            90,
        ),
{
    broadcast use group_lines;
    reveal_with_fuel(tally, 13);
    reveal_with_fuel(reach_below, 13);
    reveal(template::pop_jump_if_bool);
    lemma_tests(f, l);
    lemma_pop_top(f, l + 4);
    lemma_pop_top(f, l + 6);
    lemma_jump(f, target, l);
    lemma_call(f, HelperId::PopIsTrue, 0, idx, l + 8);
    lemma_branch_to(f, template::on(jump_on), target, l + 9);
}

#[verifier::rlimit(40)]
proof fn lemma_pop_jump_if_none(f: Facts, jump_on_none: bool, target: int, l: nat)
    requires
        target >= 0,
    ensures
        owns(template::pop_jump_if_none(f, jump_on_none, target, l), l, 8, f.len, 70),
{
    broadcast use group_lines;
    reveal_with_fuel(tally, 13);
    reveal_with_fuel(reach_below, 13);
    reveal(template::pop_jump_if_none);
    lemma_tests(f, l + 1);
    lemma_discard_rax(f, l + 3);
    lemma_discard_rax(f, l + 5);
    lemma_jump(f, target, l);
}

#[verifier::rlimit(40)]
proof fn lemma_instruction(f: Facts, units: Seq<CodeUnit>, c: Cursor, l: nat)
    requires
        c.idx >= 0,
        template::operand_fits(units, c),
    ensures
        owns(
            template::instruction(f, units, c, l),
            l,
            template::instruction_labels(f, units, c),
            f.len,
            120,
        ),
{
    broadcast use group_lines;
    reveal_with_fuel(tally, 13);
    reveal_with_fuel(reach_below, 13);
    reveal(template::instruction);
    let idx = c.idx;
    let arg = template::operand(units, c);
    let next = template::next_unit(units, idx);
    match template::classify(bytecode::base_op(units[idx].op)) {
        Op::Extend => {},
        Op::Nothing => {},
        Op::LoadFast => lemma_load_fast(f, arg, idx, l),
        Op::LoadFastLoadFast => {
            lemma_load_fast(f, arg / 16, idx, l);
            lemma_load_fast(f, arg % 16, idx, l + 3);
        },
        Op::StoreFast => lemma_store_fast(f, arg, l),
        Op::StoreFastLoadFast => {
            lemma_store_fast(f, arg / 16, l);
            lemma_load_fast(f, arg % 16, idx, l + 3);
        },
        Op::StoreFastStoreFast => {
            lemma_store_fast(f, arg / 16, l);
            lemma_store_fast(f, arg % 16, l + 3);
        },
        Op::LoadSmallInt => lemma_load_small_int(f, arg, idx, l),
        Op::BinaryOp => {
            lemma_binary_op_int(f, arg, idx, l);
            lemma_call(f, HelperId::BinaryOp, arg as u64, idx, l);
        },
        Op::CompareOp => lemma_compare_op(f, arg, idx, template::fusable(units, next), l),
        Op::PopTop => lemma_pop_top(f, l),
        Op::PopJumpIfBool(jump_on) => lemma_pop_jump_if_bool(f, jump_on, next + arg, idx, l),
        Op::PopJumpIfNone(on_none) => lemma_pop_jump_if_none(f, on_none, next + arg, l),
        Op::ForIter => {
            lemma_call(f, HelperId::ForIter, (next + arg) as u64, idx, l);
            lemma_branch_to(f, Cond::E, template::loop_exit(units, next + arg), l + 1);
        },
        Op::JumpForward => lemma_jump(f, next + arg, l),
        Op::JumpBackward => {
            lemma_eval_breaker(f, idx, l);
            lemma_jump(f, next - arg, l);
        },
        Op::JumpBackwardNoInterrupt => lemma_jump(f, next - arg, l),
        Op::Helper(id) => lemma_call(f, id, arg as u64, idx, l),
        Op::PlainHelper(id) => lemma_call(f, id, 0, idx, l),
        Op::Unsupported => lemma_exit(f, idx, l),
    }
}

/// How often the labels of the units from `from` up to `to` are bound.
proof fn lemma_bind_units(from: int, to: int, l: nat, bound: nat)
    requires
        0 <= from,
    ensures
        count(template::bind_units(from, to), l) == (if from <= l < to {
            1nat
        } else {
            0
        }),
        jumps_below(template::bind_units(from, to), bound),
        template::bind_units(from, to).len() == (if from <= to {
            to - from
        } else {
            0
        }),
    decreases to - from,
{
    broadcast use group_lines;

    if from < to {
        lemma_bind_units(from, to - 1, l, bound);
    }
}

/// The lines of a unit bind the labels of the unit and its caches, and its own.
proof fn lemma_unit(f: Facts, units: Seq<CodeUnit>, c: Cursor, l: nat)
    requires
        0 <= c.idx < units.len(),
        c.fused || template::operand_fits(units, c),
        f.len == units.len(),
        l > f.len,
    ensures
        forall|m: nat| #[trigger]
            count(template::unit(f, units, c, l), m) == (if c.idx <= m < template::caches_end(
                units,
                c.idx,
            ) || l <= m < l + template::unit_labels(f, units, c) {
                1nat
            } else {
                0
            }),
        forall|bound: nat|
            bound >= l + template::unit_labels(f, units, c) ==> #[trigger] jumps_below(
                template::unit(f, units, c, l),
                bound,
            ),
        template::unit(f, units, c, l).len() <= 130,
{
    broadcast use group_lines;

    reveal(template::unit);
    let end = template::caches_end(units, c.idx);
    if c.fused {
        lemma_exit(f, c.idx, l);
    } else {
        lemma_instruction(f, units, c, l);
    }
    assert(bytecode::caches(units[c.idx].op) <= 9);
    lemma_bind_units(c.idx + 1, end, 0, 0);
    assert forall|m: nat| #[trigger]
        count(template::unit(f, units, c, l), m) == (if c.idx <= m < end || l <= m < l
            + template::unit_labels(f, units, c) {
            1nat
        } else {
            0
        }) by {
        lemma_bind_units(c.idx + 1, end, m, 0);
    }
    assert forall|bound: nat|
        bound >= l + template::unit_labels(f, units, c) implies #[trigger] jumps_below(
        template::unit(f, units, c, l),
        bound,
    ) by {
        lemma_bind_units(c.idx + 1, end, 0, bound);
    }
}

/// How many labels the units from the cursor on use.
pub open spec fn body_labels(f: Facts, units: Seq<CodeUnit>, c: Cursor) -> nat
    decreases template::remaining(units, c.idx),
{
    if 0 <= c.idx < units.len() {
        template::unit_labels(f, units, c) + body_labels(f, units, template::advance(units, c))
    } else {
        0
    }
}

/// How many labels the code of the units has: one for each unit, one for the epilogue, and
/// those inside the units.
pub open spec fn label_count(f: Facts, units: Seq<CodeUnit>) -> nat {
    f.len + 1 + body_labels(f, units, template::start())
}

proof fn lemma_body(f: Facts, units: Seq<CodeUnit>, c: Cursor, l: nat, m: nat, bound: nat)
    requires
        0 <= c.idx,
        template::operands_fit(units, c),
        f.len == units.len(),
        l > f.len,
        bound >= l + body_labels(f, units, c),
    ensures
        count(template::body(f, units, c, l), m) == (if c.idx <= m < units.len() || l <= m < l
            + body_labels(f, units, c) {
            1nat
        } else {
            0
        }),
        jumps_below(template::body(f, units, c, l), bound),
        template::body(f, units, c, l).len() <= 130 * template::remaining(units, c.idx),
    decreases template::remaining(units, c.idx),
{
    broadcast use group_lines;

    if c.idx < units.len() {
        let next = template::advance(units, c);
        let n = template::unit_labels(f, units, c);
        lemma_unit(f, units, c, l);
        lemma_body(f, units, next, l + n, m, bound);
    }
}

proof fn lemma_ends(f: Facts, m: nat, bound: nat)
    requires
        bound > f.len,
    ensures
        count(template::prologue(f), m) == 0,
        jumps_below(template::prologue(f), bound),
        template::prologue(f).len() <= 14,
        count(template::epilogue(f), m) == (if m == f.len {
            1nat
        } else {
            0
        }),
        jumps_below(template::epilogue(f), bound),
        template::epilogue(f).len() <= 12,
{
    broadcast use group_lines;

    reveal_with_fuel(tally, 13);
    reveal_with_fuel(reach_below, 13);
    reveal(template::prologue);
    reveal(template::epilogue);
    lemma_exit(f, f.len as int, 0);
    lemma_straight(f, 0, Reg::Rax, HelperId::Drop);
}

proof fn lemma_program(f: Facts, units: Seq<CodeUnit>, m: nat)
    requires
        f.len == units.len(),
        template::operands_fit(units, template::start()),
    ensures
        count(template::program(f, units), m) == (if m < label_count(f, units) {
            1nat
        } else {
            0
        }),
        jumps_below(template::program(f, units), label_count(f, units)),
        template::program(f, units).len() <= 130 * units.len() + 26,
{
    broadcast use group_lines;

    let bound = label_count(f, units);
    lemma_ends(f, m, bound);
    lemma_body(f, units, template::start(), f.len + 1, m, bound);
}

proof fn lemma_tally_monotone(items: Seq<Item>, i: int, j: int, l: nat)
    requires
        i <= j,
    ensures
        tally(items, i, l) <= tally(items, j, l),
    decreases j - i,
{
    if i < j {
        lemma_tally_monotone(items, i, j - 1, l);
    }
}

/// A label that is bound once is bound at one line.
proof fn lemma_bound_once(items: Seq<Item>, i: int, j: int, l: nat)
    requires
        count(items, l) <= 1,
        0 <= i < items.len(),
        0 <= j < items.len(),
        items[i] == Item::Bind(l),
        items[j] == Item::Bind(l),
    ensures
        i == j,
{
    reveal(count);
    if i < j {
        lemma_tally_monotone(items, i + 1, j, l);
        lemma_tally_monotone(items, j + 1, items.len() as int, l);
        lemma_tally_monotone(items, 0, i, l);
    } else if j < i {
        lemma_tally_monotone(items, j + 1, i, l);
        lemma_tally_monotone(items, i + 1, items.len() as int, l);
        lemma_tally_monotone(items, 0, j, l);
    }
}

/// A label that is bound has a line that binds it.
proof fn lemma_bound_somewhere(items: Seq<Item>, k: int, l: nat) -> (i: int)
    requires
        0 <= k <= items.len(),
        tally(items, k, l) > 0,
    ensures
        0 <= i < k,
        items[i] == Item::Bind(l),
    decreases k,
{
    if items[k - 1] == Item::Bind(l) {
        k - 1
    } else {
        lemma_bound_somewhere(items, k - 1, l)
    }
}

pub proof fn lemma_label_at_bind(items: Seq<Item>, k: int, l: nat)
    requires
        0 <= k < items.len(),
        items[k] == Item::Bind(l),
        forall|i: int| k < i < items.len() ==> items[i] != Item::Bind(l),
    ensures
        insn::label_at(items, l) == Some(insn::offset(items, k)),
    decreases items.len(),
{
    let front = items.drop_last();
    if k == items.len() - 1 {
        assert(items.take(k) =~= front);
    } else {
        assert(front.take(k) =~= items.take(k));
        lemma_label_at_bind(front, k, l);
    }
}

/// The line that binds a label.
pub open spec fn place(items: Seq<Item>, l: nat) -> int {
    choose|k: int| 0 <= k < items.len() && #[trigger] items[k] == Item::Bind(l)
}

/// Every label of compiled code stands for one place: there is one line that binds it, and
/// the code gives it the offset of that line.
pub proof fn law_labels_bound_once(f: Facts, units: Seq<CodeUnit>, l: nat)
    requires
        f.len == units.len(),
        template::operands_fit(units, template::start()),
        l < label_count(f, units),
    ensures
        ({
            let items = template::program(f, units);
            let k = place(items, l);
            &&& 0 <= k < items.len()
            &&& items[k] == Item::Bind(l)
            &&& forall|i: int|
                0 <= i < items.len() && #[trigger] items[i] == Item::Bind(l) ==> i == k
            &&& insn::label_at(items, l) == Some(insn::offset(items, k))
        }),
{
    let items = template::program(f, units);
    lemma_program(f, units, l);
    assert(tally(items, items.len() as int, l) == 1) by {
        reveal(count);
    }
    let w = lemma_bound_somewhere(items, items.len() as int, l);
    let k = place(items, l);
    assert forall|i: int| 0 <= i < items.len() && #[trigger] items[i] == Item::Bind(l) implies i
        == k by {
        lemma_bound_once(items, i, k, l);
    }
    lemma_label_at_bind(items, k, l);
}

/// No two lines of compiled code bind the same label.
pub proof fn law_no_label_bound_twice(f: Facts, units: Seq<CodeUnit>, i: int, j: int)
    requires
        f.len == units.len(),
        template::operands_fit(units, template::start()),
        0 <= i < template::program(f, units).len(),
        0 <= j < template::program(f, units).len(),
        template::program(f, units)[i] is Bind,
        template::program(f, units)[j] == template::program(f, units)[i],
    ensures
        i == j,
{
    let items = template::program(f, units);
    match items[i] {
        Item::Bind(l) => {
            lemma_program(f, units, l);
            lemma_bound_once(items, i, j, l);
        },
        _ => {},
    }
}

proof fn lemma_reach(items: Seq<Item>, k: int, n: int, bound: nat)
    requires
        0 <= k < n <= items.len(),
        reach_below(items, n, bound),
    ensures
        insn::jump_label(items[k]) matches Some(l) ==> l < bound,
    decreases n,
{
    if k < n - 1 {
        lemma_reach(items, k, n - 1, bound);
    }
}

/// Every jump of compiled code goes to a label of the code.
pub proof fn law_jumps_have_targets(f: Facts, units: Seq<CodeUnit>, k: int)
    requires
        f.len == units.len(),
        template::operands_fit(units, template::start()),
        0 <= k < template::program(f, units).len(),
    ensures
        insn::jump_label(template::program(f, units)[k]) matches Some(l) ==> l < label_count(
            f,
            units,
        ) && insn::label_at(template::program(f, units), l) is Some,
{
    let items = template::program(f, units);
    lemma_program(f, units, 0);
    assert(reach_below(items, items.len() as int, label_count(f, units))) by {
        reveal(jumps_below);
    }
    lemma_reach(items, k, items.len() as int, label_count(f, units));
    match insn::jump_label(items[k]) {
        Some(l) => law_labels_bound_once(f, units, l),
        None => {},
    }
}

proof fn lemma_rex_len(w: bool, reg: Reg, rm: Reg)
    ensures
        insn::rex(w, reg, rm).len() <= 1,
{
}

proof fn lemma_mem_len(reg: int, base: Reg, disp: i32)
    ensures
        insn::modrm_mem(reg, base, disp).len() <= 6,
{
}

#[verifier::spinoff_prover]
#[verifier::rlimit(40)]
proof fn lemma_memory_len(i: Insn)
    requires
        i is MovRM || i is MovMR || i is MovRM32 || i is MovMR32 || i is LockXadd || i is LockAddMI
            || i is SubMI || i is MovMI32,
    ensures
        insn::encode(i).len() <= 16,
{
    match i {
        Insn::MovRM { dst, base, disp } => {
            lemma_rex_len(true, dst, base);
            lemma_mem_len(dst.low_bits(), base, disp);
        },
        Insn::MovMR { base, disp, src } => {
            lemma_rex_len(true, src, base);
            lemma_mem_len(src.low_bits(), base, disp);
        },
        Insn::MovRM32 { dst, base, disp } => {
            lemma_rex_len(false, dst, base);
            lemma_mem_len(dst.low_bits(), base, disp);
        },
        Insn::MovMR32 { base, disp, src } => {
            lemma_rex_len(false, src, base);
            lemma_mem_len(src.low_bits(), base, disp);
        },
        Insn::LockXadd { base, disp, src } => {
            lemma_rex_len(true, src, base);
            lemma_mem_len(src.low_bits(), base, disp);
        },
        Insn::LockAddMI { base, disp, .. } => {
            lemma_rex_len(true, Reg::Rax, base);
            lemma_mem_len(0, base, disp);
        },
        Insn::SubMI { base, disp, .. } => {
            lemma_rex_len(true, Reg::Rax, base);
            lemma_mem_len(5, base, disp);
        },
        Insn::MovMI32 { base, disp, .. } => {
            lemma_rex_len(true, Reg::Rax, base);
            lemma_mem_len(0, base, disp);
        },
        _ => {},
    }
}

#[verifier::spinoff_prover]
#[verifier::rlimit(40)]
proof fn lemma_register_len(i: Insn)
    requires
        !(i is MovRM || i is MovMR || i is MovRM32 || i is MovMR32 || i is LockXadd || i
            is LockAddMI || i is SubMI || i is MovMI32),
    ensures
        insn::encode(i).len() <= 16,
{
    match i {
        Insn::MovRR { dst, src } => lemma_rex_len(true, src, dst),
        Insn::MovRI { dst, .. } => lemma_rex_len(true, Reg::Rax, dst),
        Insn::AluRR { dst, src, .. } => lemma_rex_len(true, src, dst),
        Insn::TestRR { a, b } => lemma_rex_len(true, b, a),
        Insn::AluRI { dst, .. } => lemma_rex_len(true, Reg::Rax, dst),
        Insn::ShiftRI { dst, .. } => lemma_rex_len(true, Reg::Rax, dst),
        Insn::ImulRR { dst, src } => lemma_rex_len(true, dst, src),
        Insn::Push { r } => lemma_rex_len(false, Reg::Rax, r),
        Insn::Pop { r } => lemma_rex_len(false, Reg::Rax, r),
        Insn::CallR { r } => lemma_rex_len(false, Reg::Rax, r),
        Insn::JmpR { r } => lemma_rex_len(false, Reg::Rax, r),
        _ => {},
    }
}

proof fn lemma_insn_len(i: Insn)
    ensures
        insn::encode(i).len() <= 16,
{
    if i is MovRM || i is MovMR || i is MovRM32 || i is MovMR32 || i is LockXadd || i is LockAddMI
        || i is SubMI || i is MovMI32 {
        lemma_memory_len(i);
    } else {
        lemma_register_len(i);
    }
}

proof fn lemma_item_len(item: Item)
    ensures
        insn::item_len(item) <= 16,
{
    match item {
        Item::Op(i) => lemma_insn_len(i),
        _ => {},
    }
}

proof fn lemma_code_len(items: Seq<Item>)
    ensures
        insn::code_len(items) <= 16 * items.len(),
    decreases items.len(),
{
    if items.len() > 0 {
        lemma_code_len(items.drop_last());
        lemma_item_len(items.last());
    }
}

/// So many units can be compiled whatever they are.
pub const ORDINARY_UNITS: u64 = 1_000_000;

/// Code of ordinary size is compiled whenever its operands fit: no jump is too far, and every
/// offset in it fits in 32 bits.
pub proof fn law_ordinary_code_is_accepted(f: Facts, units: Seq<CodeUnit>)
    requires
        f.len == units.len(),
        units.len() <= ORDINARY_UNITS,
        template::operands_fit(units, template::start()),
    ensures
        codegen::accepts(f, units),
        insn::code_len(template::program(f, units)) <= u32::MAX,
{
    let items = template::program(f, units);
    lemma_program(f, units, 0);
    lemma_code_len(items);
    assert forall|k: int| 0 <= k < items.len() implies #[trigger] insn::jump_resolves(items, k) by {
        law_jumps_have_targets(f, units, k);
        match insn::jump_label(items[k]) {
            Some(l) => {
                law_labels_bound_once(f, units, l);
                lemma_code_len(items.take(k));
                lemma_code_len(items.take(place(items, l)));
            },
            None => {},
        }
    }
}

} // verus!
