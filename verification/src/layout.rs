//! How the code of a listing grows line by line.
use crate::insn;
use crate::insn::Item;
use vstd::prelude::*;

verus! {

/// One more line adds its length and, if it is a jump, its field.
pub proof fn lemma_push(items: Seq<Item>, item: Item)
    ensures
        insn::code_len(items.push(item)) == insn::code_len(items) + insn::item_len(item),
        insn::fixups_of(items.push(item)) == (match insn::jump_label(item) {
            Some(l) => insn::fixups_of(items).push(
                (insn::code_len(items) + insn::jump_opcode_len(item), l),
            ),
            None => insn::fixups_of(items),
        }),
{
    assert(items.push(item).drop_last() =~= items);
}

/// One more line binds at most the label it names.
pub broadcast proof fn lemma_label_push(items: Seq<Item>, item: Item, l: nat)
    ensures
        #[trigger] insn::label_at(items.push(item), l) == (if item == Item::Bind(l) {
            Some(insn::code_len(items))
        } else {
            insn::label_at(items, l)
        }),
{
    assert(items.push(item).drop_last() =~= items);
}

/// Unresolved code does not depend on where labels are bound.
pub proof fn lemma_code_upto_raw(items: Seq<Item>, a: Seq<Item>, b: Seq<Item>)
    ensures
        insn::code_upto(items, 0, a) == insn::code_upto(items, 0, b),
    decreases items.len(),
{
    if items.len() > 0 {
        lemma_code_upto_raw(items.drop_last(), a, b);
    }
}

/// One more line adds its bytes to the unresolved code.
pub proof fn lemma_code_upto_push_raw(items: Seq<Item>, item: Item)
    ensures
        insn::code_upto(items.push(item), 0, items.push(item)) == insn::code_upto(items, 0, items)
            + insn::item_bytes(item, 0),
{
    assert(items.push(item).drop_last() =~= items);
    lemma_code_upto_raw(items, items, items.push(item));
}

/// The code of a listing has the length of its lines.
pub proof fn lemma_code_upto_len(items: Seq<Item>, done: int, all: Seq<Item>)
    ensures
        insn::code_upto(items, done, all).len() == insn::code_len(items),
    decreases items.len(),
{
    if items.len() > 0 {
        lemma_code_upto_len(items.drop_last(), done, all);
    }
}

/// Line `k` counts as one jump more, or none.
pub proof fn lemma_count_step(items: Seq<Item>, k: int)
    requires
        0 <= k < items.len(),
    ensures
        insn::fixups_of(items.take(k + 1)).len() == insn::fixups_of(items.take(k)).len() + (
        if insn::jump_label(items[k]) is Some {
            1int
        } else {
            0
        }),
        insn::offset(items, k + 1) == insn::offset(items, k) + insn::item_len(items[k]),
{
    assert(items.take(k + 1) =~= items.take(k).push(items[k]));
    lemma_push(items.take(k), items[k]);
}

pub proof fn lemma_count_monotone(items: Seq<Item>, a: int, b: int)
    requires
        0 <= a <= b <= items.len(),
    ensures
        insn::fixups_of(items.take(a)).len() <= insn::fixups_of(items.take(b)).len(),
        insn::offset(items, a) <= insn::offset(items, b),
    decreases b - a,
{
    if a < b {
        lemma_count_monotone(items, a, b - 1);
        lemma_count_step(items, b - 1);
    }
}

/// The jump that the `j`-th field belongs to.
pub proof fn lemma_fixup_item(items: Seq<Item>, j: int) -> (k: int)
    requires
        0 <= j < insn::fixups_of(items).len(),
    ensures
        0 <= k < items.len(),
        insn::jump_label(items[k]) == Some(insn::fixups_of(items)[j].1),
        insn::fixups_of(items)[j].0 == insn::offset(items, k) + insn::jump_opcode_len(items[k]),
        insn::fixups_of(items.take(k)).len() == j,
    decreases items.len(),
{
    let last = items.len() - 1;
    assert(items.take(last) =~= items.drop_last());
    if j < insn::fixups_of(items.drop_last()).len() {
        let k = lemma_fixup_item(items.drop_last(), j);
        assert(items.drop_last().take(k) =~= items.take(k));
        k
    } else {
        last
    }
}

/// If as many jumps come before line `b` as before line `a`, none stands between.
pub proof fn lemma_no_jumps_between(items: Seq<Item>, a: int, b: int)
    requires
        0 <= a <= items.len(),
        0 <= b <= items.len(),
        insn::fixups_of(items.take(a)).len() == insn::fixups_of(items.take(b)).len(),
        b == items.len() || insn::jump_label(items[b]) is Some,
    ensures
        a <= b,
        forall|i: int| a <= i < b ==> insn::jump_label(#[trigger] items[i]) is None,
{
    if b < a {
        lemma_count_step(items, b);
        lemma_count_monotone(items, b + 1, a);
    }
    assert forall|i: int| a <= i < b implies insn::jump_label(#[trigger] items[i]) is None by {
        lemma_count_monotone(items, a, i);
        lemma_count_step(items, i);
        lemma_count_monotone(items, i + 1, b);
    }
}

/// Resolving lines that are no jumps changes nothing.
pub proof fn lemma_code_upto_skip(items: Seq<Item>, a: int, b: int, all: Seq<Item>)
    requires
        0 <= a <= b <= items.len(),
        forall|i: int| a <= i < b ==> insn::jump_label(#[trigger] items[i]) is None,
    ensures
        insn::code_upto(items, a, all) == insn::code_upto(items, b, all),
    decreases items.len(),
{
    if items.len() > 0 {
        let prev = items.drop_last();
        if b <= prev.len() {
            lemma_code_upto_skip(prev, a, b, all);
        } else if a <= prev.len() {
            lemma_code_upto_skip(prev, a, b - 1, all);
            lemma_code_upto_past_end(prev, b - 1, b, all);
            assert(insn::item_bytes(items.last(), 0) == insn::item_bytes(
                items.last(),
                insn::resolved_field(items, items.len() - 1, all),
            )) by {
                assert(insn::jump_label(items[items.len() - 1]) is None || a == b);
            }
        }
    }
}

/// Nothing is left to resolve past the last line.
pub proof fn lemma_code_upto_past_end(items: Seq<Item>, a: int, b: int, all: Seq<Item>)
    requires
        items.len() <= a,
        items.len() <= b,
    ensures
        insn::code_upto(items, a, all) == insn::code_upto(items, b, all),
    decreases items.len(),
{
    if items.len() > 0 {
        lemma_code_upto_past_end(items.drop_last(), a, b, all);
    }
}

/// The displacement field of a jump lies inside the code.
pub proof fn lemma_field_fits(items: Seq<Item>, k: int)
    requires
        0 <= k < items.len(),
    ensures
        insn::offset(items, k) + insn::item_len(items[k]) <= insn::code_len(items),
{
    lemma_count_step(items, k);
    lemma_count_monotone(items, k + 1, items.len() as int);
    assert(items.take(items.len() as int) =~= items);
}

/// Resolving one jump more writes the four bytes of its field.
pub proof fn lemma_code_upto_set(items: Seq<Item>, k: int, all: Seq<Item>)
    requires
        0 <= k < items.len(),
        insn::jump_label(items[k]) is Some,
    ensures
        ({
            let before = insn::code_upto(items, k, all);
            let after = insn::code_upto(items, k + 1, all);
            let at = insn::offset(items, k) + insn::jump_opcode_len(items[k]);
            let field = insn::le4(insn::resolved_field(items, k, all));
            &&& after.len() == before.len()
            &&& at + 4 <= before.len()
            &&& forall|i: int|
                0 <= i < before.len() ==> #[trigger] after[i] == (if at <= i < at + 4 {
                    field[i - at]
                } else {
                    before[i]
                })
        }),
    decreases items.len(),
{
    let prev = items.drop_last();
    lemma_code_upto_len(items, k, all);
    lemma_code_upto_len(items, k + 1, all);
    lemma_code_upto_len(prev, k, all);
    lemma_code_upto_len(prev, k + 1, all);
    lemma_field_fits(items, k);
    if k == prev.len() {
        assert(items.take(k) =~= prev);
        lemma_code_upto_past_end(prev, k, k + 1, all);
    } else {
        assert(prev.take(k) =~= items.take(k));
        lemma_code_upto_set(prev, k, all);
        lemma_field_fits(prev, k);
    }
}

} // verus!
