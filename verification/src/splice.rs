//! Runs of assembler calls that use labels of their own can be put one behind the other: their
//! code only grows at its end, and jumps do not depend on where it lies.
use crate::insn;
use crate::insn::{Item, Listing};
use vstd::prelude::*;

verus! {

/// The line with its label numbered `n` higher.
pub open spec fn raised(item: Item, n: nat) -> Item {
    match item {
        Item::Op(i) => Item::Op(i),
        Item::Jmp(l) => Item::Jmp(l + n),
        Item::Jcc(cond, l) => Item::Jcc(cond, l + n),
        Item::Bind(l) => Item::Bind(l + n),
    }
}

/// The lines with their labels numbered `n` higher.
pub open spec fn raised_all(items: Seq<Item>, n: nat) -> Seq<Item> {
    Seq::new(items.len(), |k: int| raised(items[k], n))
}

/// What is listed when the calls that list `b` are made behind those that list `a`: the labels
/// of `b` are handed out after those of `a`.
pub open spec fn then_listed(a: Listing, b: Listing) -> Listing {
    Listing { items: a.items + raised_all(b.items, a.labels), labels: a.labels + b.labels }
}

/// The label that a line jumps to or binds.
pub open spec fn label_of(item: Item) -> Option<nat> {
    match item {
        Item::Op(_) => None,
        Item::Jmp(l) => Some(l),
        Item::Jcc(_, l) => Some(l),
        Item::Bind(l) => Some(l),
    }
}

/// The line uses only labels below `n`, and jumps only to those that `all` binds.
pub open spec fn line_closed(item: Item, all: Seq<Item>, n: nat) -> bool {
    &&& label_of(item) matches Some(l) ==> l < n
    &&& insn::jump_label(item) matches Some(l) ==> insn::label_at(all, l) is Some
}

/// Every label that the listing uses was handed out in it, and those it jumps to are bound in
/// it.
pub open spec fn self_contained(a: Listing) -> bool {
    forall|k: int|
        0 <= k < a.items.len() ==> line_closed(#[trigger] a.items[k], a.items, a.labels)
}

/// Each call adds to a listing what it adds when other calls were made before: a line with its
/// label numbered on, or a label.
pub proof fn law_calls_only_append(a: Listing, b: Listing, item: Item)
    ensures
        then_listed(a, Listing::empty()) == a,
        then_listed(a, b.push(item)) == then_listed(a, b).push(raised(item, a.labels)),
        then_listed(a, b.fresh()) == then_listed(a, b).fresh(),
{
    assert(then_listed(a, Listing::empty()) =~= a);
    assert(then_listed(a, b.push(item)) =~= then_listed(a, b).push(raised(item, a.labels)));
    assert(then_listed(a, b.fresh()) =~= then_listed(a, b).fresh());
}

proof fn lemma_raised_len(item: Item, n: nat)
    ensures
        insn::item_len(raised(item, n)) == insn::item_len(item),
        insn::jump_opcode_len(raised(item, n)) == insn::jump_opcode_len(item),
{
}

proof fn lemma_raised_last(b: Seq<Item>, n: nat)
    requires
        b.len() > 0,
    ensures
        raised_all(b, n).drop_last() == raised_all(b.drop_last(), n),
        raised_all(b, n).last() == raised(b.last(), n),
{
    assert(raised_all(b, n).drop_last() =~= raised_all(b.drop_last(), n));
}

/// Lines behind others: the front without the last of them.
proof fn lemma_front(a: Seq<Item>, b: Seq<Item>, n: nat)
    requires
        b.len() > 0,
    ensures
        (a + raised_all(b, n)).drop_last() == a + raised_all(b.drop_last(), n),
        (a + raised_all(b, n)).last() == raised(b.last(), n),
{
    lemma_raised_last(b, n);
    assert((a + raised_all(b, n)).drop_last() =~= a + raised_all(b.drop_last(), n));
}

proof fn lemma_len(a: Seq<Item>, b: Seq<Item>, n: nat)
    ensures
        insn::code_len(a + raised_all(b, n)) == insn::code_len(a) + insn::code_len(b),
    decreases b.len(),
{
    if b.len() == 0 {
        assert(a + raised_all(b, n) =~= a);
    } else {
        lemma_front(a, b, n);
        lemma_raised_len(b.last(), n);
        lemma_len(a, b.drop_last(), n);
    }
}

/// The labels of the lines in front keep their place.
proof fn lemma_label_in_front(a: Seq<Item>, b: Seq<Item>, n: nat, l: nat)
    requires
        l < n,
    ensures
        insn::label_at(a + raised_all(b, n), l) == insn::label_at(a, l),
    decreases b.len(),
{
    if b.len() == 0 {
        assert(a + raised_all(b, n) =~= a);
    } else {
        lemma_front(a, b, n);
        lemma_label_in_front(a, b.drop_last(), n, l);
    }
}

proof fn lemma_not_bound(a: Seq<Item>, n: nat, l: nat)
    requires
        forall|k: int| 0 <= k < a.len() ==> (label_of(#[trigger] a[k]) matches Some(x) ==> x < n),
        l >= n,
    ensures
        insn::label_at(a, l) is None,
    decreases a.len(),
{
    if a.len() > 0 {
        let front = a.drop_last();
        assert forall|k: int| 0 <= k < front.len() implies (label_of(
            #[trigger] front[k],
        ) matches Some(x) ==> x < n) by {
            assert(front[k] == a[k]);
        }
        lemma_not_bound(front, n, l);
        assert(a.last() == a[a.len() - 1]);
    }
}

/// The labels of the lines behind move by the length of the code in front.
proof fn lemma_label_behind(a: Seq<Item>, b: Seq<Item>, n: nat, l: nat)
    requires
        forall|k: int| 0 <= k < a.len() ==> (label_of(#[trigger] a[k]) matches Some(x) ==> x < n),
    ensures
        insn::label_at(a + raised_all(b, n), l + n) == (match insn::label_at(b, l) {
            Some(at) => Some(insn::code_len(a) + at),
            None => None,
        }),
    decreases b.len(),
{
    if b.len() == 0 {
        assert(a + raised_all(b, n) =~= a);
        lemma_not_bound(a, n, l + n);
    } else {
        lemma_front(a, b, n);
        lemma_label_behind(a, b.drop_last(), n, l);
        lemma_len(a, b.drop_last(), n);
    }
}

/// The code of the lines in front does not change by what is put behind them.
proof fn lemma_code_front(
    a: Seq<Item>,
    all: Seq<Item>,
    more: Seq<Item>,
    done: int,
    more_done: int,
)
    requires
        a.len() <= done,
        a.len() <= more_done,
        forall|k: int|
            0 <= k < a.len() ==> (insn::jump_label(#[trigger] a[k]) matches Some(l)
                ==> insn::label_at(more, l) == insn::label_at(all, l)),
    ensures
        insn::code_upto(a, more_done, more) == insn::code_upto(a, done, all),
    decreases a.len(),
{
    if a.len() > 0 {
        let front = a.drop_last();
        assert forall|k: int| 0 <= k < front.len() implies (insn::jump_label(
            #[trigger] front[k],
        ) matches Some(l) ==> insn::label_at(more, l) == insn::label_at(all, l)) by {
            assert(front[k] == a[k]);
        }
        lemma_code_front(front, all, more, done, more_done);
        assert(a[a.len() - 1] == a.last());
        assert(insn::resolved_field(a, a.len() - 1, more) == insn::resolved_field(
            a,
            a.len() - 1,
            all,
        ));
    }
}

/// The distance of a jump among the lines behind is what it was.
proof fn lemma_same_distance(a: Seq<Item>, b: Seq<Item>, k: int, n: nat)
    requires
        0 <= k < b.len(),
    ensures
        (a + raised_all(b, n))[a.len() + k] == raised(b[k], n),
        insn::offset(a + raised_all(b, n), a.len() + k) == insn::code_len(a) + insn::offset(b, k),
{
    assert((a + raised_all(b, n)).take(a.len() + k) =~= a + raised_all(b.take(k), n));
    lemma_len(a, b.take(k), n);
}

/// The code of the lines behind is what it is alone.
proof fn lemma_code_behind(
    a: Seq<Item>,
    b: Seq<Item>,
    n: nat,
    all: Seq<Item>,
    more: Seq<Item>,
    done: int,
    more_done: int,
)
    requires
        b.len() <= done,
        a.len() + b.len() <= more_done,
        forall|k: int|
            0 <= k < b.len() ==> (insn::jump_label(#[trigger] b[k]) matches Some(l) ==> {
                &&& insn::label_at(all, l) is Some
                &&& insn::label_at(more, l + n) == Some(
                    insn::code_len(a) + insn::label_at(all, l).unwrap(),
                )
            }),
    ensures
        insn::code_upto(a + raised_all(b, n), more_done, more) == insn::code_upto(
            a,
            more_done,
            more,
        ) + insn::code_upto(b, done, all),
    decreases b.len(),
{
    let both = a + raised_all(b, n);
    if b.len() == 0 {
        assert(both =~= a);
        assert(insn::code_upto(a, more_done, more) + insn::code_upto(b, done, all)
            =~= insn::code_upto(a, more_done, more));
    } else {
        let front = b.drop_last();
        let last = b.len() - 1;
        assert forall|k: int| 0 <= k < front.len() implies (insn::jump_label(
            #[trigger] front[k],
        ) matches Some(l) ==> {
            &&& insn::label_at(all, l) is Some
            &&& insn::label_at(more, l + n) == Some(
                insn::code_len(a) + insn::label_at(all, l).unwrap(),
            )
        }) by {
            assert(front[k] == b[k]);
        }
        lemma_code_behind(a, front, n, all, more, done, more_done);
        lemma_front(a, b, n);
        lemma_same_distance(a, b, last, n);
        lemma_raised_len(b.last(), n);
        assert(b[last] == b.last());
        assert(insn::resolved_field(both, both.len() - 1, more) == insn::resolved_field(
            b,
            last,
            all,
        ));
        assert(insn::code_upto(both, more_done, more) =~= insn::code_upto(a, more_done, more)
            + insn::code_upto(b, done, all));
    }
}

/// The code of two runs of calls, each with labels of its own, is the code of the first
/// followed by the code of the second.
pub proof fn law_code_of_runs_is_concatenated(a: Listing, b: Listing)
    requires
        self_contained(a),
        self_contained(b),
    ensures
        insn::assemble(then_listed(a, b).items) == insn::assemble(a.items) + insn::assemble(
            b.items,
        ),
{
    let n = a.labels;
    let more = then_listed(a, b).items;
    let total = more.len() as int;
    lemma_labels_below(a);
    assert forall|k: int| 0 <= k < a.items.len() implies (insn::jump_label(
        #[trigger] a.items[k],
    ) matches Some(l) ==> insn::label_at(more, l) == insn::label_at(a.items, l)) by {
        assert(line_closed(a.items[k], a.items, n));
        match insn::jump_label(a.items[k]) {
            Some(l) => lemma_label_in_front(a.items, b.items, n, l),
            None => {},
        }
    }
    lemma_code_front(a.items, a.items, more, a.items.len() as int, total);
    assert forall|k: int| 0 <= k < b.items.len() implies (insn::jump_label(
        #[trigger] b.items[k],
    ) matches Some(l) ==> {
        &&& insn::label_at(b.items, l) is Some
        &&& insn::label_at(more, l + n) == Some(
            insn::code_len(a.items) + insn::label_at(b.items, l).unwrap(),
        )
    }) by {
        assert(line_closed(b.items[k], b.items, b.labels));
        match insn::jump_label(b.items[k]) {
            Some(l) => lemma_label_behind(a.items, b.items, n, l),
            None => {},
        }
    }
    lemma_code_behind(
        a.items,
        b.items,
        n,
        b.items,
        more,
        b.items.len() as int,
        total,
    );
}

proof fn lemma_labels_below(a: Listing)
    requires
        self_contained(a),
    ensures
        forall|k: int|
            0 <= k < a.items.len() ==> (label_of(#[trigger] a.items[k]) matches Some(x) ==> x
                < a.labels),
{
    assert forall|k: int| 0 <= k < a.items.len() implies (label_of(
        #[trigger] a.items[k],
    ) matches Some(x) ==> x < a.labels) by {
        assert(line_closed(a.items[k], a.items, a.labels));
    }
}

/// Two runs of calls, each with labels of its own, can be finished together exactly if each can
/// be finished alone.
pub proof fn law_runs_finish_together(a: Listing, b: Listing)
    requires
        self_contained(a),
        self_contained(b),
    ensures
        self_contained(then_listed(a, b)),
        insn::jumps_resolve(then_listed(a, b).items) <==> insn::jumps_resolve(a.items)
            && insn::jumps_resolve(b.items),
{
    let n = a.labels;
    let more = then_listed(a, b).items;
    lemma_labels_below(a);
    assert forall|k: int| 0 <= k < a.items.len() implies {
        &&& #[trigger] insn::jump_resolves(a.items, k) == insn::jump_resolves(more, k)
        &&& line_closed(more[k], more, n + b.labels)
    } by {
        assert(line_closed(a.items[k], a.items, n));
        assert(more[k] == a.items[k]);
        assert(more.take(k) =~= a.items.take(k));
        match insn::jump_label(a.items[k]) {
            Some(l) => lemma_label_in_front(a.items, b.items, n, l),
            None => {},
        }
    }
    assert forall|k: int| 0 <= k < b.items.len() implies {
        &&& #[trigger] insn::jump_resolves(b.items, k) == insn::jump_resolves(
            more,
            a.items.len() + k,
        )
        &&& line_closed(more[a.items.len() + k], more, n + b.labels)
    } by {
        assert(line_closed(b.items[k], b.items, b.labels));
        lemma_same_distance(a.items, b.items, k, n);
        lemma_raised_len(b.items[k], n);
        match insn::jump_label(b.items[k]) {
            Some(l) => lemma_label_behind(a.items, b.items, n, l),
            None => {},
        }
    }
    assert forall|k: int| 0 <= k < more.len() implies line_closed(
        #[trigger] more[k],
        more,
        n + b.labels,
    ) by {
        if k < a.items.len() {
            assert(insn::jump_resolves(a.items, k) == insn::jump_resolves(more, k));
        } else {
            let j = k - a.items.len();
            assert(insn::jump_resolves(b.items, j) == insn::jump_resolves(
                more,
                a.items.len() + j,
            ));
        }
    }
    if insn::jumps_resolve(more) {
        assert forall|k: int| 0 <= k < a.items.len() implies #[trigger] insn::jump_resolves(
            a.items,
            k,
        ) by {
            assert(insn::jump_resolves(more, k));
        }
        assert forall|k: int| 0 <= k < b.items.len() implies #[trigger] insn::jump_resolves(
            b.items,
            k,
        ) by {
            assert(insn::jump_resolves(more, a.items.len() + k));
        }
    }
    if insn::jumps_resolve(a.items) && insn::jumps_resolve(b.items) {
        assert forall|k: int| 0 <= k < more.len() implies #[trigger] insn::jump_resolves(
            more,
            k,
        ) by {
            if k < a.items.len() {
                assert(insn::jump_resolves(a.items, k));
            } else {
                assert(insn::jump_resolves(b.items, k - a.items.len()));
            }
        }
    }
}

} // verus!
