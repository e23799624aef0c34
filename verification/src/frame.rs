//! What the helpers do to a frame, and when a frame is run as machine code.
//!
//! A value is the address of an object; a slot without one is `None`. What only the
//! interpreter can tell (the truth of an object, whether an iterator went on) is handed in.
use crate::codegen::{
    CompileError, Compiled, HelperFn, HelperId, HelperTable, FAST_PATH_MISS,
};
use rustpython_compiler_core::bytecode::BinaryOperator;
use vstd::prelude::*;

verus! {

pub type Value = Option<u64>;

/// The locals and the stack of a frame.
pub struct Frame {
    pub locals: Vec<Value>,
    pub stack: Vec<Value>,
}

/// A local was read before it was set.
#[derive(Copy, Clone, Debug, PartialEq, Eq, Structural)]
pub struct Unbound {
    pub index: u64,
}

impl Unbound {
    /// What the message says, for the local's name.
    pub open spec fn text(name: Seq<char>) -> Seq<char> {
        "local variable '"@ + name + "' referenced before assignment"@
    }

    /// The message for a reader.
    pub fn message(&self, names: &Vec<String>) -> (r: String)
        requires
            self.index < names@.len(),
        ensures
            r@ == Unbound::text(names@[self.index as int]@),
    {
        let n: usize = names.len();
        assert(self.index < n);
        let mut r = String::from_str("local variable '");
        r.append(names[self.index as usize].as_str());
        r.append("' referenced before assignment");
        r
    }
}

/// The two locals that one operand names: the upper bits and the lower four.
pub open spec fn pair(arg: u64) -> (int, int) {
    (arg as int / 16, arg as int % 16)
}

/// The first of two locals that is not set.
pub open spec fn first_unset(locals: Seq<Value>, first: int, second: int) -> Option<int> {
    if locals[first] is None {
        Some(first)
    } else if locals[second] is None {
        Some(second)
    } else {
        None
    }
}

/// The locals with a value stored in one and then a value in another.
pub open spec fn stored_both(
    locals: Seq<Value>,
    first: int,
    x: Value,
    second: int,
    y: Value,
) -> Seq<Value> {
    locals.update(first, x).update(second, y)
}

/// The indices of the two locals.
fn split(arg: u64) -> (r: (u64, u64))
    ensures
        r.0 == pair(arg).0,
        r.1 == pair(arg).1,
{
    (arg / 16, arg % 16)
}

impl Frame {
    pub open spec fn has_local(self, i: int) -> bool {
        0 <= i < self.locals@.len()
    }

    /// Only the stack differs, and it is `stack`.
    pub open spec fn with_stack(self, before: Self, stack: Seq<Value>) -> bool {
        self.locals@ == before.locals@ && self.stack@ == stack
    }

    fn local(&self, i: u64) -> (r: Value)
        requires
            self.has_local(i as int),
        ensures
            r == self.locals@[i as int],
    {
        let n: usize = self.locals.len();
        assert(i < n);
        self.locals[i as usize]
    }

    fn set_local(&mut self, i: u64, v: Value)
        requires
            old(self).has_local(i as int),
        ensures
            final(self).locals@ == old(self).locals@.update(i as int, v),
            final(self).stack@ == old(self).stack@,
    {
        let n: usize = self.locals.len();
        assert(i < n);
        self.locals.set(i as usize, v);
    }

    /// Pushes a local, if it is set.
    pub fn load_fast(&mut self, arg: u64) -> (r: Result<i64, Unbound>)
        requires
            old(self).has_local(arg as int),
        ensures
            match old(self).locals@[arg as int] {
                Some(v) => r == Ok::<i64, Unbound>(0) && final(self).with_stack(
                    *old(self),
                    old(self).stack@.push(Some(v)),
                ),
                None => r == Err::<i64, Unbound>(Unbound { index: arg })
                    && final(self).with_stack(*old(self), old(self).stack@),
            },
    {
        match self.local(arg) {
            Some(v) => {
                self.stack.push(Some(v));
                Ok(0)
            },
            None => Err(Unbound { index: arg }),
        }
    }

    /// Pushes two locals, if both are set; otherwise nothing is pushed, and the first that is
    /// not set is named.
    pub fn load_fast_load_fast(&mut self, arg: u64) -> (r: Result<i64, Unbound>)
        requires
            old(self).has_local(pair(arg).0),
            old(self).has_local(pair(arg).1),
        ensures
            match (old(self).locals@[pair(arg).0], old(self).locals@[pair(arg).1]) {
                (Some(a), Some(b)) => r == Ok::<i64, Unbound>(0) && final(self).with_stack(
                    *old(self),
                    old(self).stack@.push(Some(a)).push(Some(b)),
                ),
                (None, _) => r == Err::<i64, Unbound>(Unbound { index: pair(arg).0 as u64 })
                    && final(self).with_stack(*old(self), old(self).stack@),
                (_, None) => r == Err::<i64, Unbound>(Unbound { index: pair(arg).1 as u64 })
                    && final(self).with_stack(*old(self), old(self).stack@),
            },
            match first_unset(old(self).locals@, pair(arg).0, pair(arg).1) {
                Some(i) => r matches Err(e) && e.index == i,
                None => r is Ok,
            },
    {
        let (i, j) = split(arg);
        match (self.local(i), self.local(j)) {
            (Some(a), Some(b)) => {
                self.stack.push(Some(a));
                self.stack.push(Some(b));
                Ok(0)
            },
            (None, _) => Err(Unbound { index: i }),
            (_, None) => Err(Unbound { index: j }),
        }
    }

    /// Pops a slot, set or not.
    pub fn pop_value_opt(&mut self) -> (r: Value)
        requires
            old(self).stack@.len() > 0,
        ensures
            r == old(self).stack@.last(),
            final(self).with_stack(*old(self), old(self).stack@.drop_last()),
    {
        self.stack.pop().unwrap()
    }

    /// Pops a value.
    pub fn pop_value(&mut self) -> (r: u64)
        requires
            old(self).stack@.len() > 0,
            old(self).stack@.last() is Some,
        ensures
            Some(r) == old(self).stack@.last(),
            final(self).with_stack(*old(self), old(self).stack@.drop_last()),
    {
        self.pop_value_opt().unwrap()
    }

    /// Pushes a value.
    pub fn push_value(&mut self, v: u64)
        ensures
            final(self).with_stack(*old(self), old(self).stack@.push(Some(v))),
    {
        self.stack.push(Some(v));
    }

    /// Pops a slot into a local.
    pub fn store_fast(&mut self, arg: u64) -> (r: i64)
        requires
            old(self).has_local(arg as int),
            old(self).stack@.len() > 0,
        ensures
            r == 0,
            final(self).locals@ == old(self).locals@.update(arg as int, old(self).stack@.last()),
            final(self).stack@ == old(self).stack@.drop_last(),
    {
        let value = self.pop_value_opt();
        self.set_local(arg, value);
        0
    }

    /// Pops a slot into one local, then pushes another, set or not.
    pub fn store_fast_load_fast(&mut self, arg: u64) -> (r: i64)
        requires
            old(self).has_local(pair(arg).0),
            old(self).has_local(pair(arg).1),
            old(self).stack@.len() > 0,
        ensures
            r == 0,
            final(self).locals@ == old(self).locals@.update(pair(arg).0, old(self).stack@.last()),
            final(self).stack@ == old(self).stack@.drop_last().push(
                final(self).locals@[pair(arg).1],
            ),
    {
        let (i, j) = split(arg);
        let value = self.pop_value_opt();
        self.set_local(i, value);
        let load = self.local(j);
        self.stack.push(load);
        0
    }

    /// Pops two slots into two locals; the topmost goes to the first.
    pub fn store_fast_store_fast(&mut self, arg: u64) -> (r: i64)
        requires
            old(self).has_local(pair(arg).0),
            old(self).has_local(pair(arg).1),
            old(self).stack@.len() > 1,
        ensures
            r == 0,
            ({
                let n = old(self).stack@.len() as int;
                &&& final(self).locals@ == old(self).locals@.update(
                    pair(arg).0,
                    old(self).stack@[n - 1],
                ).update(pair(arg).1, old(self).stack@[n - 2])
                &&& final(self).stack@ == old(self).stack@.take(n - 2)
                &&& final(self).locals@ == stored_both(
                    old(self).locals@,
                    pair(arg).0,
                    old(self).stack@[n - 1],
                    pair(arg).1,
                    old(self).stack@[n - 2],
                )
            }),
    {
        let (i, j) = split(arg);
        let first = self.pop_value_opt();
        let second = self.pop_value_opt();
        self.set_local(i, first);
        self.set_local(j, second);
        0
    }

    /// Pushes a constant of the code.
    pub fn load_const(&mut self, constants: &Vec<u64>, arg: u64) -> (r: i64)
        requires
            arg % 0x1_0000_0000 < constants@.len(),
        ensures
            r == 0,
            final(self).with_stack(
                *old(self),
                old(self).stack@.push(Some(constants@[arg as int % 0x1_0000_0000])),
            ),
    {
        let n: usize = constants.len();
        let i: u64 = arg % 0x1_0000_0000;
        assert(i < n);
        self.push_value(constants[i as usize]);
        0
    }

    /// Pushes a global, and an empty slot behind it where the operand asks for one.
    pub fn load_global(&mut self, found: u64, arg: u64) -> (r: i64)
        ensures
            r == 0,
            final(self).with_stack(
                *old(self),
                if arg % 2 == 1 {
                    old(self).stack@.push(Some(found)).push(None)
                } else {
                    old(self).stack@.push(Some(found))
                },
            ),
    {
        self.push_value(found);
        if arg % 2 == 1 {
            self.stack.push(None);
        }
        0
    }

    /// Pushes the bool singleton for a popped object whose truth is known, or hands on what
    /// telling its truth has raised.
    pub fn push_bool<E>(&mut self, truth: Result<bool, E>, on_true: u64, on_false: u64) -> (r:
        Result<i64, E>)
        ensures
            match truth {
                Ok(b) => r == Ok::<i64, E>(0) && final(self).with_stack(
                    *old(self),
                    old(self).stack@.push(
                        Some(
                            if b {
                                on_true
                            } else {
                                on_false
                            },
                        ),
                    ),
                ),
                Err(e) => r == Err::<i64, E>(e) && final(self).with_stack(
                    *old(self),
                    old(self).stack@,
                ),
            },
    {
        match truth {
            Ok(b) => {
                self.push_value(
                    if b {
                        on_true
                    } else {
                        on_false
                    },
                );
                Ok(0)
            },
            Err(e) => Err(e),
        }
    }

    /// The bool singleton for the truth of a popped object.
    pub fn to_bool<E>(&mut self, truth: Result<bool, E>, true_ptr: u64, false_ptr: u64) -> (r:
        Result<i64, E>)
        ensures
            match truth {
                Ok(b) => r == Ok::<i64, E>(0) && final(self).with_stack(
                    *old(self),
                    old(self).stack@.push(
                        Some(
                            if b {
                                true_ptr
                            } else {
                                false_ptr
                            },
                        ),
                    ),
                ),
                Err(e) => r == Err::<i64, E>(e) && final(self).with_stack(
                    *old(self),
                    old(self).stack@,
                ),
            },
    {
        self.push_bool(truth, true_ptr, false_ptr)
    }

    /// The bool singleton for the opposite of the truth of a popped object.
    pub fn unary_not<E>(&mut self, truth: Result<bool, E>, true_ptr: u64, false_ptr: u64) -> (r:
        Result<i64, E>)
        ensures
            match truth {
                Ok(b) => r == Ok::<i64, E>(0) && final(self).with_stack(
                    *old(self),
                    old(self).stack@.push(
                        Some(
                            if b {
                                false_ptr
                            } else {
                                true_ptr
                            },
                        ),
                    ),
                ),
                Err(e) => r == Err::<i64, E>(e) && final(self).with_stack(
                    *old(self),
                    old(self).stack@,
                ),
            },
    {
        self.push_bool(truth, false_ptr, true_ptr)
    }

    /// Pushes what an operation on popped objects gave, or hands on what it has raised.
    pub fn push_result<E>(&mut self, result: Result<u64, E>) -> (r: Result<i64, E>)
        ensures
            match result {
                Ok(v) => r == Ok::<i64, E>(0) && final(self).with_stack(
                    *old(self),
                    old(self).stack@.push(Some(v)),
                ),
                Err(e) => r == Err::<i64, E>(e) && final(self).with_stack(
                    *old(self),
                    old(self).stack@,
                ),
            },
    {
        match result {
            Ok(v) => {
                self.push_value(v);
                Ok(0)
            },
            Err(e) => Err(e),
        }
    }

    /// Replaces the two topmost operands by the result of arithmetic on them. Where there is
    /// none, as they are not both plain ints, the frame stays as it is.
    pub fn binary_op_int_fast(&mut self, result: Option<u64>) -> (r: i64)
        requires
            old(self).stack@.len() >= 2,
        ensures
            match result {
                Some(v) => r == 0 && final(self).with_stack(
                    *old(self),
                    old(self).stack@.take(old(self).stack@.len() - 2).push(Some(v)),
                ),
                None => r == FAST_PATH_MISS && final(self).with_stack(
                    *old(self),
                    old(self).stack@,
                ),
            },
    {
        match result {
            Some(v) => {
                let _ = self.pop_value_opt();
                let _ = self.pop_value_opt();
                self.push_value(v);
                assert(self.stack@ =~= old(self).stack@.take(old(self).stack@.len() - 2).push(
                    Some(v),
                ));
                0
            },
            None => FAST_PATH_MISS,
        }
    }

    /// Pops a value; one where it is none.
    pub fn pop_is_none(&mut self, none_ptr: u64) -> (r: i64)
        requires
            old(self).stack@.len() > 0,
            old(self).stack@.last() is Some,
        ensures
            r == (if old(self).stack@.last() == Some(none_ptr) {
                1int
            } else {
                0
            }),
            final(self).with_stack(*old(self), old(self).stack@.drop_last()),
    {
        if self.pop_value() == none_ptr {
            1
        } else {
            0
        }
    }

    /// Pops a slot, set or not.
    pub fn pop_top(&mut self) -> (r: i64)
        requires
            old(self).stack@.len() > 0,
        ensures
            r == 0,
            final(self).with_stack(*old(self), old(self).stack@.drop_last()),
    {
        let _ = self.pop_value_opt();
        0
    }

    /// Pushes the slot that is the `arg`th from the top, which counts as the first.
    pub fn copy(&mut self, arg: u64) -> (r: i64)
        requires
            1 <= arg <= old(self).stack@.len(),
        ensures
            r == 0,
            final(self).with_stack(
                *old(self),
                old(self).stack@.push(old(self).stack@[old(self).stack@.len() - arg]),
            ),
    {
        let len: usize = self.stack.len();
        let value = self.stack[len - arg as usize];
        self.stack.push(value);
        0
    }

    /// Swaps the topmost slot with the `arg`th from the top.
    pub fn swap(&mut self, arg: u64) -> (r: i64)
        requires
            1 <= arg <= old(self).stack@.len(),
        ensures
            r == 0,
            ({
                let n = old(self).stack@.len() as int;
                final(self).with_stack(
                    *old(self),
                    old(self).stack@.update(n - 1, old(self).stack@[n - arg]).update(
                        n - arg,
                        old(self).stack@[n - 1],
                    ),
                )
            }),
    {
        let len: usize = self.stack.len();
        let other: usize = len - arg as usize;
        let top = self.stack[len - 1];
        let value = self.stack[other];
        self.stack.set(len - 1, value);
        self.stack.set(other, top);
        0
    }
}

/// The small int that an operand stands for: its lower 32 bits, as a signed number.
pub open spec fn small_int_value(arg: u64) -> int {
    let low = arg as int % 0x1_0000_0000;
    if low >= 0x8000_0000 {
        low - 0x1_0000_0000
    } else {
        low
    }
}

pub fn small_int(arg: u64) -> (r: i32)
    ensures
        r == small_int_value(arg),
{
    let low: u64 = arg % 0x1_0000_0000;
    if low >= 0x8000_0000 {
        (low as i64 - 0x1_0000_0000) as i32
    } else {
        low as i32
    }
}

/// The name that an operand of a global stands for.
pub fn global_name(arg: u64) -> (r: u64)
    ensures
        r == arg / 2,
{
    arg / 2
}

/// The lower 32 bits of an operand.
pub fn narrow(arg: u64) -> (r: u32)
    ensures
        r == arg % 0x1_0000_0000,
{
    (arg % 0x1_0000_0000) as u32
}

/// The number names a binary operator.
pub open spec fn is_binary_op(op: u32) -> bool {
    op <= 26
}

/// Whether `BinaryOperator::try_from` of `rustpython_compiler_core` takes the number: its
/// operators are numbered from zero, `Add`, to 26, `Subscr`.
#[verifier::external_body]
fn names_binary_op(op: u32) -> (r: bool)
    ensures
        r == is_binary_op(op),
{
    BinaryOperator::try_from(op).is_ok()
}

/// What cannot come of code that was compiled as it should be.
#[derive(Copy, Clone, Debug, PartialEq, Eq, Structural)]
pub enum Fault {
    BadBinaryOp,
    NotWired,
}

impl Fault {
    /// What the message says.
    pub open spec fn text(self) -> Seq<char> {
        match self {
            Fault::BadBinaryOp => "bad binary op in tier2 code"@,
            Fault::NotWired => "tier2 helper not wired"@,
        }
    }

    /// The message for a reader.
    pub fn message(&self) -> (r: String)
        ensures
            r@ == self.text(),
    {
        match self {
            Fault::BadBinaryOp => String::from_str("bad binary op in tier2 code"),
            Fault::NotWired => String::from_str("tier2 helper not wired"),
        }
    }
}

/// The binary operator that the lower 32 bits of an operand stand for.
pub fn binary_op(arg: u64) -> (r: Result<u32, Fault>)
    ensures
        r == (if is_binary_op((arg % 0x1_0000_0000) as u32) {
            Ok::<u32, Fault>((arg % 0x1_0000_0000) as u32)
        } else {
            Err(Fault::BadBinaryOp)
        }),
{
    let op: u32 = narrow(arg);
    if names_binary_op(op) {
        Ok(op)
    } else {
        Err(Fault::BadBinaryOp)
    }
}

/// The outcome of a helper that there is none of.
pub fn not_wired() -> (r: Result<i64, Fault>)
    ensures
        r == Err::<i64, Fault>(Fault::NotWired),
{
    Err(Fault::NotWired)
}

/// The outcome of the eval breaker, from what the pending work has raised, if it was tripped.
pub fn breaker_status<E>(work: Option<Result<(), E>>) -> (r: Result<i64, E>)
    ensures
        r == (match work {
            Some(Err(e)) => Err::<i64, E>(e),
            _ => Ok(0),
        }),
{
    match work {
        Some(Err(e)) => Err(e),
        _ => Ok(0),
    }
}

/// The status of a helper that tells a truth: one for true.
pub fn truth_status<E>(truth: Result<bool, E>) -> (r: Result<i64, E>)
    ensures
        r == (match truth {
            Ok(true) => Ok::<i64, E>(1),
            Ok(false) => Ok(0),
            Err(e) => Err(e),
        }),
{
    match truth {
        Ok(true) => Ok(1),
        Ok(false) => Ok(0),
        Err(e) => Err(e),
    }
}

/// The status of a comparison that leaves its operands on the stack: nothing where they are not
/// both plain ints.
pub fn compare_fast_status(outcome: Option<bool>) -> (r: i64)
    ensures
        r == (match outcome {
            Some(true) => 1,
            Some(false) => 0,
            None => FAST_PATH_MISS as int,
        }),
{
    match outcome {
        Some(true) => 1,
        Some(false) => 0,
        None => FAST_PATH_MISS,
    }
}

/// The status of a step of a loop: one where the iterator has run out.
pub fn loop_status<E>(continued: Result<bool, E>) -> (r: Result<i64, E>)
    ensures
        r == (match continued {
            Ok(true) => Ok::<i64, E>(0),
            Ok(false) => Ok(1),
            Err(e) => Err(e),
        }),
{
    match continued {
        Ok(true) => Ok(0),
        Ok(false) => Ok(1),
        Err(e) => Err(e),
    }
}

/// What a helper returns to the code, and the error that is kept then.
pub open spec fn settled<E>(kept: Option<E>, outcome: Result<i64, E>) -> (int, Option<E>) {
    match outcome {
        Ok(v) => (v as int, kept),
        Err(e) => (-1, Some(e)),
    }
}

/// What a helper returns to the code. An error is kept for later, in place of one that was
/// kept before.
pub fn settle<E>(kept: &mut Option<E>, outcome: Result<i64, E>) -> (r: i64)
    ensures
        match outcome {
            Ok(v) => r == v && *final(kept) == *old(kept),
            Err(e) => r == -1 && *final(kept) == Some(e),
        },
        (r as int, *final(kept)) == settled(*old(kept), outcome),
{
    match outcome {
        Ok(v) => v,
        Err(e) => {
            *kept = Some(e);
            -1
        },
    }
}

/// The addresses of the helpers.
#[derive(Copy, Clone)]
pub struct Helpers {
    pub load_fast: HelperFn,
    pub load_fast_load_fast: HelperFn,
    pub store_fast: HelperFn,
    pub store_fast_load_fast: HelperFn,
    pub store_fast_store_fast: HelperFn,
    pub load_const: HelperFn,
    pub load_small_int: HelperFn,
    pub load_global: HelperFn,
    pub binary_op: HelperFn,
    pub compare_op: HelperFn,
    pub to_bool: HelperFn,
    pub unary_not: HelperFn,
    pub unary_negative: HelperFn,
    pub unary_invert: HelperFn,
    pub pop_is_true: HelperFn,
    pub pop_is_none: HelperFn,
    pub pop_top: HelperFn,
    pub copy: HelperFn,
    pub swap: HelperFn,
    pub for_iter: HelperFn,
    pub eval_breaker: HelperFn,
    pub drop: HelperFn,
    pub compare_fast: HelperFn,
    pub binary_op_int_fast: HelperFn,
    /// what a table holds until a helper is set
    pub unreachable: HelperFn,
}

impl Helpers {
    /// The helper with the number.
    pub open spec fn of(self, id: HelperId) -> HelperFn {
        match id {
            HelperId::LoadFast => self.load_fast,
            HelperId::LoadFastLoadFast => self.load_fast_load_fast,
            HelperId::StoreFast => self.store_fast,
            HelperId::StoreFastLoadFast => self.store_fast_load_fast,
            HelperId::StoreFastStoreFast => self.store_fast_store_fast,
            HelperId::LoadConst => self.load_const,
            HelperId::LoadSmallInt => self.load_small_int,
            HelperId::LoadGlobal => self.load_global,
            HelperId::BinaryOp => self.binary_op,
            HelperId::CompareOp => self.compare_op,
            HelperId::ToBool => self.to_bool,
            HelperId::UnaryNot => self.unary_not,
            HelperId::UnaryNegative => self.unary_negative,
            HelperId::UnaryInvert => self.unary_invert,
            HelperId::PopIsTrue => self.pop_is_true,
            HelperId::PopIsNone => self.pop_is_none,
            HelperId::PopTop => self.pop_top,
            HelperId::Copy => self.copy,
            HelperId::Swap => self.swap,
            HelperId::ForIter => self.for_iter,
            HelperId::EvalBreaker => self.eval_breaker,
            HelperId::Drop => self.drop,
            HelperId::CompareFast => self.compare_fast,
            HelperId::BinaryOpIntFast => self.binary_op_int_fast,
        }
    }
}

/// The table of the helpers, every one of them under its own number.
pub fn helper_table(h: &Helpers) -> (t: HelperTable)
    ensures
        forall|id: HelperId| #[trigger] t.at(id) == h.of(id),
{
    let mut t = HelperTable::new(h.unreachable);
    t.set(HelperId::LoadFast, h.load_fast);
    t.set(HelperId::LoadFastLoadFast, h.load_fast_load_fast);
    t.set(HelperId::StoreFast, h.store_fast);
    t.set(HelperId::StoreFastLoadFast, h.store_fast_load_fast);
    t.set(HelperId::StoreFastStoreFast, h.store_fast_store_fast);
    t.set(HelperId::LoadConst, h.load_const);
    t.set(HelperId::LoadSmallInt, h.load_small_int);
    t.set(HelperId::LoadGlobal, h.load_global);
    t.set(HelperId::BinaryOp, h.binary_op);
    t.set(HelperId::CompareOp, h.compare_op);
    t.set(HelperId::ToBool, h.to_bool);
    t.set(HelperId::UnaryNot, h.unary_not);
    t.set(HelperId::UnaryNegative, h.unary_negative);
    t.set(HelperId::UnaryInvert, h.unary_invert);
    t.set(HelperId::PopIsTrue, h.pop_is_true);
    t.set(HelperId::PopIsNone, h.pop_is_none);
    t.set(HelperId::PopTop, h.pop_top);
    t.set(HelperId::Copy, h.copy);
    t.set(HelperId::Swap, h.swap);
    t.set(HelperId::ForIter, h.for_iter);
    t.set(HelperId::EvalBreaker, h.eval_breaker);
    t.set(HelperId::Drop, h.drop);
    t.set(HelperId::CompareFast, h.compare_fast);
    t.set(HelperId::BinaryOpIntFast, h.binary_op_int_fast);
    t
}

/// How often machine code was made, refused, entered, and left with an error. A count goes
/// round when it is full.
#[derive(Copy, Clone, Debug, PartialEq, Eq, Structural)]
pub struct Stats {
    pub compiled: usize,
    pub compile_failed: usize,
    pub entered: usize,
    pub errors: usize,
}

/// One more, going round when full.
pub open spec fn counted(n: usize) -> usize {
    if n == usize::MAX {
        0
    } else {
        (n + 1) as usize
    }
}

fn count(n: usize) -> (r: usize)
    ensures
        r == counted(n),
{
    if n == usize::MAX {
        0
    } else {
        n + 1
    }
}

/// What to do with a frame that is to be run.
#[derive(Copy, Clone, Debug, PartialEq, Eq, Structural)]
pub enum Step {
    /// compile the code, which was not tried before
    Compile,
    /// leave the frame to the interpreter
    Interpret,
    /// run the machine code from the unit
    Enter(usize),
}

/// The machine code of a code object: nothing before it was tried, and then for good what
/// came of it.
pub struct Tier2Code {
    tried: bool,
    code: Option<Compiled>,
}

impl Tier2Code {
    pub closed spec fn view(&self) -> Option<Option<Compiled>> {
        if self.tried {
            Some(self.code)
        } else {
            None
        }
    }

    pub fn new() -> (r: Self)
        ensures
            r@ is None,
    {
        Tier2Code { tried: false, code: None }
    }

    /// Keeps what came of compiling and counts it.
    pub fn record(&mut self, outcome: Result<Compiled, CompileError>, stats: &mut Stats)
        requires
            old(self)@ is None,
        ensures
            match outcome {
                Ok(c) => {
                    &&& final(self)@ == Some(Some(c))
                    &&& *final(stats) == (Stats {
                        compiled: counted(old(stats).compiled),
                        ..*old(stats)
                    })
                },
                Err(_) => {
                    &&& final(self)@ == Some(None::<Compiled>)
                    &&& *final(stats) == (Stats {
                        compile_failed: counted(old(stats).compile_failed),
                        ..*old(stats)
                    })
                },
            },
    {
        self.tried = true;
        match outcome {
            Ok(c) => {
                self.code = Some(c);
                stats.compiled = count(stats.compiled);
            },
            Err(_) => {
                self.code = None;
                stats.compile_failed = count(stats.compile_failed);
            },
        }
    }

    /// What to do with a frame that stands at unit `lasti`.
    pub open spec fn plan(code: Option<Option<Compiled>>, lasti: u32) -> Step {
        match code {
            None => Step::Compile,
            Some(None) => Step::Interpret,
            Some(Some(c)) => if lasti >= c.entries().len() {
                Step::Interpret
            } else {
                Step::Enter(lasti as usize)
            },
        }
    }

    /// What to do with a frame that stands at unit `lasti`. An entry is counted.
    pub fn next_step(&self, lasti: u32, stats: &mut Stats) -> (r: Step)
        ensures
            r == Tier2Code::plan(self@, lasti),
            *final(stats) == (if r is Enter {
                Stats { entered: counted(old(stats).entered), ..*old(stats) }
            } else {
                *old(stats)
            }),
    {
        if !self.tried {
            return Step::Compile;
        }
        match &self.code {
            None => Step::Interpret,
            Some(c) => if lasti as usize >= c.len() {
                Step::Interpret
            } else {
                stats.entered = count(stats.entered);
                Step::Enter(lasti as usize)
            },
        }
    }

    /// The machine code, where there is some.
    pub fn code(&self) -> (r: Option<&Compiled>)
        ensures
            r == (match self@ {
                Some(Some(c)) => Some(&c),
                _ => None,
            }),
    {
        if self.tried {
            match &self.code {
                Some(c) => Some(c),
                None => None,
            }
        } else {
            None
        }
    }
}

/// Ends a run that returned `lasti`: the frame goes on there, and an error that a helper has
/// kept is counted and handed on.
pub fn finish_run<E>(frame_lasti: &mut u32, lasti: u32, kept: Option<E>, stats: &mut Stats) -> (r:
    Result<(), E>)
    ensures
        *final(frame_lasti) == lasti,
        match kept {
            Some(e) => {
                &&& r == Err::<(), E>(e)
                &&& *final(stats) == (Stats { errors: counted(old(stats).errors), ..*old(stats) })
            },
            None => r == Ok::<(), E>(()) && *final(stats) == *old(stats),
        },
{
    *frame_lasti = lasti;
    match kept {
        Some(e) => {
            stats.errors = count(stats.errors);
            Err(e)
        },
        None => Ok(()),
    }
}

/// Code is compiled once: whatever came of it, no later step asks for it again.
pub proof fn law_compiled_once(code: Option<Compiled>, lasti: u32)
    ensures
        !(Tier2Code::plan(Some(code), lasti) is Compile),
{
}

/// Swapping twice changes nothing.
pub proof fn law_swap_undoes_swap(stack: Seq<Value>, arg: int)
    requires
        1 <= arg <= stack.len(),
    ensures
        ({
            let n = stack.len() as int;
            let once = stack.update(n - 1, stack[n - arg]).update(n - arg, stack[n - 1]);
            once.update(n - 1, once[n - arg]).update(n - arg, once[n - 1]) == stack
        }),
{
    let n = stack.len() as int;
    let once = stack.update(n - 1, stack[n - arg]).update(n - arg, stack[n - 1]);
    assert(once.update(n - 1, once[n - arg]).update(n - arg, once[n - 1]) =~= stack);
}

/// An operand that names two locals is sixteen times the first and the second, which is below
/// sixteen; it names no other two.
pub proof fn law_operand_names_two_locals(arg: u64, first: int, second: int)
    requires
        0 <= second < 16,
    ensures
        pair(arg) == (first, second) <==> arg == 16 * first + second,
{
}

/// A small int is a number of 32 bits with a sign, and is the operand but for whole turns of
/// these.
pub proof fn law_small_ints_have_a_sign(arg: u64)
    ensures
        -0x8000_0000 <= small_int_value(arg) < 0x8000_0000,
        (arg - small_int_value(arg)) % 0x1_0000_0000 == 0,
{
}

/// Of the errors that helpers raise in one run the last is kept, and a success takes none away;
/// the code sees an error as minus one, and a success as what the helper gave.
pub proof fn law_last_error_is_kept<E>(kept: Option<E>, first: Result<i64, E>, second: E, v: i64)
    ensures
        settled(settled(kept, first).1, Err(second)) == (-1int, Some(second)),
        settled(kept, Ok(v)) == (v as int, kept),
{
}

/// A count is one more, and zero behind the largest.
pub proof fn law_counts_go_round(n: usize)
    ensures
        n < usize::MAX ==> counted(n) == n + 1,
        counted(usize::MAX) == 0,
{
}

/// A frame is entered exactly at its own unit, exactly where there is code and it has that unit;
/// it is compiled exactly if that was never tried.
pub proof fn law_frames_are_entered_where_they_stand(code: Option<Option<Compiled>>, lasti: u32, at: usize)
    ensures
        Tier2Code::plan(code, lasti) is Compile <==> code is None,
        Tier2Code::plan(code, lasti) == Step::Enter(at) <==> at == lasti && (match code {
            Some(Some(c)) => at < c.entries().len(),
            _ => false,
        }),
{
}

/// Each helper stands under the number that is named like it.
pub proof fn law_helpers_have_their_names(h: Helpers)
    ensures
        h.of(HelperId::LoadFast) == h.load_fast,
        h.of(HelperId::LoadFastLoadFast) == h.load_fast_load_fast,
        h.of(HelperId::StoreFast) == h.store_fast,
        h.of(HelperId::StoreFastLoadFast) == h.store_fast_load_fast,
        h.of(HelperId::StoreFastStoreFast) == h.store_fast_store_fast,
        h.of(HelperId::LoadConst) == h.load_const,
        h.of(HelperId::LoadSmallInt) == h.load_small_int,
        h.of(HelperId::LoadGlobal) == h.load_global,
        h.of(HelperId::BinaryOp) == h.binary_op,
        h.of(HelperId::CompareOp) == h.compare_op,
        h.of(HelperId::ToBool) == h.to_bool,
        h.of(HelperId::UnaryNot) == h.unary_not,
        h.of(HelperId::UnaryNegative) == h.unary_negative,
        h.of(HelperId::UnaryInvert) == h.unary_invert,
        h.of(HelperId::PopIsTrue) == h.pop_is_true,
        h.of(HelperId::PopIsNone) == h.pop_is_none,
        h.of(HelperId::PopTop) == h.pop_top,
        h.of(HelperId::Copy) == h.copy,
        h.of(HelperId::Swap) == h.swap,
        h.of(HelperId::ForIter) == h.for_iter,
        h.of(HelperId::EvalBreaker) == h.eval_breaker,
        h.of(HelperId::Drop) == h.drop,
        h.of(HelperId::CompareFast) == h.compare_fast,
        h.of(HelperId::BinaryOpIntFast) == h.binary_op_int_fast,
{
}

/// Of two locals the first is named where neither is set; none is named where both are set.
pub proof fn law_unset_locals_are_named_in_order(locals: Seq<Value>, first: int, second: int)
    ensures
        locals[first] is None ==> first_unset(locals, first, second) == Some(first),
        locals[first] is Some && locals[second] is None ==> first_unset(locals, first, second)
            == Some(second),
        locals[first] is Some && locals[second] is Some ==> first_unset(locals, first, second)
            is None,
{
}

/// After two stores each local holds what came to it, and one that both went to holds what came
/// last; no other local has changed.
pub proof fn law_the_later_store_stays(
    locals: Seq<Value>,
    first: int,
    x: Value,
    second: int,
    y: Value,
    i: int,
)
    requires
        0 <= first < locals.len(),
        0 <= second < locals.len(),
        0 <= i < locals.len(),
    ensures
        ({
            let after = stored_both(locals, first, x, second, y);
            &&& after.len() == locals.len()
            &&& after[second] == y
            &&& first != second ==> after[first] == x
            &&& i != first && i != second ==> after[i] == locals[i]
        }),
{
}

} // verus!
