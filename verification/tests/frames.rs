//! What the helpers do to a frame, and when machine code is run.
use tier2::codegen::{Compiled, CompileError, HelperId, Image, FAST_PATH_MISS};
use tier2::exec::{ExecError, ExecMemory, Mapping, Outcome};
use tier2::frame::{
    binary_op, breaker_status, compare_fast_status, finish_run, global_name, helper_table, loop_status, narrow, settle,
    small_int, truth_status, not_wired, Fault, Frame, Helpers, Stats, Step, Tier2Code, Unbound,
};

fn frame(locals: &[Option<u64>], stack: &[Option<u64>]) -> Frame {
    Frame { locals: locals.to_vec(), stack: stack.to_vec() }
}

#[test]
fn load_fast_pushes_a_set_local_and_names_an_unset_one() {
    let mut f = frame(&[Some(7), None], &[]);
    assert_eq!(f.load_fast(0), Ok(0));
    assert_eq!(f.load_fast(1), Err(Unbound { index: 1 }));
    assert_eq!(f.stack, [Some(7)]);
    let names = vec!["x".to_string(), "count".to_string()];
    assert_eq!(
        Unbound { index: 1 }.message(&names),
        "local variable 'count' referenced before assignment"
    );
}

#[test]
fn two_locals_are_pushed_together_or_not_at_all() {
    let mut f = frame(&[Some(1), Some(2), None], &[]);
    assert_eq!(f.load_fast_load_fast(0x10), Ok(0));
    assert_eq!(f.stack, [Some(2), Some(1)]);
    assert_eq!(f.load_fast_load_fast(0x02), Err(Unbound { index: 2 }));
    assert_eq!(f.load_fast_load_fast(0x21), Err(Unbound { index: 2 }));
    assert_eq!(f.stack, [Some(2), Some(1)]);
}

#[test]
fn stores_move_slots_into_locals() {
    let mut f = frame(&[None, None, Some(9)], &[Some(1), Some(2), None, Some(4)]);
    assert_eq!(f.store_fast(0), 0);
    assert_eq!(f.locals, [Some(4), None, Some(9)]);
    assert_eq!(f.store_fast_load_fast(0x02), 0);
    assert_eq!(f.locals, [None, None, Some(9)]);
    assert_eq!(f.stack, [Some(1), Some(2), Some(9)]);
    assert_eq!(f.store_fast_store_fast(0x10), 0);
    assert_eq!(f.locals, [Some(2), Some(9), Some(9)]);
    assert_eq!(f.stack, [Some(1)]);
}

#[test]
fn loading_just_stored_local_gives_the_stored_value() {
    let mut f = frame(&[Some(3)], &[Some(8)]);
    f.store_fast_load_fast(0x00);
    assert_eq!(f.stack, [Some(8)]);
}

#[test]
fn constants_globals_and_results_are_pushed() {
    let mut f = frame(&[], &[]);
    f.load_const(&vec![10, 11], 0x7_0000_0001);
    f.load_global(20, 6);
    f.load_global(21, 7);
    assert_eq!(f.stack, [Some(11), Some(20), Some(21), None]);
    assert_eq!(f.push_result(Err("no")), Err("no"));
    assert_eq!(f.push_result::<&str>(Ok(30)), Ok(0));
    assert_eq!(f.stack.last(), Some(&Some(30)));
    assert_eq!(global_name(7), 3);
    assert_eq!(narrow(0x5_0000_0002), 2);
}

#[test]
fn truth_is_pushed_as_a_singleton() {
    let mut f = frame(&[], &[Some(5)]);
    assert_eq!(f.pop_value(), 5);
    assert_eq!(f.to_bool::<()>(Ok(true), 1, 2), Ok(0));
    assert_eq!(f.to_bool::<()>(Ok(false), 1, 2), Ok(0));
    assert_eq!(f.unary_not::<()>(Ok(true), 1, 2), Ok(0));
    assert_eq!(f.unary_not::<()>(Ok(false), 1, 2), Ok(0));
    assert_eq!(f.stack, [Some(1), Some(2), Some(2), Some(1)]);
    assert_eq!(f.to_bool(Err('e'), 1, 2), Err('e'));
    assert_eq!(f.unary_not(Err('e'), 1, 2), Err('e'));
    assert_eq!(f.stack.len(), 4);
}

#[test]
fn the_stack_is_shuffled() {
    let mut f = frame(&[], &[Some(1), None, Some(3)]);
    assert_eq!(f.copy(2), 0);
    assert_eq!(f.stack, [Some(1), None, Some(3), None]);
    assert_eq!(f.copy(1), 0);
    assert_eq!(f.swap(5), 0);
    assert_eq!(f.stack, [None, None, Some(3), None, Some(1)]);
    f.swap(3);
    let once = f.stack.clone();
    f.swap(2);
    f.swap(2);
    assert_eq!(f.stack, once);
    f.swap(1);
    assert_eq!(f.stack, once);
    assert_eq!(f.pop_is_none(3), 1);
    assert_eq!(f.pop_top(), 0);
    assert_eq!(f.pop_is_none(3), 0);
    assert_eq!(f.pop_value_opt(), None);
    assert_eq!(f.stack, [None]);
}

#[test]
fn statuses() {
    assert_eq!(truth_status::<()>(Ok(true)), Ok(1));
    assert_eq!(truth_status::<()>(Ok(false)), Ok(0));
    assert_eq!(truth_status(Err(4)), Err(4));
    assert_eq!(loop_status::<()>(Ok(true)), Ok(0));
    assert_eq!(loop_status::<()>(Ok(false)), Ok(1));
    assert_eq!(loop_status(Err(4)), Err(4));
    assert_eq!(breaker_status::<()>(None), Ok(0));
    assert_eq!(breaker_status::<()>(Some(Ok(()))), Ok(0));
    assert_eq!(breaker_status(Some(Err(4))), Err(4));
    assert_eq!(not_wired(), Err(Fault::NotWired));
    assert_eq!(Fault::NotWired.message(), "tier2 helper not wired");
    assert_eq!(binary_op(99).unwrap_err().message(), "bad binary op in tier2 code");
    let mut kept = None;
    assert_eq!(settle(&mut kept, Ok(1)), 1);
    assert_eq!(kept, None);
    assert_eq!(settle(&mut kept, Err("a")), -1);
    assert_eq!(settle(&mut kept, Ok(0)), 0);
    assert_eq!(kept, Some("a"));
}

#[test]
fn small_ints_are_signed_32_bit_numbers() {
    assert_eq!(small_int(5), 5);
    assert_eq!(small_int(0xFFFF_FFFF), -1);
    assert_eq!(small_int(0x8000_0000), i32::MIN);
    assert_eq!(small_int(0x1_7FFF_FFFF), i32::MAX);
}

fn helpers() -> Helpers {
    Helpers {
        load_fast: 1,
        load_fast_load_fast: 2,
        store_fast: 3,
        store_fast_load_fast: 4,
        store_fast_store_fast: 5,
        load_const: 6,
        load_small_int: 7,
        load_global: 8,
        binary_op: 9,
        compare_op: 10,
        to_bool: 11,
        unary_not: 12,
        unary_negative: 13,
        unary_invert: 14,
        pop_is_true: 15,
        pop_is_none: 16,
        pop_top: 17,
        copy: 18,
        swap: 19,
        for_iter: 20,
        eval_breaker: 21,
        drop: 22,
        compare_fast: 23,
        binary_op_int_fast: 24,
        unreachable: 99,
    }
}

#[test]
fn every_helper_stands_under_its_number() {
    let t = helper_table(&helpers());
    assert_eq!(t.address(HelperId::LoadFast), 1);
    assert_eq!(t.address(HelperId::CompareOp), 10);
    assert_eq!(t.address(HelperId::Drop), 22);
    assert_eq!(t.address(HelperId::CompareFast), 23);
    assert_eq!(t.address(HelperId::BinaryOpIntFast), 24);
}

#[test]
fn fast_comparison_tells_the_result_or_misses() {
    assert_eq!(compare_fast_status(Some(true)), 1);
    assert_eq!(compare_fast_status(Some(false)), 0);
    assert_eq!(compare_fast_status(None), FAST_PATH_MISS);
}

#[test]
fn fast_arithmetic_replaces_its_operands_or_misses() {
    let mut f = frame(&[Some(9)], &[Some(1), Some(2), Some(3)]);
    assert_eq!(f.binary_op_int_fast(None), FAST_PATH_MISS);
    assert_eq!(f.stack, [Some(1), Some(2), Some(3)]);
    assert_eq!(f.binary_op_int_fast(Some(5)), 0);
    assert_eq!(f.stack, [Some(1), Some(5)]);
    assert_eq!(f.locals, [Some(9)]);
}

#[test]
fn targets_are_checked() {
    let c = compiled();
    assert_eq!(c.target(2), 64);
    assert_eq!(c.checked_target(2), Some(64));
    assert_eq!(c.checked_target(3), None);
    let image = Image { code: vec![0xC3], offsets: vec![0, 1] };
    let last = ExecMemory::new(&image.code).step(Outcome::Reserved(usize::MAX));
    match last.step(Outcome::Sealed) {
        Mapping::Mapped(mem) => {
            let c = Compiled::new(image, Ok(mem)).ok().unwrap();
            assert_eq!(c.checked_target(0), Some(usize::MAX));
            assert_eq!(c.checked_target(1), None);
        }
        _ => panic!("not mapped"),
    }
}

fn compiled() -> Compiled {
    let image = Image { code: vec![0xC3], offsets: vec![0, 0, 0] };
    let mapped = ExecMemory::new(&image.code).step(Outcome::Reserved(64)).step(Outcome::Sealed);
    match mapped {
        Mapping::Mapped(mem) => Compiled::new(image, Ok(mem)).ok().unwrap(),
        _ => panic!("not mapped"),
    }
}

const ZERO: Stats = Stats { compiled: 0, compile_failed: 0, entered: 0, errors: 0 };

#[test]
fn code_is_compiled_once_and_entered_inside() {
    let mut stats = ZERO;
    let mut code = Tier2Code::new();
    assert_eq!(code.next_step(0, &mut stats), Step::Compile);
    assert!(code.code().is_none());
    code.record(Ok(compiled()), &mut stats);
    assert_eq!(stats, Stats { compiled: 1, ..ZERO });
    assert_eq!(code.next_step(2, &mut stats), Step::Enter(2));
    assert_eq!(code.next_step(3, &mut stats), Step::Interpret);
    assert_eq!(stats, Stats { compiled: 1, entered: 1, ..ZERO });
    assert_eq!(code.code().map(|c| c.len()), Some(3));
}

#[test]
fn code_that_cannot_be_mapped_is_interpreted() {
    let mut stats = Stats { compile_failed: usize::MAX, ..ZERO };
    let mut code = Tier2Code::new();
    code.record(Err(CompileError::Exec(ExecError::Empty)), &mut stats);
    assert_eq!(stats, ZERO);
    assert_eq!(code.next_step(0, &mut stats), Step::Interpret);
    assert!(code.code().is_none());
}

#[test]
fn a_run_ends_where_the_code_says() {
    let mut stats = ZERO;
    let mut lasti = 3;
    assert_eq!(finish_run::<()>(&mut lasti, 8, None, &mut stats), Ok(()));
    assert_eq!((lasti, stats), (8, ZERO));
    assert_eq!(finish_run(&mut lasti, 9, Some("late"), &mut stats), Err("late"));
    assert_eq!((lasti, stats), (9, Stats { errors: 1, ..ZERO }));
}
