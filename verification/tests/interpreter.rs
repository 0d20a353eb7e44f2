use ssa_graph::error::ExecutionError;
use ssa_graph::graph::FunctionGraph;
use ssa_graph::interp::run;
use ssa_graph::scenarios::{both_graph, br_table_graph, brif_graph};
use ssa_graph::types::{ArithOp, Type};
use ssa_graph::validate::{validate, ValidatedGraph};

fn checked(g: FunctionGraph) -> ValidatedGraph {
    validate(g).unwrap()
}

#[test]
fn brif_returns_8_for_zero_and_4_for_one() {
    let g = checked(brif_graph());
    assert_eq!(run(&g, &vec![0], 1000), Ok(vec![8]));
    assert_eq!(run(&g, &vec![1], 1000), Ok(vec![4]));
}

#[test]
fn brif_returns_4_for_every_other_input() {
    let g = checked(brif_graph());
    for v in [-1i64, 2, 10, 255, i32::MAX as i64, i32::MIN as i64] {
        assert_eq!(run(&g, &vec![v], 1000), Ok(vec![4]));
    }
}

#[test]
fn br_table_selects_by_index() {
    let g = checked(br_table_graph());
    assert_eq!(run(&g, &vec![0], 100), Ok(vec![8]));
    assert_eq!(run(&g, &vec![1], 100), Ok(vec![16]));
    assert_eq!(run(&g, &vec![2], 100), Ok(vec![4]));
}

#[test]
fn br_table_takes_the_default_out_of_range() {
    let g = checked(br_table_graph());
    for v in [-1i64, 3, 4, 100, -100, i32::MAX as i64, i32::MIN as i64] {
        assert_eq!(run(&g, &vec![v], 100), Ok(vec![4]));
    }
}

#[test]
fn both_branches_then_selects() {
    let g = checked(both_graph());
    assert_eq!(run(&g, &vec![1], 100), Ok(vec![8]));
    assert_eq!(run(&g, &vec![0], 100), Ok(vec![16]));
    assert_eq!(run(&g, &vec![-7], 100), Ok(vec![8]));
}

#[test]
fn run_is_deterministic() {
    let g = checked(brif_graph());
    let first = run(&g, &vec![0], 1000);
    for _ in 0..5 {
        assert_eq!(run(&g, &vec![0], 1000), first);
    }
    let short = run(&g, &vec![0], 10);
    assert_eq!(run(&g, &vec![0], 10), short);
}

#[test]
fn graph_is_reusable_after_other_runs() {
    let g = checked(brif_graph());
    let before = run(&g, &vec![0], 1000);
    assert_eq!(run(&g, &vec![1], 1000), Ok(vec![4]));
    assert_eq!(run(&g, &vec![0], 3), Err(ExecutionError::StepLimitExceeded));
    assert_eq!(run(&g, &vec![], 1000), Err(ExecutionError::MissingInput { index: 0 }));
    let after = run(&g, &vec![0], 1000);
    assert_eq!(before, Ok(vec![8]));
    assert_eq!(after, before);
    assert_eq!(g.graph().block_count(), 6);
    assert_eq!(g.graph().value_count(), 8);
}

#[test]
fn endless_loop_stops_at_the_step_limit() {
    let mut g = FunctionGraph::new(vec![Type::I32]);
    let e = g.entry();
    let head = g.create_block();
    let exit = g.create_block();
    let one = g.emit_constant(e, Type::I32, 1).unwrap();
    g.emit_jump(e, head, vec![]).unwrap();
    // The condition is never zero, so the exit is never taken.
    g.emit_branch(head, one, head, vec![], exit, vec![]).unwrap();
    g.emit_return(exit, vec![one]).unwrap();
    g.seal_all();
    let g = checked(g);
    for limit in [0u64, 1, 2, 3, 100, 100_000] {
        let r = run(&g, &vec![], limit);
        assert_eq!(r, Err(ExecutionError::StepLimitExceeded));
        assert_eq!(r.unwrap_err().message(), "step limit exceeded");
    }
}

#[test]
fn step_limit_counts_instructions() {
    // Entry 3, ten rounds of 3 + 1, then 2 and the return.
    let g = checked(brif_graph());
    assert_eq!(run(&g, &vec![0], 46), Ok(vec![8]));
    assert_eq!(run(&g, &vec![0], 45), Err(ExecutionError::StepLimitExceeded));
    assert_eq!(run(&g, &vec![0], u64::MAX), Ok(vec![8]));
    // Entry 3, then 2 and the return.
    assert_eq!(run(&g, &vec![1], 6), Ok(vec![4]));
    assert_eq!(run(&g, &vec![1], 5), Err(ExecutionError::StepLimitExceeded));
    assert_eq!(run(&g, &vec![1], 0), Err(ExecutionError::StepLimitExceeded));
    let t = checked(br_table_graph());
    assert_eq!(run(&t, &vec![1], 5), Ok(vec![16]));
    assert_eq!(run(&t, &vec![1], 4), Err(ExecutionError::StepLimitExceeded));
}

#[test]
fn missing_input_fails_the_run() {
    let mut g = FunctionGraph::new(vec![Type::I64]);
    let e = g.entry();
    let a = g.emit_input(e, Type::I64, 0).unwrap();
    let b = g.emit_input(e, Type::I64, 2).unwrap();
    let s = g.emit_arithmetic(e, ArithOp::Add, a, b).unwrap();
    g.emit_return(e, vec![s]).unwrap();
    g.seal_all();
    let g = checked(g);
    assert_eq!(run(&g, &vec![5, 6, 7], 10), Ok(vec![12]));
    let r = run(&g, &vec![5, 6], 10);
    assert_eq!(r, Err(ExecutionError::MissingInput { index: 2 }));
    assert_eq!(r.unwrap_err().message(), "missing input");
    assert_eq!(run(&g, &vec![], 10), Err(ExecutionError::MissingInput { index: 0 }));
}

#[test]
fn undefined_value_fails_the_run() {
    let mut g = FunctionGraph::new(vec![Type::I32]);
    let e = g.entry();
    let left = g.create_block();
    let right = g.create_block();
    let join = g.create_block();
    let c = g.emit_input(e, Type::I32, 0).unwrap();
    g.emit_branch(e, c, left, vec![], right, vec![]).unwrap();
    let only_left = g.emit_constant(left, Type::I32, 5).unwrap();
    g.emit_jump(left, join, vec![]).unwrap();
    g.emit_jump(right, join, vec![]).unwrap();
    g.emit_return(join, vec![only_left]).unwrap();
    g.seal_all();
    let g = checked(g);
    assert_eq!(run(&g, &vec![1], 10), Ok(vec![5]));
    let r = run(&g, &vec![0], 10);
    assert_eq!(r, Err(ExecutionError::UndefinedValue { value: only_left }));
    assert_eq!(r.unwrap_err().message(), "undefined value");
}

#[test]
fn undefined_operands_fail_the_run() {
    // Every use below comes before the definition along the path taken.
    let mut g = FunctionGraph::new(vec![]);
    let e = g.entry();
    let body = g.create_block();
    let late = g.create_block();
    let param = g.append_parameter(late, Type::I32).unwrap();
    let one = g.emit_constant(late, Type::I32, 1).unwrap();
    g.emit_return(late, vec![]).unwrap();
    let sum = g.emit_arithmetic(body, ArithOp::Add, one, param).unwrap();
    g.emit_jump(e, body, vec![]).unwrap();
    g.emit_jump(body, late, vec![sum]).unwrap();
    g.seal_all();
    let g = checked(g);
    assert_eq!(run(&g, &vec![0], 10), Err(ExecutionError::UndefinedValue { value: one }));
}

#[test]
fn undefined_condition_index_and_argument_fail_the_run() {
    let mut g = FunctionGraph::new(vec![]);
    let e = g.entry();
    let a = g.create_block();
    let b = g.create_block();
    let c = g.create_block();
    let end = g.create_block();
    let sel = g.emit_input(e, Type::I32, 0).unwrap();
    g.emit_multi_branch(e, sel, a, vec![b, c]).unwrap();
    let never = g.emit_constant(end, Type::I32, 0).unwrap();
    g.emit_return(end, vec![]).unwrap();
    g.emit_branch(a, never, end, vec![], end, vec![]).unwrap();
    g.emit_multi_branch(b, never, end, vec![]).unwrap();
    let into = g.create_block();
    g.append_parameter(into, Type::I32).unwrap();
    g.emit_jump(into, end, vec![]).unwrap();
    let known = g.emit_constant(c, Type::I32, 1).unwrap();
    g.emit_branch(c, known, into, vec![never], end, vec![]).unwrap();
    g.seal_all();
    let g = checked(g);
    for v in [7i64, 0, 1] {
        assert_eq!(run(&g, &vec![v], 10), Err(ExecutionError::UndefinedValue { value: never }));
    }
}

#[test]
fn arithmetic_wraps_at_the_declared_width() {
    let mut g = FunctionGraph::new(vec![Type::I8, Type::I8, Type::I8]);
    let e = g.entry();
    let a = g.emit_input(e, Type::I8, 0).unwrap();
    let b = g.emit_input(e, Type::I8, 1).unwrap();
    let sum = g.emit_arithmetic(e, ArithOp::Add, a, b).unwrap();
    let diff = g.emit_arithmetic(e, ArithOp::Sub, a, b).unwrap();
    let prod = g.emit_arithmetic(e, ArithOp::Mul, a, b).unwrap();
    g.emit_return(e, vec![sum, diff, prod]).unwrap();
    g.seal_all();
    let g = checked(g);
    assert_eq!(run(&g, &vec![127, 1], 10), Ok(vec![-128, 126, 127]));
    assert_eq!(run(&g, &vec![-128, 1], 10), Ok(vec![-127, 127, -128]));
    assert_eq!(run(&g, &vec![100, 100], 10), Ok(vec![-56, 0, 16]));
    // Inputs and constants are wrapped to their type as well.
    assert_eq!(run(&g, &vec![256 + 3, -256 + 4], 10), Ok(vec![7, -1, 12]));
}

#[test]
fn constants_are_wrapped_to_their_type() {
    let mut g = FunctionGraph::new(vec![Type::I8, Type::I16, Type::I32, Type::I64]);
    let e = g.entry();
    let a = g.emit_constant(e, Type::I8, 0x1ff).unwrap();
    let b = g.emit_constant(e, Type::I16, 0x18000).unwrap();
    let c = g.emit_constant(e, Type::I32, 0xffff_ffff).unwrap();
    let d = g.emit_constant(e, Type::I64, i64::MIN).unwrap();
    g.emit_return(e, vec![a, b, c, d]).unwrap();
    g.seal_all();
    let g = checked(g);
    assert_eq!(run(&g, &vec![], 5), Ok(vec![-1, -0x8000, -1, i64::MIN]));
}

#[test]
fn edge_arguments_are_bound_by_position_all_at_once() {
    // head(a, b): if n == 0 return (a, b) else head(b, a) with n - 1.
    let mut g = FunctionGraph::new(vec![Type::I32, Type::I32]);
    let e = g.entry();
    let head = g.create_block();
    let done = g.create_block();
    let x = g.emit_input(e, Type::I32, 0).unwrap();
    let y = g.emit_input(e, Type::I32, 1).unwrap();
    let n = g.emit_input(e, Type::I32, 2).unwrap();
    g.emit_jump(e, head, vec![x, y, n]).unwrap();
    let a = g.append_parameter(head, Type::I32).unwrap();
    let b = g.append_parameter(head, Type::I32).unwrap();
    let k = g.append_parameter(head, Type::I32).unwrap();
    let one = g.emit_constant(head, Type::I32, 1).unwrap();
    let less = g.emit_arithmetic(head, ArithOp::Sub, k, one).unwrap();
    g.emit_branch(head, k, head, vec![b, a, less], done, vec![]).unwrap();
    g.emit_return(done, vec![a, b]).unwrap();
    g.seal_all();
    let g = checked(g);
    assert_eq!(run(&g, &vec![3, 9, 0], 100), Ok(vec![3, 9]));
    assert_eq!(run(&g, &vec![3, 9, 1], 100), Ok(vec![9, 3]));
    assert_eq!(run(&g, &vec![3, 9, 4], 100), Ok(vec![3, 9]));
    assert_eq!(run(&g, &vec![3, 9, 5], 100), Ok(vec![9, 3]));
}

#[test]
fn counting_loop_runs_as_often_as_asked() {
    // Sums n + (n - 1) + ... + 1.
    let mut g = FunctionGraph::new(vec![Type::I64]);
    let e = g.entry();
    let head = g.create_block();
    let body = g.create_block();
    let done = g.create_block();
    let n = g.emit_input(e, Type::I64, 0).unwrap();
    let zero = g.emit_constant(e, Type::I64, 0).unwrap();
    g.emit_jump(e, head, vec![n, zero]).unwrap();
    let k = g.append_parameter(head, Type::I64).unwrap();
    let acc = g.append_parameter(head, Type::I64).unwrap();
    g.emit_branch(head, k, body, vec![], done, vec![]).unwrap();
    let one = g.emit_constant(body, Type::I64, 1).unwrap();
    let next = g.emit_arithmetic(body, ArithOp::Sub, k, one).unwrap();
    let more = g.emit_arithmetic(body, ArithOp::Add, acc, k).unwrap();
    g.emit_jump(body, head, vec![next, more]).unwrap();
    g.emit_return(done, vec![acc]).unwrap();
    g.seal_all();
    let g = checked(g);
    assert_eq!(run(&g, &vec![0], 1000), Ok(vec![0]));
    assert_eq!(run(&g, &vec![1], 1000), Ok(vec![1]));
    assert_eq!(run(&g, &vec![10], 1000), Ok(vec![55]));
    assert_eq!(run(&g, &vec![100], 1000), Ok(vec![5050]));
    // 3 + 5 * 100 + 2 instructions.
    assert_eq!(run(&g, &vec![100], 505), Ok(vec![5050]));
    assert_eq!(run(&g, &vec![100], 504), Err(ExecutionError::StepLimitExceeded));
}

#[test]
fn return_may_yield_nothing_or_several_values() {
    let mut g = FunctionGraph::new(vec![]);
    let e = g.entry();
    g.emit_return(e, vec![]).unwrap();
    g.seal_all();
    let g = checked(g);
    assert_eq!(run(&g, &vec![1, 2, 3], 1), Ok(vec![]));
    assert_eq!(run(&g, &vec![], 0), Err(ExecutionError::StepLimitExceeded));
}

#[test]
fn scenario_brif() {
    assert_eq!(ssa_graph::scenarios::brif(0), 8);
    assert_eq!(ssa_graph::scenarios::brif(1), 4);
    assert_eq!(ssa_graph::scenarios::brif(-1), 4);
    assert_eq!(ssa_graph::scenarios::brif(i32::MIN), 4);
}

#[test]
fn scenario_br_table() {
    assert_eq!(ssa_graph::scenarios::br_table(0), 8);
    assert_eq!(ssa_graph::scenarios::br_table(1), 16);
    assert_eq!(ssa_graph::scenarios::br_table(2), 4);
    assert_eq!(ssa_graph::scenarios::br_table(-1), 4);
    assert_eq!(ssa_graph::scenarios::br_table(i32::MAX), 4);
}

#[test]
fn scenario_both() {
    assert_eq!(ssa_graph::scenarios::both(1), 8);
    assert_eq!(ssa_graph::scenarios::both(0), 16);
    assert_eq!(ssa_graph::scenarios::both(-5), 8);
}
