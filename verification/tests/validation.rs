use ssa_graph::error::StructuralError;
use ssa_graph::graph::FunctionGraph;
use ssa_graph::inst::{Operation, Terminator};
use ssa_graph::scenarios::{both_graph, br_table_graph, brif_graph};
use ssa_graph::types::{ArithOp, Type};
use ssa_graph::validate::{collect_violations, validate};

fn defects(g: FunctionGraph) -> Vec<StructuralError> {
    let listed = collect_violations(&g);
    match validate(g) {
        Ok(_) => {
            assert!(listed.is_empty());
            listed
        }
        Err(errs) => {
            assert!(!errs.is_empty());
            assert_eq!(errs, listed);
            errs
        }
    }
}

#[test]
fn well_formed_graphs_have_no_violation() {
    assert_eq!(defects(brif_graph()), vec![]);
    assert_eq!(defects(br_table_graph()), vec![]);
    assert_eq!(defects(both_graph()), vec![]);
    let mut g = FunctionGraph::new(vec![]);
    let e = g.entry();
    g.emit_return(e, vec![]).unwrap();
    g.seal_all();
    assert_eq!(defects(g), vec![]);
}

#[test]
fn validated_graph_is_the_graph() {
    let v = validate(brif_graph()).unwrap();
    assert_eq!(v.graph().block_count(), 6);
    assert_eq!(v.graph().value_count(), 8);
    let g = v.into_graph();
    assert_eq!(g.block_count(), 6);
    assert!(g.block(g.entry()).is_sealed());
}

#[test]
fn two_terminators_in_one_block_are_reported() {
    let mut g = FunctionGraph::new(vec![]);
    let e = g.entry();
    g.emit_return(e, vec![]).unwrap();
    g.append_terminator(e, Terminator::Return { values: vec![] }).unwrap();
    g.seal_all();
    let errs = defects(g);
    assert_eq!(errs, vec![StructuralError::EarlyTerminator { block: e, inst: 0 }]);
    assert_eq!(errs[0].block(), Some(e));
}

#[test]
fn three_terminators_give_two_reports() {
    let mut g = FunctionGraph::new(vec![]);
    let e = g.entry();
    let b = g.create_block();
    g.emit_jump(e, b, vec![]).unwrap();
    g.emit_return(b, vec![]).unwrap();
    g.append_terminator(b, Terminator::Jump { target: b, args: vec![] }).unwrap();
    g.append_terminator(b, Terminator::Return { values: vec![] }).unwrap();
    g.seal_all();
    assert_eq!(
        defects(g),
        vec![
            StructuralError::EarlyTerminator { block: b, inst: 0 },
            StructuralError::EarlyTerminator { block: b, inst: 1 },
        ]
    );
}

#[test]
fn instruction_after_the_terminator_is_reported() {
    let mut g = FunctionGraph::new(vec![]);
    let e = g.entry();
    g.emit_return(e, vec![]).unwrap();
    g.append_operation(e, Operation::Const { ty: Type::I32, literal: 0 }).unwrap();
    g.seal_all();
    assert_eq!(
        defects(g),
        vec![
            StructuralError::EarlyTerminator { block: e, inst: 0 },
            StructuralError::MissingTerminator { block: e },
        ]
    );
}

#[test]
fn missing_terminator_is_reported() {
    let mut g = FunctionGraph::new(vec![]);
    let e = g.entry();
    let b = g.create_block();
    g.emit_jump(e, b, vec![]).unwrap();
    g.emit_constant(b, Type::I32, 1).unwrap();
    g.seal_all();
    assert_eq!(defects(g), vec![StructuralError::MissingTerminator { block: b }]);
    let mut empty = FunctionGraph::new(vec![]);
    empty.seal_all();
    let e = empty.entry();
    assert_eq!(defects(empty), vec![StructuralError::MissingTerminator { block: e }]);
}

#[test]
fn unsealed_blocks_are_reported() {
    let mut g = FunctionGraph::new(vec![]);
    let e = g.entry();
    let b1 = g.create_block();
    let b2 = g.create_block();
    g.emit_jump(e, b1, vec![]).unwrap();
    g.emit_jump(b1, b2, vec![]).unwrap();
    g.emit_return(b2, vec![]).unwrap();
    g.seal(b1).unwrap();
    assert_eq!(
        defects(g),
        vec![StructuralError::Unsealed { block: e }, StructuralError::Unsealed { block: b2 }]
    );
}

#[test]
fn mismatched_jump_arity_is_reported() {
    let mut g = FunctionGraph::new(vec![]);
    let e = g.entry();
    let b = g.create_block();
    g.append_parameter(b, Type::I32).unwrap();
    g.emit_jump(e, b, vec![]).unwrap();
    g.emit_return(b, vec![]).unwrap();
    g.seal_all();
    assert_eq!(
        defects(g),
        vec![StructuralError::ArityMismatch { block: e, inst: 0, target: b, expected: 1, found: 0 }]
    );
}

#[test]
fn too_many_arguments_are_reported() {
    let mut g = FunctionGraph::new(vec![]);
    let e = g.entry();
    let b = g.create_block();
    let c = g.emit_constant(e, Type::I32, 3).unwrap();
    g.emit_branch(e, c, b, vec![c, c], b, vec![]).unwrap();
    g.emit_return(b, vec![]).unwrap();
    g.seal_all();
    assert_eq!(
        defects(g),
        vec![StructuralError::ArityMismatch { block: e, inst: 1, target: b, expected: 0, found: 2 }]
    );
}

#[test]
fn table_targets_take_no_parameters() {
    let mut g = FunctionGraph::new(vec![]);
    let e = g.entry();
    let plain = g.create_block();
    let taking = g.create_block();
    let c = g.emit_constant(e, Type::I32, 0).unwrap();
    g.emit_multi_branch(e, c, plain, vec![plain, taking]).unwrap();
    g.emit_return(plain, vec![]).unwrap();
    g.append_parameter(taking, Type::I32).unwrap();
    g.emit_return(taking, vec![]).unwrap();
    g.seal_all();
    assert_eq!(
        defects(g),
        vec![StructuralError::ArityMismatch {
            block: e,
            inst: 1,
            target: taking,
            expected: 1,
            found: 0
        }]
    );
}

#[test]
fn mistyped_arguments_are_reported_by_position() {
    let mut g = FunctionGraph::new(vec![]);
    let e = g.entry();
    let b = g.create_block();
    let narrow = g.emit_constant(e, Type::I8, 1).unwrap();
    let wide = g.emit_constant(e, Type::I64, 1).unwrap();
    g.append_parameter(b, Type::I8).unwrap();
    g.append_parameter(b, Type::I8).unwrap();
    g.append_parameter(b, Type::I64).unwrap();
    g.emit_jump(e, b, vec![wide, narrow, narrow]).unwrap();
    g.emit_return(b, vec![]).unwrap();
    g.seal_all();
    assert_eq!(
        defects(g),
        vec![
            StructuralError::TypeMismatch { block: e, inst: 2, target: b, position: 0 },
            StructuralError::TypeMismatch { block: e, inst: 2, target: b, position: 2 },
        ]
    );
}

#[test]
fn unknown_targets_are_reported() {
    let mut big = FunctionGraph::new(vec![]);
    big.create_block();
    big.create_block();
    let far = big.create_block();
    let mut g = FunctionGraph::new(vec![]);
    let e = g.entry();
    let b = g.create_block();
    let c = g.emit_constant(e, Type::I32, 0).unwrap();
    g.emit_multi_branch(e, c, far, vec![b, far]).unwrap();
    g.emit_return(b, vec![]).unwrap();
    g.seal_all();
    assert_eq!(
        defects(g),
        vec![
            StructuralError::UnknownTarget { block: e, inst: 1, target: far },
            StructuralError::UnknownTarget { block: e, inst: 1, target: far },
        ]
    );
}

#[test]
fn entry_parameters_are_reported() {
    let mut g = FunctionGraph::new(vec![]);
    let e = g.entry();
    g.append_parameter(e, Type::I32).unwrap();
    g.append_parameter(e, Type::I32).unwrap();
    g.emit_return(e, vec![]).unwrap();
    g.seal_all();
    assert_eq!(defects(g), vec![StructuralError::EntryHasParameters { count: 2 }]);
}

#[test]
fn unreachable_block_is_reported() {
    let mut g = FunctionGraph::new(vec![]);
    let e = g.entry();
    let used = g.create_block();
    let island = g.create_block();
    g.emit_jump(e, used, vec![]).unwrap();
    g.emit_return(used, vec![]).unwrap();
    g.emit_return(island, vec![]).unwrap();
    g.seal_all();
    let errs = defects(g);
    assert_eq!(errs, vec![StructuralError::Unreachable { block: island }]);
    assert_eq!(errs[0].block(), Some(island));
    assert_eq!(errs[0].message(), "unreachable block");
}

#[test]
fn blocks_reached_only_from_unreachable_blocks_are_unreachable() {
    let mut g = FunctionGraph::new(vec![]);
    let e = g.entry();
    let a = g.create_block();
    let b = g.create_block();
    let c = g.create_block();
    g.emit_return(e, vec![]).unwrap();
    // a and b point at each other and at c; nothing points at them from the entry.
    g.emit_jump(a, b, vec![]).unwrap();
    let k = g.emit_constant(b, Type::I32, 0).unwrap();
    g.emit_branch(b, k, a, vec![], c, vec![]).unwrap();
    g.emit_jump(c, e, vec![]).unwrap();
    g.seal_all();
    assert_eq!(
        defects(g),
        vec![
            StructuralError::Unreachable { block: a },
            StructuralError::Unreachable { block: b },
            StructuralError::Unreachable { block: c },
        ]
    );
}

#[test]
fn every_kind_of_edge_reaches_its_target() {
    let mut g = FunctionGraph::new(vec![]);
    let e = g.entry();
    let by_default = g.create_block();
    let by_table = g.create_block();
    let by_then = g.create_block();
    let by_else = g.create_block();
    let by_jump = g.create_block();
    let c = g.emit_constant(e, Type::I32, 0).unwrap();
    g.emit_multi_branch(e, c, by_default, vec![by_table]).unwrap();
    g.emit_branch(by_default, c, by_then, vec![], by_else, vec![]).unwrap();
    g.emit_jump(by_table, by_jump, vec![]).unwrap();
    g.emit_return(by_then, vec![]).unwrap();
    g.emit_return(by_else, vec![]).unwrap();
    // A back edge to the entry and a self loop change nothing.
    g.emit_branch(by_jump, c, e, vec![], by_jump, vec![]).unwrap();
    g.seal_all();
    assert_eq!(defects(g), vec![]);
}

#[test]
fn return_must_fit_the_declared_types() {
    let mut g = FunctionGraph::new(vec![Type::I32, Type::I64]);
    let e = g.entry();
    let b1 = g.create_block();
    let b2 = g.create_block();
    let small = g.emit_constant(e, Type::I32, 1).unwrap();
    let big = g.emit_constant(e, Type::I64, 1).unwrap();
    g.emit_branch(e, small, b1, vec![], b2, vec![]).unwrap();
    g.emit_return(b1, vec![small]).unwrap();
    g.emit_return(b2, vec![big, small]).unwrap();
    g.seal_all();
    assert_eq!(
        defects(g),
        vec![
            StructuralError::ReturnArity { block: b1, inst: 0, expected: 2, found: 1 },
            StructuralError::ReturnType { block: b2, inst: 0, position: 0 },
            StructuralError::ReturnType { block: b2, inst: 0, position: 1 },
        ]
    );
}

#[test]
fn all_violations_are_listed_check_by_check() {
    let mut big = FunctionGraph::new(vec![]);
    for _ in 0..9 {
        big.create_block();
    }
    let far = big.create_block();
    let mut g = FunctionGraph::new(vec![Type::I32]);
    let e = g.entry();
    let b1 = g.create_block();
    let b2 = g.create_block();
    let b3 = g.create_block();
    let p = g.append_parameter(e, Type::I32).unwrap();
    let q = g.append_parameter(b1, Type::I64).unwrap();
    // entry: jump b1(p) with the wrong type, then a second terminator to nowhere.
    g.emit_jump(e, b1, vec![p]).unwrap();
    g.append_terminator(e, Terminator::Jump { target: far, args: vec![] }).unwrap();
    // b1: returns a value of the wrong type, and too many to b2.
    let s = g.emit_arithmetic(b1, ArithOp::Add, q, q).unwrap();
    g.emit_branch(b1, s, b2, vec![s], b1, vec![]).unwrap();
    g.append_terminator(b1, Terminator::Return { values: vec![s] }).unwrap();
    // b2: no terminator. b3: unreachable, returns nothing.
    g.emit_return(b3, vec![]).unwrap();
    g.seal(e).unwrap();
    g.seal(b1).unwrap();
    g.seal(b3).unwrap();
    assert_eq!(
        defects(g),
        vec![
            StructuralError::Unsealed { block: b2 },
            StructuralError::EarlyTerminator { block: e, inst: 0 },
            StructuralError::EarlyTerminator { block: b1, inst: 1 },
            StructuralError::MissingTerminator { block: b2 },
            StructuralError::UnknownTarget { block: e, inst: 1, target: far },
            StructuralError::TypeMismatch { block: e, inst: 0, target: b1, position: 0 },
            StructuralError::ArityMismatch { block: b1, inst: 1, target: b2, expected: 0, found: 1 },
            StructuralError::ArityMismatch { block: b1, inst: 1, target: b1, expected: 1, found: 0 },
            StructuralError::EntryHasParameters { count: 1 },
            StructuralError::Unreachable { block: b3 },
            StructuralError::ReturnType { block: b1, inst: 2, position: 0 },
            StructuralError::ReturnArity { block: b3, inst: 0, expected: 1, found: 0 },
        ]
    );
}
