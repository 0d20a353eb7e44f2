use ssa_graph::error::StructuralError;
use ssa_graph::graph::FunctionGraph;
use ssa_graph::inst::{Instruction, Operation, Terminator};
use ssa_graph::types::{ArithOp, Type};

#[test]
fn new_graph_has_an_empty_entry() {
    let g = FunctionGraph::new(vec![Type::I32]);
    assert_eq!(g.block_count(), 1);
    assert_eq!(g.value_count(), 0);
    assert_eq!(g.entry().index(), 0);
    assert_eq!(g.return_types(), &vec![Type::I32]);
    let entry = g.block(g.entry());
    assert_eq!(entry.len(), 0);
    assert!(entry.params().is_empty());
    assert!(!entry.is_sealed());
    assert!(!entry.is_terminated());
}

#[test]
fn blocks_and_values_are_numbered_in_order() {
    let mut g = FunctionGraph::new(vec![]);
    let b1 = g.create_block();
    let b2 = g.create_block();
    assert_eq!(b1.index(), 1);
    assert_eq!(b2.index(), 2);
    assert_eq!(g.block_count(), 3);
    assert_eq!(g.block_id(2), Some(b2));
    assert_eq!(g.block_id(3), None);
    let p = g.append_parameter(b1, Type::I16).unwrap();
    let c = g.emit_constant(b2, Type::I64, 7).unwrap();
    let i = g.emit_input(b2, Type::I8, 3).unwrap();
    assert_eq!((p.index(), c.index(), i.index()), (0, 1, 2));
    assert_eq!(g.value_count(), 3);
    assert_eq!(g.value_type(p), Type::I16);
    assert_eq!(g.value_type(c), Type::I64);
    assert_eq!(g.value_type(i), Type::I8);
    assert_eq!(g.block(b1).params(), &vec![p]);
    assert_eq!(
        g.block(b2).inst(0),
        &Instruction::Pure { result: c, op: Operation::Const { ty: Type::I64, literal: 7 } }
    );
    assert_eq!(
        g.block(b2).inst(1),
        &Instruction::Pure { result: i, op: Operation::Input { ty: Type::I8, index: 3 } }
    );
}

#[test]
fn arithmetic_takes_the_type_of_its_left_operand() {
    let mut g = FunctionGraph::new(vec![]);
    let e = g.entry();
    let a = g.emit_constant(e, Type::I16, 5).unwrap();
    let b = g.emit_constant(e, Type::I16, 6).unwrap();
    let s = g.emit_arithmetic(e, ArithOp::Mul, a, b).unwrap();
    assert_eq!(g.value_type(s), Type::I16);
    assert_eq!(
        g.block(e).inst(2),
        &Instruction::Pure {
            result: s,
            op: Operation::Arith { op: ArithOp::Mul, ty: Type::I16, lhs: a, rhs: b }
        }
    );
}

#[test]
fn terminators_are_stored_as_given() {
    let mut g = FunctionGraph::new(vec![Type::I32]);
    let e = g.entry();
    let b1 = g.create_block();
    let b2 = g.create_block();
    let c = g.emit_constant(e, Type::I32, 1).unwrap();
    g.emit_branch(e, c, b1, vec![], b2, vec![c]).unwrap();
    g.emit_multi_branch(b1, c, b2, vec![b1, b2]).unwrap();
    g.emit_return(b2, vec![c]).unwrap();
    assert_eq!(
        g.block(e).inst(1),
        &Instruction::Control {
            term: Terminator::Branch {
                cond: c,
                then_target: b1,
                then_args: vec![],
                else_target: b2,
                else_args: vec![c]
            }
        }
    );
    assert_eq!(
        g.block(b1).inst(0),
        &Instruction::Control {
            term: Terminator::MultiBranch { index: c, default_target: b2, targets: vec![b1, b2] }
        }
    );
    assert_eq!(
        g.block(b2).inst(0),
        &Instruction::Control { term: Terminator::Return { values: vec![c] } }
    );
    assert!(g.block(e).is_terminated());
    assert!(g.block(e).inst(1).is_terminator());
    assert!(!g.block(e).inst(0).is_terminator());
}

#[test]
fn edges_come_in_order() {
    let mut g = FunctionGraph::new(vec![]);
    let b1 = g.create_block();
    let b2 = g.create_block();
    let b3 = g.create_block();
    let c = g.emit_constant(g.entry(), Type::I32, 0).unwrap();
    let jump = Terminator::Jump { target: b2, args: vec![c, c] };
    assert_eq!(jump.targets(), vec![b2]);
    assert_eq!(jump.edge_arity(0), 2);
    assert_eq!(jump.edge_arg(0, 1), c);
    assert_eq!(jump.operands(), vec![c, c]);
    let branch = Terminator::Branch {
        cond: c,
        then_target: b1,
        then_args: vec![],
        else_target: b3,
        else_args: vec![c],
    };
    assert_eq!(branch.targets(), vec![b1, b3]);
    assert_eq!(branch.edge_arity(0), 0);
    assert_eq!(branch.edge_arity(1), 1);
    assert_eq!(branch.edge_arg(1, 0), c);
    assert_eq!(branch.operands(), vec![c, c]);
    let table = Terminator::MultiBranch { index: c, default_target: b3, targets: vec![b1, b2] };
    assert_eq!(table.targets(), vec![b3, b1, b2]);
    assert_eq!(table.edge_arity(2), 0);
    assert_eq!(table.operands(), vec![c]);
    let ret = Terminator::Return { values: vec![c] };
    assert!(ret.targets().is_empty());
    assert_eq!(ret.operands(), vec![c]);
}

#[test]
fn unknown_block_is_refused() {
    let mut big = FunctionGraph::new(vec![]);
    big.create_block();
    let far = big.create_block();
    let mut g = FunctionGraph::new(vec![]);
    assert!(!g.has_block(far));
    assert_eq!(g.append_parameter(far, Type::I32), Err(StructuralError::UnknownBlock { block: far }));
    assert_eq!(g.emit_constant(far, Type::I32, 1), Err(StructuralError::UnknownBlock { block: far }));
    assert_eq!(g.emit_return(far, vec![]), Err(StructuralError::UnknownBlock { block: far }));
    assert_eq!(g.seal(far), Err(StructuralError::UnknownBlock { block: far }));
    assert_eq!(g.block_count(), 1);
    assert_eq!(g.value_count(), 0);
}

#[test]
fn sealed_block_takes_nothing_more() {
    let mut g = FunctionGraph::new(vec![]);
    let e = g.entry();
    let b = g.create_block();
    let c = g.emit_constant(e, Type::I32, 1).unwrap();
    assert_eq!(g.seal(b), Ok(()));
    assert!(g.block(b).is_sealed());
    assert!(!g.block(e).is_sealed());
    assert_eq!(g.append_parameter(b, Type::I32), Err(StructuralError::BlockSealed { block: b }));
    assert_eq!(g.emit_constant(b, Type::I32, 2), Err(StructuralError::BlockSealed { block: b }));
    assert_eq!(g.emit_return(b, vec![]), Err(StructuralError::BlockSealed { block: b }));
    assert_eq!(
        g.append_operation(b, Operation::Const { ty: Type::I32, literal: 2 }),
        Err(StructuralError::BlockSealed { block: b })
    );
    assert_eq!(
        g.append_terminator(b, Terminator::Return { values: vec![] }),
        Err(StructuralError::BlockSealed { block: b })
    );
    assert_eq!(g.block(b).len(), 0);
    assert!(g.block(b).params().is_empty());
    assert_eq!(g.value_count(), 1);
    // Sealing again changes nothing.
    assert_eq!(g.seal(b), Ok(()));
    assert_eq!(g.emit_return(e, vec![c]), Ok(()));
}

#[test]
fn sealed_block_takes_no_new_predecessor() {
    let mut g = FunctionGraph::new(vec![]);
    let e = g.entry();
    let b1 = g.create_block();
    let b2 = g.create_block();
    let c = g.emit_constant(e, Type::I32, 1).unwrap();
    g.seal(b2).unwrap();
    assert_eq!(
        g.emit_jump(e, b2, vec![]),
        Err(StructuralError::TargetSealed { block: e, target: b2 })
    );
    assert_eq!(
        g.emit_branch(e, c, b1, vec![], b2, vec![]),
        Err(StructuralError::TargetSealed { block: e, target: b2 })
    );
    assert_eq!(
        g.emit_multi_branch(e, c, b1, vec![b1, b2]),
        Err(StructuralError::TargetSealed { block: e, target: b2 })
    );
    assert_eq!(g.block(e).len(), 1);
    assert_eq!(g.emit_jump(e, b1, vec![]), Ok(()));
}

#[test]
fn second_terminator_is_refused() {
    let mut g = FunctionGraph::new(vec![]);
    let e = g.entry();
    let b = g.create_block();
    g.emit_jump(e, b, vec![]).unwrap();
    let err = g.emit_jump(e, b, vec![]).unwrap_err();
    assert_eq!(err, StructuralError::BlockTerminated { block: e });
    assert_eq!(err.message(), "block already terminated");
    assert_eq!(err.block(), Some(e));
    assert_eq!(g.emit_return(e, vec![]), Err(StructuralError::BlockTerminated { block: e }));
    assert_eq!(g.emit_branch(e, ssa_value(&mut FunctionGraph::new(vec![])), b, vec![], b, vec![]),
        Err(StructuralError::BlockTerminated { block: e }));
    assert_eq!(g.emit_constant(e, Type::I32, 1), Err(StructuralError::BlockTerminated { block: e }));
    assert_eq!(g.emit_input(e, Type::I32, 0), Err(StructuralError::BlockTerminated { block: e }));
    assert_eq!(g.block(e).len(), 1);
    assert_eq!(g.value_count(), 0);
}

fn ssa_value(g: &mut FunctionGraph) -> ssa_graph::types::Value {
    let e = g.entry();
    g.emit_constant(e, Type::I32, 0).unwrap()
}

#[test]
fn unchecked_append_goes_past_a_terminator() {
    let mut g = FunctionGraph::new(vec![]);
    let e = g.entry();
    g.emit_return(e, vec![]).unwrap();
    assert_eq!(g.append_terminator(e, Terminator::Return { values: vec![] }), Ok(()));
    let v = g.append_operation(e, Operation::Const { ty: Type::I8, literal: 1 }).unwrap();
    assert_eq!(v.index(), 0);
    assert_eq!(g.block(e).len(), 3);
    assert!(g.block(e).inst(1).is_terminator());
    assert!(!g.block(e).inst(2).is_terminator());
}

#[test]
fn unknown_value_is_refused() {
    let mut other = FunctionGraph::new(vec![]);
    ssa_value(&mut other);
    let foreign = ssa_value(&mut other);
    let mut g = FunctionGraph::new(vec![]);
    let e = g.entry();
    let b = g.create_block();
    let own = g.emit_constant(e, Type::I32, 1).unwrap();
    assert!(g.has_value(own));
    assert!(!g.has_value(foreign));
    assert_eq!(
        g.emit_arithmetic(e, ArithOp::Add, foreign, own),
        Err(StructuralError::UnknownValue { block: e, value: foreign })
    );
    assert_eq!(
        g.emit_arithmetic(e, ArithOp::Add, own, foreign),
        Err(StructuralError::UnknownValue { block: e, value: foreign })
    );
    assert_eq!(
        g.emit_jump(e, b, vec![own, foreign]),
        Err(StructuralError::UnknownValue { block: e, value: foreign })
    );
    assert_eq!(
        g.emit_branch(e, foreign, b, vec![], b, vec![]),
        Err(StructuralError::UnknownValue { block: e, value: foreign })
    );
    assert_eq!(
        g.emit_multi_branch(e, foreign, b, vec![]),
        Err(StructuralError::UnknownValue { block: e, value: foreign })
    );
    assert_eq!(
        g.emit_return(e, vec![foreign]),
        Err(StructuralError::UnknownValue { block: e, value: foreign })
    );
    assert_eq!(g.block(e).len(), 1);
    assert_eq!(g.value_count(), 1);
}

#[test]
fn mistyped_operand_is_refused() {
    let mut g = FunctionGraph::new(vec![]);
    let e = g.entry();
    let a = g.emit_constant(e, Type::I32, 1).unwrap();
    let b = g.emit_constant(e, Type::I64, 1).unwrap();
    assert_eq!(
        g.emit_arithmetic(e, ArithOp::Add, a, b),
        Err(StructuralError::OperandType { block: e, value: b })
    );
    assert_eq!(
        g.append_operation(e, Operation::Arith { op: ArithOp::Add, ty: Type::I64, lhs: a, rhs: b }),
        Err(StructuralError::OperandType { block: e, value: a })
    );
    assert_eq!(g.value_count(), 2);
    assert_eq!(g.block(e).len(), 2);
}

#[test]
fn refusals_come_in_a_fixed_order() {
    let mut other = FunctionGraph::new(vec![]);
    let foreign_block = other.create_block();
    let mut g = FunctionGraph::new(vec![]);
    let e = g.entry();
    let foreign = {
        let oe = other.entry();
        other.emit_constant(oe, Type::I32, 0).unwrap();
        other.emit_constant(oe, Type::I32, 0).unwrap()
    };
    // Unknown block before everything else.
    assert_eq!(
        g.emit_return(foreign_block, vec![foreign]),
        Err(StructuralError::UnknownBlock { block: foreign_block })
    );
    // A terminated block before an unknown value, a sealed one before both.
    g.emit_return(e, vec![]).unwrap();
    assert_eq!(g.emit_return(e, vec![foreign]), Err(StructuralError::BlockTerminated { block: e }));
    g.seal(e).unwrap();
    assert_eq!(g.emit_return(e, vec![foreign]), Err(StructuralError::BlockSealed { block: e }));
    // An unknown value before a sealed target.
    let b = g.create_block();
    assert_eq!(
        g.emit_jump(b, e, vec![foreign]),
        Err(StructuralError::UnknownValue { block: b, value: foreign })
    );
}

#[test]
fn seal_all_seals_every_block() {
    let mut g = FunctionGraph::new(vec![]);
    let b1 = g.create_block();
    let b2 = g.create_block();
    g.seal(b1).unwrap();
    g.seal_all();
    assert!(g.block(g.entry()).is_sealed());
    assert!(g.block(b1).is_sealed());
    assert!(g.block(b2).is_sealed());
    assert_eq!(g.block_count(), 3);
}

#[test]
fn each_defect_has_its_message() {
    let mut g = FunctionGraph::new(vec![]);
    let b = g.create_block();
    let v = ssa_value(&mut g);
    let all = [
        (StructuralError::UnknownBlock { block: b }, "unknown block"),
        (StructuralError::BlockSealed { block: b }, "block already sealed"),
        (StructuralError::BlockTerminated { block: b }, "block already terminated"),
        (StructuralError::UnknownValue { block: b, value: v }, "unknown value"),
        (StructuralError::TargetSealed { block: b, target: b }, "target block already sealed"),
        (StructuralError::OperandType { block: b, value: v }, "operand type mismatch"),
        (StructuralError::Unsealed { block: b }, "block not sealed"),
        (
            StructuralError::EarlyTerminator { block: b, inst: 0 },
            "terminator before the end of the block",
        ),
        (StructuralError::MissingTerminator { block: b }, "block not terminated"),
        (StructuralError::UnknownTarget { block: b, inst: 0, target: b }, "unknown target block"),
        (
            StructuralError::ArityMismatch { block: b, inst: 0, target: b, expected: 1, found: 0 },
            "argument arity mismatch",
        ),
        (
            StructuralError::TypeMismatch { block: b, inst: 0, target: b, position: 0 },
            "argument type mismatch",
        ),
        (StructuralError::Unreachable { block: b }, "unreachable block"),
        (
            StructuralError::ReturnArity { block: b, inst: 0, expected: 1, found: 0 },
            "return arity mismatch",
        ),
        (StructuralError::ReturnType { block: b, inst: 0, position: 0 }, "return type mismatch"),
    ];
    for (e, text) in all {
        assert_eq!(e.message(), text);
        assert_eq!(e.block(), Some(b));
    }
    let entry = StructuralError::EntryHasParameters { count: 2 };
    assert_eq!(entry.message(), "entry block has parameters");
    assert_eq!(entry.block(), None);
}

#[test]
fn instructions_tell_operands_and_targets() {
    let mut g = FunctionGraph::new(vec![]);
    let e = g.entry();
    let b = g.create_block();
    let x = g.emit_constant(e, Type::I32, 1).unwrap();
    let y = g.emit_input(e, Type::I32, 0).unwrap();
    let z = g.emit_arithmetic(e, ArithOp::Sub, x, y).unwrap();
    g.emit_branch(e, z, b, vec![], e, vec![x]).unwrap();
    let block = g.block(e);
    assert!(block.inst(0).operands().is_empty());
    assert!(block.inst(1).operands().is_empty());
    assert_eq!(block.inst(2).operands(), vec![x, y]);
    assert_eq!(block.inst(3).operands(), vec![z, x]);
    assert!(block.inst(2).targets().is_empty());
    assert_eq!(block.inst(3).targets(), vec![b, e]);
    assert_eq!(Operation::Const { ty: Type::I8, literal: 0 }.ty(), Type::I8);
    assert_eq!(Operation::Input { ty: Type::I16, index: 0 }.ty(), Type::I16);
    assert_eq!(
        Operation::Arith { op: ArithOp::Add, ty: Type::I64, lhs: x, rhs: y }.ty(),
        Type::I64
    );
}
