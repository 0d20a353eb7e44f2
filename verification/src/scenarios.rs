use vstd::prelude::*;

use crate::graph::{BlockView, FunctionGraph, GraphView};
use crate::inst::{InstView, Operation, TerminatorView};
use crate::interp::{
    bind, first_undefined, initial, outcome, read, read_all, run, run_from, selected, step, Env,
    Outcome, State, Step,
};
use crate::reach::{lemma_entry_reachable, lemma_step_reachable, points_to};
use crate::types::{ArithOp, BlockId, Type, Value};
use crate::validate::validate;
use crate::validity::{block_valid, edge_valid, inst_valid, lemma_no_violation_iff_valid, valid};

verus! {

/// The pure instruction that defines value `n` by `op`.
pub open spec fn def(n: nat, op: Operation) -> InstView {
    InstView::Pure { result: Value::at(n), op }
}

/// The constant `literal` of type `I32`.
pub open spec fn const32(literal: i64) -> Operation {
    Operation::Const { ty: Type::I32, literal }
}

/// A jump to block `target` that hands over the values `args`.
pub open spec fn jump(target: nat, args: Seq<Value>) -> InstView {
    InstView::Control { term: TerminatorView::Jump { target: BlockId::at(target), args } }
}

/// A return of value `n`.
pub open spec fn ret(n: nat) -> InstView {
    InstView::Control { term: TerminatorView::Return { values: seq![Value::at(n)] } }
}

/// A two-way branch on value `cond`.
pub open spec fn branch(
    cond: nat,
    then_target: nat,
    then_args: Seq<Value>,
    else_target: nat,
    else_args: Seq<Value>,
) -> InstView {
    InstView::Control {
        term: TerminatorView::Branch {
            cond: Value::at(cond),
            then_target: BlockId::at(then_target),
            then_args,
            else_target: BlockId::at(else_target),
            else_args,
        },
    }
}

/// A sealed block.
pub open spec fn sealed_block(params: Seq<Value>, insts: Seq<InstView>) -> BlockView {
    BlockView { params, insts, sealed: true }
}

/// The graph of `brif_graph`: where the input is not zero it returns 4, and
/// else it counts from 10 down to 0 and returns 8.
pub open spec fn brif_view() -> GraphView {
    GraphView {
        blocks: seq![
            sealed_block(
                seq![],
                seq![
                    def(0, Operation::Input { ty: Type::I32, index: 0 }),
                    def(1, const32(10)),
                    branch(0, 1, seq![], 2, seq![Value::at(1)]),
                ],
            ),
            sealed_block(seq![], seq![def(2, const32(4)), jump(5, seq![Value::at(2)])]),
            sealed_block(
                seq![Value::at(3)],
                seq![
                    def(4, const32(1)),
                    def(
                        5,
                        Operation::Arith {
                            op: ArithOp::Sub,
                            ty: Type::I32,
                            lhs: Value::at(3),
                            rhs: Value::at(4),
                        },
                    ),
                    jump(3, seq![]),
                ],
            ),
            sealed_block(seq![], seq![branch(5, 2, seq![Value::at(5)], 4, seq![])]),
            sealed_block(seq![], seq![def(6, const32(8)), jump(5, seq![Value::at(6)])]),
            sealed_block(seq![Value::at(7)], seq![ret(7)]),
        ],
        types: Seq::new(8, |v: int| Type::I32),
        returns: seq![Type::I32],
    }
}

/// The graph of `both_graph`: a branch on the input picks the index 0 or
/// 1, and a table over that index leads to a return of 8 or of 16.
pub open spec fn both_view() -> GraphView {
    GraphView {
        blocks: seq![
            sealed_block(
                seq![],
                seq![
                    def(0, Operation::Input { ty: Type::I32, index: 0 }),
                    branch(0, 1, seq![], 2, seq![]),
                ],
            ),
            sealed_block(seq![], seq![def(1, const32(0)), jump(3, seq![Value::at(1)])]),
            sealed_block(seq![], seq![def(2, const32(1)), jump(3, seq![Value::at(2)])]),
            sealed_block(
                seq![Value::at(3)],
                seq![
                    InstView::Control {
                        term: TerminatorView::MultiBranch {
                            index: Value::at(3),
                            default_target: BlockId::at(4),
                            targets: seq![BlockId::at(5), BlockId::at(6)],
                        },
                    },
                ],
            ),
            sealed_block(seq![], seq![def(4, const32(4)), jump(7, seq![Value::at(4)])]),
            sealed_block(seq![], seq![def(5, const32(8)), jump(7, seq![Value::at(5)])]),
            sealed_block(seq![], seq![def(6, const32(16)), jump(7, seq![Value::at(6)])]),
            sealed_block(seq![Value::at(7)], seq![ret(7)]),
        ],
        types: Seq::new(8, |v: int| Type::I32),
        returns: seq![Type::I32],
    }
}

/// The graph of `br_table_graph`: a table over the input that leads to a
/// return of 8 for index 0, of 16 for index 1, and of 4 for every other.
pub open spec fn br_table_view() -> GraphView {
    GraphView {
        blocks: seq![
            sealed_block(
                seq![],
                seq![
                    def(0, Operation::Input { ty: Type::I32, index: 0 }),
                    InstView::Control {
                        term: TerminatorView::MultiBranch {
                            index: Value::at(0),
                            default_target: BlockId::at(1),
                            targets: seq![BlockId::at(2), BlockId::at(3)],
                        },
                    },
                ],
            ),
            sealed_block(seq![], seq![def(1, const32(4)), jump(4, seq![Value::at(1)])]),
            sealed_block(seq![], seq![def(2, const32(8)), jump(4, seq![Value::at(2)])]),
            sealed_block(seq![], seq![def(3, const32(16)), jump(4, seq![Value::at(3)])]),
            sealed_block(seq![Value::at(4)], seq![ret(4)]),
        ],
        types: seq![Type::I32, Type::I32, Type::I32, Type::I32, Type::I32],
        returns: seq![Type::I32],
    }
}

/// Builds the graph with a three-way table: the input selects among the
/// returns of 8 and 16, and every index outside the table returns 4.
#[verifier::rlimit(40)]
pub fn br_table_graph() -> (g: FunctionGraph)
    ensures
        g.wf(),
        g@ == br_table_view(),
{
    let mut g = FunctionGraph::new(vec![Type::I32]);
    let entry = g.entry();
    let block1 = g.create_block();
    let block2 = g.create_block();
    let block3 = g.create_block();
    let block4 = g.create_block();
    proof {
        BlockId::lemma_at(0, entry);
        BlockId::lemma_at(1, block1);
        BlockId::lemma_at(2, block2);
        BlockId::lemma_at(3, block3);
        BlockId::lemma_at(4, block4);
    }
    let c = g.emit_input(entry, Type::I32, 0).unwrap();
    let table = vec![block2, block3];
    assert(table@ =~= seq![block2, block3]);
    proof {
        let term = TerminatorView::MultiBranch { index: c, default_target: block1, targets: table@ };
        g@.lemma_accepted(entry, term.operands(), term.targets(), true);
    }
    g.emit_multi_branch(entry, c, block1, table).unwrap();
    let c4 = g.emit_constant(block1, Type::I32, 4).unwrap();
    let args = vec![c4];
    assert(args@ =~= seq![c4]);
    proof {
        let term = TerminatorView::Jump { target: block4, args: args@ };
        g@.lemma_accepted(block1, term.operands(), term.targets(), true);
    }
    g.emit_jump(block1, block4, args).unwrap();
    let c8 = g.emit_constant(block2, Type::I32, 8).unwrap();
    let args = vec![c8];
    assert(args@ =~= seq![c8]);
    proof {
        let term = TerminatorView::Jump { target: block4, args: args@ };
        g@.lemma_accepted(block2, term.operands(), term.targets(), true);
    }
    g.emit_jump(block2, block4, args).unwrap();
    let c16 = g.emit_constant(block3, Type::I32, 16).unwrap();
    let args = vec![c16];
    assert(args@ =~= seq![c16]);
    proof {
        let term = TerminatorView::Jump { target: block4, args: args@ };
        g@.lemma_accepted(block3, term.operands(), term.targets(), true);
    }
    g.emit_jump(block3, block4, args).unwrap();
    let ret_val = g.append_parameter(block4, Type::I32).unwrap();
    let values = vec![ret_val];
    assert(values@ =~= seq![ret_val]);
    proof {
        let term = TerminatorView::Return { values: values@ };
        g@.lemma_accepted(block4, term.operands(), term.targets(), true);
    }
    g.emit_return(block4, values).unwrap();
    g.seal_all();
    proof {
        Value::lemma_at(0, c);
        Value::lemma_at(1, c4);
        Value::lemma_at(2, c8);
        Value::lemma_at(3, c16);
        Value::lemma_at(4, ret_val);
        let w = br_table_view();
        assert(g@.types =~= w.types);
        assert(g@.returns =~= w.returns);
        assert(g@.blocks[0].insts =~= w.blocks[0].insts);
        assert(g@.blocks[0].params =~= w.blocks[0].params);
        assert(g@.blocks[1].insts =~= w.blocks[1].insts);
        assert(g@.blocks[1].params =~= w.blocks[1].params);
        assert(g@.blocks[2].insts =~= w.blocks[2].insts);
        assert(g@.blocks[2].params =~= w.blocks[2].params);
        assert(g@.blocks[3].insts =~= w.blocks[3].insts);
        assert(g@.blocks[3].params =~= w.blocks[3].params);
        assert(g@.blocks[4].insts =~= w.blocks[4].insts);
        assert(g@.blocks[4].params =~= w.blocks[4].params);
        assert(g@.blocks =~= w.blocks);
    }
    g
}

/// Builds the graph with an if and a loop: where the input is not zero it
/// returns 4, and else it counts from 10 down to 0 and returns 8.
#[verifier::rlimit(40)]
pub fn brif_graph() -> (g: FunctionGraph)
    ensures
        g.wf(),
        g@ == brif_view(),
{
    let mut g = FunctionGraph::new(vec![Type::I32]);
    let entry = g.entry();
    let block1 = g.create_block();
    let block2a = g.create_block();
    let block2b = g.create_block();
    let block2c = g.create_block();
    let block3 = g.create_block();
    proof {
        BlockId::lemma_at(0, entry);
        BlockId::lemma_at(1, block1);
        BlockId::lemma_at(2, block2a);
        BlockId::lemma_at(3, block2b);
        BlockId::lemma_at(4, block2c);
        BlockId::lemma_at(5, block3);
    }
    let c = g.emit_input(entry, Type::I32, 0).unwrap();
    let start = g.emit_constant(entry, Type::I32, 10).unwrap();
    let none: Vec<Value> = vec![];
    let some = vec![start];
    proof {
        assert(none@ =~= seq![]);
        assert(some@ =~= seq![start]);
        let term = TerminatorView::Branch {
            cond: c,
            then_target: block1,
            then_args: none@,
            else_target: block2a,
            else_args: some@,
        };
        g@.lemma_accepted(entry, term.operands(), term.targets(), true);
    }
    g.emit_branch(entry, c, block1, none, block2a, some).unwrap();

    let c0 = g.emit_constant(block1, Type::I32, 4).unwrap();
    let args = vec![c0];
    proof {
        assert(args@ =~= seq![c0]);
        let term = TerminatorView::Jump { target: block3, args: args@ };
        g@.lemma_accepted(block1, term.operands(), term.targets(), true);
    }
    g.emit_jump(block1, block3, args).unwrap();

    let loop_count = g.append_parameter(block2a, Type::I32).unwrap();
    let one = g.emit_constant(block2a, Type::I32, 1).unwrap();
    proof {
        let op = g@.arith(ArithOp::Sub, loop_count, one);
        g@.lemma_accepted(block2a, op.operands(), Seq::empty(), true);
    }
    let new_loop_count = g.emit_arithmetic(block2a, ArithOp::Sub, loop_count, one).unwrap();
    let args: Vec<Value> = vec![];
    proof {
        assert(args@ =~= seq![]);
        let term = TerminatorView::Jump { target: block2b, args: args@ };
        g@.lemma_accepted(block2a, term.operands(), term.targets(), true);
    }
    g.emit_jump(block2a, block2b, args).unwrap();

    let some = vec![new_loop_count];
    let none: Vec<Value> = vec![];
    proof {
        assert(none@ =~= seq![]);
        assert(some@ =~= seq![new_loop_count]);
        let term = TerminatorView::Branch {
            cond: new_loop_count,
            then_target: block2a,
            then_args: some@,
            else_target: block2c,
            else_args: none@,
        };
        g@.lemma_accepted(block2b, term.operands(), term.targets(), true);
    }
    g.emit_branch(block2b, new_loop_count, block2a, some, block2c, none).unwrap();

    let c1 = g.emit_constant(block2c, Type::I32, 8).unwrap();
    let args = vec![c1];
    proof {
        assert(args@ =~= seq![c1]);
        let term = TerminatorView::Jump { target: block3, args: args@ };
        g@.lemma_accepted(block2c, term.operands(), term.targets(), true);
    }
    g.emit_jump(block2c, block3, args).unwrap();

    let ret_val = g.append_parameter(block3, Type::I32).unwrap();
    let values = vec![ret_val];
    proof {
        assert(values@ =~= seq![ret_val]);
        let term = TerminatorView::Return { values: values@ };
        g@.lemma_accepted(block3, term.operands(), term.targets(), true);
    }
    g.emit_return(block3, values).unwrap();

    g.seal_all();
    proof {
        Value::lemma_at(0, c);
        Value::lemma_at(2, c0);
        Value::lemma_at(3, loop_count);
        Value::lemma_at(4, one);
        Value::lemma_at(5, new_loop_count);
        Value::lemma_at(6, c1);
        Value::lemma_at(7, ret_val);
        Value::lemma_at(1, start);
        let w = brif_view();
        assert(g@.types =~= w.types);
        assert(g@.returns =~= w.returns);
        assert(g@.blocks[0].insts =~= w.blocks[0].insts);
        assert(g@.blocks[0].params =~= w.blocks[0].params);
        assert(g@.blocks[1].insts =~= w.blocks[1].insts);
        assert(g@.blocks[1].params =~= w.blocks[1].params);
        assert(g@.blocks[2].insts =~= w.blocks[2].insts);
        assert(g@.blocks[2].params =~= w.blocks[2].params);
        assert(g@.blocks[3].insts =~= w.blocks[3].insts);
        assert(g@.blocks[3].params =~= w.blocks[3].params);
        assert(g@.blocks[4].insts =~= w.blocks[4].insts);
        assert(g@.blocks[4].params =~= w.blocks[4].params);
        assert(g@.blocks[5].insts =~= w.blocks[5].insts);
        assert(g@.blocks[5].params =~= w.blocks[5].params);
        assert(g@.blocks =~= w.blocks);
    }
    g
}

/// Builds the graph with a branch and a table: a branch on the input picks
/// the index 0 or 1, and a table over that index leads to a return of 8 or
/// of 16.
#[verifier::rlimit(40)]
pub fn both_graph() -> (g: FunctionGraph)
    ensures
        g.wf(),
        g@ == both_view(),
{
    let mut g = FunctionGraph::new(vec![Type::I32]);
    let entry = g.entry();
    let block1 = g.create_block();
    let block2 = g.create_block();
    let block3 = g.create_block();
    proof {
        BlockId::lemma_at(0, entry);
        BlockId::lemma_at(1, block1);
        BlockId::lemma_at(2, block2);
        BlockId::lemma_at(3, block3);
    }
    let v = g.emit_input(entry, Type::I32, 0).unwrap();
    let none: Vec<Value> = vec![];
    let nothing: Vec<Value> = vec![];
    proof {
        assert(none@ =~= seq![]);
        assert(nothing@ =~= seq![]);
        let term = TerminatorView::Branch {
            cond: v,
            then_target: block1,
            then_args: none@,
            else_target: block2,
            else_args: nothing@,
        };
        g@.lemma_accepted(entry, term.operands(), term.targets(), true);
    }
    g.emit_branch(entry, v, block1, none, block2, nothing).unwrap();

    let c0 = g.emit_constant(block1, Type::I32, 0).unwrap();
    let args = vec![c0];
    proof {
        assert(args@ =~= seq![c0]);
        let term = TerminatorView::Jump { target: block3, args: args@ };
        g@.lemma_accepted(block1, term.operands(), term.targets(), true);
    }
    g.emit_jump(block1, block3, args).unwrap();

    let c1 = g.emit_constant(block2, Type::I32, 1).unwrap();
    let args = vec![c1];
    proof {
        assert(args@ =~= seq![c1]);
        let term = TerminatorView::Jump { target: block3, args: args@ };
        g@.lemma_accepted(block2, term.operands(), term.targets(), true);
    }
    g.emit_jump(block2, block3, args).unwrap();

    let block4 = g.create_block();
    let block5 = g.create_block();
    let block6 = g.create_block();
    let block7 = g.create_block();
    proof {
        BlockId::lemma_at(4, block4);
        BlockId::lemma_at(5, block5);
        BlockId::lemma_at(6, block6);
        BlockId::lemma_at(7, block7);
    }
    let jump_idx = g.append_parameter(block3, Type::I32).unwrap();
    let table = vec![block5, block6];
    proof {
        assert(table@ =~= seq![block5, block6]);
        let term = TerminatorView::MultiBranch {
            index: jump_idx,
            default_target: block4,
            targets: table@,
        };
        g@.lemma_accepted(block3, term.operands(), term.targets(), true);
    }
    g.emit_multi_branch(block3, jump_idx, block4, table).unwrap();

    let c4 = g.emit_constant(block4, Type::I32, 4).unwrap();
    let args = vec![c4];
    proof {
        assert(args@ =~= seq![c4]);
        let term = TerminatorView::Jump { target: block7, args: args@ };
        g@.lemma_accepted(block4, term.operands(), term.targets(), true);
    }
    g.emit_jump(block4, block7, args).unwrap();

    let c8 = g.emit_constant(block5, Type::I32, 8).unwrap();
    let args = vec![c8];
    proof {
        assert(args@ =~= seq![c8]);
        let term = TerminatorView::Jump { target: block7, args: args@ };
        g@.lemma_accepted(block5, term.operands(), term.targets(), true);
    }
    g.emit_jump(block5, block7, args).unwrap();

    let c16 = g.emit_constant(block6, Type::I32, 16).unwrap();
    let args = vec![c16];
    proof {
        assert(args@ =~= seq![c16]);
        let term = TerminatorView::Jump { target: block7, args: args@ };
        g@.lemma_accepted(block6, term.operands(), term.targets(), true);
    }
    g.emit_jump(block6, block7, args).unwrap();

    let ret_val = g.append_parameter(block7, Type::I32).unwrap();
    let values = vec![ret_val];
    proof {
        assert(values@ =~= seq![ret_val]);
        let term = TerminatorView::Return { values: values@ };
        g@.lemma_accepted(block7, term.operands(), term.targets(), true);
    }
    g.emit_return(block7, values).unwrap();

    g.seal_all();
    proof {
        Value::lemma_at(0, v);
        Value::lemma_at(1, c0);
        Value::lemma_at(2, c1);
        Value::lemma_at(3, jump_idx);
        Value::lemma_at(4, c4);
        Value::lemma_at(5, c8);
        Value::lemma_at(6, c16);
        Value::lemma_at(7, ret_val);
        let w = both_view();
        assert(g@.types =~= w.types);
        assert(g@.returns =~= w.returns);
        assert(g@.blocks[0].insts =~= w.blocks[0].insts);
        assert(g@.blocks[0].params =~= w.blocks[0].params);
        assert(g@.blocks[1].insts =~= w.blocks[1].insts);
        assert(g@.blocks[1].params =~= w.blocks[1].params);
        assert(g@.blocks[2].insts =~= w.blocks[2].insts);
        assert(g@.blocks[2].params =~= w.blocks[2].params);
        assert(g@.blocks[3].insts =~= w.blocks[3].insts);
        assert(g@.blocks[3].params =~= w.blocks[3].params);
        assert(g@.blocks[4].insts =~= w.blocks[4].insts);
        assert(g@.blocks[4].params =~= w.blocks[4].params);
        assert(g@.blocks[5].insts =~= w.blocks[5].insts);
        assert(g@.blocks[5].params =~= w.blocks[5].params);
        assert(g@.blocks[6].insts =~= w.blocks[6].insts);
        assert(g@.blocks[6].params =~= w.blocks[6].params);
        assert(g@.blocks[7].insts =~= w.blocks[7].insts);
        assert(g@.blocks[7].params =~= w.blocks[7].params);
        assert(g@.blocks =~= w.blocks);
    }
    g
}

/// The handles made by `at` have the numbers they were made with.
proof fn lemma_small_ids()
    ensures
        forall|n: nat| n <= 16 ==> (#[trigger] Value::at(n)).id() == n,
        forall|n: nat| n <= 16 ==> (#[trigger] BlockId::at(n)).id() == n,
{
    assert forall|n: nat| n <= 16 implies (#[trigger] Value::at(n)).id() == n by {
        Value::lemma_at(n, Value::at(0));
    }
    assert forall|n: nat| n <= 16 implies (#[trigger] BlockId::at(n)).id() == n by {
        BlockId::lemma_at(n, BlockId::at(0));
    }
}

/// Block `b` defines value `v` as the constant `c` and jumps with it to
/// block `t`, which returns its one parameter `p`.
pub open spec fn const_arm(g: GraphView, b: nat, v: nat, c: i64, t: nat, p: nat) -> bool {
    &&& b < g.blocks.len() <= 16
    &&& t < g.blocks.len()
    &&& v < g.types.len() <= 16
    &&& p < g.types.len()
    &&& -0x8000_0000 <= c < 0x8000_0000
    &&& g.blocks[b as int].insts == seq![def(v, const32(c)), jump(t, seq![Value::at(v)])]
    &&& g.blocks[t as int].params == seq![Value::at(p)]
    &&& g.blocks[t as int].insts == seq![ret(p)]
}

/// From the start of a block that defines a constant and jumps with it to
/// a block that returns its parameter, the run returns the constant after
/// three instructions.
proof fn lemma_const_arm(
    g: GraphView,
    inputs: Seq<i64>,
    env: Env,
    b: nat,
    v: nat,
    c: i64,
    t: nat,
    p: nat,
    fuel: nat,
)
    requires
        const_arm(g, b, v, c, t, p),
        env.len() == g.types.len(),
        fuel >= 3,
    ensures
        run_from(g, inputs, (State { block: BlockId::at(b), pc: 0, env }), fuel)
            == Outcome::Returned(seq![c]),
{
    lemma_small_ids();
    reveal_with_fuel(run_from, 4);
    reveal_with_fuel(bind, 2);
    reveal_with_fuel(first_undefined, 2);
    let s0 = State { block: BlockId::at(b), pc: 0, env };
    let env1 = env.update(v as int, Some(c));
    let s1 = State { block: BlockId::at(b), pc: 1, env: env1 };
    let env2 = env1.update(p as int, Some(c));
    let s2 = State { block: BlockId::at(t), pc: 0, env: env2 };
    assert(Type::I32.wrap(c as int) == c);
    assert(step(g, inputs, s0) == Step::Next(s1));
    let args = seq![Value::at(v)];
    assert(read(env1, args[0]) == Some(c));
    assert(first_undefined(env1, args, 0) is None);
    assert(read_all(env1, args) =~= seq![c]);
    let params = seq![Value::at(p)];
    assert(params.drop_last() =~= Seq::<Value>::empty());
    assert(bind(env1, params, seq![c]) == env2);
    assert(step(g, inputs, s1) == Step::Next(s2));
    let values = seq![Value::at(p)];
    assert(read(env2, values[0]) == Some(c));
    assert(first_undefined(env2, values, 0) is None);
    assert(read_all(env2, values) =~= seq![c]);
    assert(step(g, inputs, s2) == Step::Done(seq![c]));
}

/// What the table graph returns for the index it is given.
pub open spec fn br_table_result(index: i64) -> i64 {
    if index == 0 {
        8
    } else if index == 1 {
        16
    } else {
        4
    }
}

/// The table graph is valid.
pub proof fn lemma_br_table_valid()
    ensures
        valid(br_table_view()),
{
    let g = br_table_view();
    lemma_small_ids();
    lemma_entry_reachable(g);
    assert(points_to(g, 0, 1, 0, 1));
    lemma_step_reachable(g, 0, 1);
    assert(points_to(g, 0, 1, 1, 2));
    lemma_step_reachable(g, 0, 2);
    assert(points_to(g, 0, 1, 2, 3));
    lemma_step_reachable(g, 0, 3);
    assert(points_to(g, 1, 1, 0, 4));
    lemma_step_reachable(g, 1, 4);
    assert forall|b: int| 0 <= b < g.blocks.len() implies #[trigger] block_valid(g, b) by {
        let insts = g.blocks[b].insts;
        assert forall|i: int| 0 <= i < insts.len() implies inst_valid(g, #[trigger] insts[i]) by {
            let inst = insts[i];
            assert forall|k: int| 0 <= k < inst.edges().len() implies edge_valid(
                g,
                #[trigger] inst.edges()[k],
            ) by {
                let e = inst.edges()[k];
                assert(e.target.id() == 1 || e.target.id() == 2 || e.target.id() == 3
                    || e.target.id() == 4);
            }
        }
    }
}

/// The table graph returns 8 for index 0, 16 for index 1 and 4 for every
/// other, within five instructions.
pub proof fn lemma_br_table_runs(x: i64, fuel: nat)
    requires
        fuel >= 5,
    ensures
        outcome(br_table_view(), seq![x], fuel) == Outcome::Returned(
            seq![br_table_result(Type::I32.wrap(x as int))],
        ),
{
    let g = br_table_view();
    let inputs = seq![x];
    let index = Type::I32.wrap(x as int);
    lemma_small_ids();
    reveal_with_fuel(run_from, 3);
    reveal_with_fuel(bind, 1);
    reveal_with_fuel(first_undefined, 1);
    let s0 = initial(g);
    let env1 = s0.env.update(0, Some(index));
    let s1 = State { block: BlockId::at(0), pc: 1, env: env1 };
    assert(step(g, inputs, s0) == Step::Next(s1));
    let arm: nat = if index == 0 {
        2
    } else if index == 1 {
        3
    } else {
        1
    };
    let s2 = State { block: BlockId::at(arm), pc: 0, env: env1 };
    assert(read(env1, Value::at(0)) == Some(index));
    let term = g.blocks[0].insts[1]->term;
    let k = selected(2, index);
    assert(term.edges()[k].target == BlockId::at(arm));
    assert(term.edges()[k].args =~= Seq::<Value>::empty());
    assert(g.blocks[arm as int].params =~= Seq::<Value>::empty());
    assert(read_all(env1, Seq::<Value>::empty()) =~= Seq::<i64>::empty());
    assert(step(g, inputs, s1) == Step::Next(s2));
    assert(const_arm(g, arm, arm, br_table_result(index), 4, 4));
    lemma_const_arm(g, inputs, env1, arm, arm, br_table_result(index), 4, 4, (fuel - 2) as nat);
}

/// Runs the table graph on `v` through the interpreter.
pub fn br_table(v: i32) -> (r: i32)
    ensures
        r == br_table_result(v as i64),
{
    let g = br_table_graph();
    let inputs = vec![v as i64];
    proof {
        assert(inputs@ =~= seq![v as i64]);
        lemma_br_table_valid();
        lemma_no_violation_iff_valid(g@);
        lemma_br_table_runs(v as i64, 5);
        assert(Type::I32.wrap(v as int) == v);
    }
    match validate(g) {
        Ok(checked) => match run(&checked, &inputs, 5) {
            Ok(values) => values[0] as i32,
            Err(_) => vstd::pervasive::unreached(),
        },
        Err(_) => vstd::pervasive::unreached(),
    }
}

/// What the if-and-loop graph returns for the condition it is given.
pub open spec fn brif_result(cond: i64) -> i64 {
    if cond != 0 {
        4
    } else {
        8
    }
}

/// The if-and-loop graph is valid.
pub proof fn lemma_brif_valid()
    ensures
        valid(brif_view()),
{
    let g = brif_view();
    lemma_small_ids();
    lemma_entry_reachable(g);
    assert(points_to(g, 0, 2, 0, 1));
    lemma_step_reachable(g, 0, 1);
    assert(points_to(g, 0, 2, 1, 2));
    lemma_step_reachable(g, 0, 2);
    assert(points_to(g, 2, 2, 0, 3));
    lemma_step_reachable(g, 2, 3);
    assert(points_to(g, 3, 0, 1, 4));
    lemma_step_reachable(g, 3, 4);
    assert(points_to(g, 1, 1, 0, 5));
    lemma_step_reachable(g, 1, 5);
    assert forall|b: int| 0 <= b < g.blocks.len() implies #[trigger] block_valid(g, b) by {
        let insts = g.blocks[b].insts;
        assert forall|i: int| 0 <= i < insts.len() implies inst_valid(g, #[trigger] insts[i]) by {
            let inst = insts[i];
            assert forall|k: int| 0 <= k < inst.edges().len() implies edge_valid(
                g,
                #[trigger] inst.edges()[k],
            ) by {
                let e = inst.edges()[k];
                assert(e.target.id() == 1 || e.target.id() == 2 || e.target.id() == 3
                    || e.target.id() == 4 || e.target.id() == 5);
            }
        }
    }
}

/// From the start of the loop with the count `n`, the if-and-loop graph
/// goes round `n` times and returns 8.
proof fn lemma_brif_loop(inputs: Seq<i64>, env: Env, n: i64, fuel: nat)
    requires
        env.len() == 8,
        env[3] == Some(n),
        1 <= n <= 10,
        fuel >= 4 * n + 3,
    ensures
        run_from(brif_view(), inputs, (State { block: BlockId::at(2), pc: 0, env }), fuel)
            == Outcome::Returned(seq![8]),
    decreases n,
{
    let g = brif_view();
    lemma_small_ids();
    reveal_with_fuel(run_from, 5);
    reveal_with_fuel(bind, 2);
    reveal_with_fuel(first_undefined, 2);
    let less = (n - 1) as i64;
    let s0 = State { block: BlockId::at(2), pc: 0, env };
    let env1 = env.update(4, Some(1i64));
    let s1 = State { block: BlockId::at(2), pc: 1, env: env1 };
    let env2 = env1.update(5, Some(less));
    let s2 = State { block: BlockId::at(2), pc: 2, env: env2 };
    let s3 = State { block: BlockId::at(3), pc: 0, env: env2 };
    assert(Type::I32.wrap(1) == 1);
    assert(step(g, inputs, s0) == Step::Next(s1));
    assert(read(env1, Value::at(3)) == Some(n));
    assert(read(env1, Value::at(4)) == Some(1i64));
    assert(Type::I32.wrap(n - 1) == less);
    assert(step(g, inputs, s1) == Step::Next(s2));
    assert(g.blocks[3].params =~= Seq::<Value>::empty());
    assert(read_all(env2, Seq::<Value>::empty()) =~= Seq::<i64>::empty());
    assert(step(g, inputs, s2) == Step::Next(s3));
    assert(read(env2, Value::at(5)) == Some(less));
    if less != 0 {
        let env3 = env2.update(3, Some(less));
        let s4 = State { block: BlockId::at(2), pc: 0, env: env3 };
        let args = seq![Value::at(5)];
        assert(read(env2, args[0]) == Some(less));
        assert(first_undefined(env2, args, 0) is None);
        assert(read_all(env2, args) =~= seq![less]);
        let params = seq![Value::at(3)];
        assert(params.drop_last() =~= Seq::<Value>::empty());
        assert(bind(env2, params, seq![less]) == env3);
        assert(step(g, inputs, s3) == Step::Next(s4));
        lemma_brif_loop(inputs, env3, less, (fuel - 4) as nat);
    } else {
        let s4 = State { block: BlockId::at(4), pc: 0, env: env2 };
        assert(g.blocks[4].params =~= Seq::<Value>::empty());
        assert(step(g, inputs, s3) == Step::Next(s4));
        assert(const_arm(g, 4, 6, 8, 5, 7));
        lemma_const_arm(g, inputs, env2, 4, 6, 8, 5, 7, (fuel - 4) as nat);
    }
}

/// The if-and-loop graph returns 4 where the input is not zero and 8 where
/// it is, within 46 instructions.
pub proof fn lemma_brif_runs(x: i64, fuel: nat)
    requires
        fuel >= 46,
    ensures
        outcome(brif_view(), seq![x], fuel) == Outcome::Returned(
            seq![brif_result(Type::I32.wrap(x as int))],
        ),
{
    let g = brif_view();
    let inputs = seq![x];
    let cond = Type::I32.wrap(x as int);
    lemma_small_ids();
    reveal_with_fuel(run_from, 4);
    reveal_with_fuel(bind, 2);
    reveal_with_fuel(first_undefined, 2);
    let s0 = initial(g);
    let env1 = s0.env.update(0, Some(cond));
    let s1 = State { block: BlockId::at(0), pc: 1, env: env1 };
    let env2 = env1.update(1, Some(10i64));
    let s2 = State { block: BlockId::at(0), pc: 2, env: env2 };
    assert(step(g, inputs, s0) == Step::Next(s1));
    assert(Type::I32.wrap(10) == 10);
    assert(step(g, inputs, s1) == Step::Next(s2));
    assert(read(env2, Value::at(0)) == Some(cond));
    if cond != 0 {
        let s3 = State { block: BlockId::at(1), pc: 0, env: env2 };
        assert(g.blocks[1].params =~= Seq::<Value>::empty());
        assert(read_all(env2, Seq::<Value>::empty()) =~= Seq::<i64>::empty());
        assert(step(g, inputs, s2) == Step::Next(s3));
        assert(const_arm(g, 1, 2, 4, 5, 7));
        lemma_const_arm(g, inputs, env2, 1, 2, 4, 5, 7, (fuel - 3) as nat);
    } else {
        let env3 = env2.update(3, Some(10i64));
        let s3 = State { block: BlockId::at(2), pc: 0, env: env3 };
        let args = seq![Value::at(1)];
        assert(read(env2, args[0]) == Some(10i64));
        assert(first_undefined(env2, args, 0) is None);
        assert(read_all(env2, args) =~= seq![10i64]);
        let params = seq![Value::at(3)];
        assert(params.drop_last() =~= Seq::<Value>::empty());
        assert(bind(env2, params, seq![10i64]) == env3);
        assert(step(g, inputs, s2) == Step::Next(s3));
        lemma_brif_loop(inputs, env3, 10, (fuel - 3) as nat);
    }
}

/// Runs the if-and-loop graph on `v` through the interpreter.
pub fn brif(v: i32) -> (r: i32)
    ensures
        r == brif_result(v as i64),
{
    let g = brif_graph();
    let inputs = vec![v as i64];
    proof {
        assert(inputs@ =~= seq![v as i64]);
        lemma_brif_valid();
        lemma_no_violation_iff_valid(g@);
        lemma_brif_runs(v as i64, 46);
        assert(Type::I32.wrap(v as int) == v);
    }
    match validate(g) {
        Ok(checked) => match run(&checked, &inputs, 46) {
            Ok(values) => values[0] as i32,
            Err(_) => vstd::pervasive::unreached(),
        },
        Err(_) => vstd::pervasive::unreached(),
    }
}

/// What the branch-and-table graph returns for the condition it is given.
pub open spec fn both_result(cond: i64) -> i64 {
    if cond != 0 {
        8
    } else {
        16
    }
}

/// The branch-and-table graph is valid.
pub proof fn lemma_both_valid()
    ensures
        valid(both_view()),
{
    let g = both_view();
    lemma_small_ids();
    lemma_entry_reachable(g);
    assert(points_to(g, 0, 1, 0, 1));
    lemma_step_reachable(g, 0, 1);
    assert(points_to(g, 0, 1, 1, 2));
    lemma_step_reachable(g, 0, 2);
    assert(points_to(g, 1, 1, 0, 3));
    lemma_step_reachable(g, 1, 3);
    assert(points_to(g, 3, 0, 0, 4));
    lemma_step_reachable(g, 3, 4);
    assert(points_to(g, 3, 0, 1, 5));
    lemma_step_reachable(g, 3, 5);
    assert(points_to(g, 3, 0, 2, 6));
    lemma_step_reachable(g, 3, 6);
    assert(points_to(g, 4, 1, 0, 7));
    lemma_step_reachable(g, 4, 7);
    assert forall|b: int| 0 <= b < g.blocks.len() implies #[trigger] block_valid(g, b) by {
        let insts = g.blocks[b].insts;
        assert forall|i: int| 0 <= i < insts.len() implies inst_valid(g, #[trigger] insts[i]) by {
            let inst = insts[i];
            assert forall|k: int| 0 <= k < inst.edges().len() implies edge_valid(
                g,
                #[trigger] inst.edges()[k],
            ) by {
                let e = inst.edges()[k];
                assert(e.target.id() == 1 || e.target.id() == 2 || e.target.id() == 3
                    || e.target.id() == 4 || e.target.id() == 5 || e.target.id() == 6
                    || e.target.id() == 7);
            }
        }
    }
}

/// The branch-and-table graph returns 8 where the input is not zero and 16
/// where it is, within eight instructions.
pub proof fn lemma_both_runs(x: i64, fuel: nat)
    requires
        fuel >= 8,
    ensures
        outcome(both_view(), seq![x], fuel) == Outcome::Returned(
            seq![both_result(Type::I32.wrap(x as int))],
        ),
{
    let g = both_view();
    let inputs = seq![x];
    let cond = Type::I32.wrap(x as int);
    lemma_small_ids();
    reveal_with_fuel(run_from, 6);
    reveal_with_fuel(bind, 2);
    reveal_with_fuel(first_undefined, 2);
    let s0 = initial(g);
    let env1 = s0.env.update(0, Some(cond));
    let s1 = State { block: BlockId::at(0), pc: 1, env: env1 };
    assert(step(g, inputs, s0) == Step::Next(s1));
    assert(read(env1, Value::at(0)) == Some(cond));
    // The block that makes the index, the value it defines, and the index.
    let (via, v, index): (nat, nat, i64) = if cond != 0 {
        (1, 1, 0)
    } else {
        (2, 2, 1)
    };
    let arm: nat = if cond != 0 {
        5
    } else {
        6
    };
    let s2 = State { block: BlockId::at(via), pc: 0, env: env1 };
    assert(g.blocks[via as int].params =~= Seq::<Value>::empty());
    assert(read_all(env1, Seq::<Value>::empty()) =~= Seq::<i64>::empty());
    assert(step(g, inputs, s1) == Step::Next(s2));
    let env2 = env1.update(v as int, Some(index));
    let s3 = State { block: BlockId::at(via), pc: 1, env: env2 };
    assert(Type::I32.wrap(index as int) == index);
    assert(step(g, inputs, s2) == Step::Next(s3));
    let env3 = env2.update(3, Some(index));
    let s4 = State { block: BlockId::at(3), pc: 0, env: env3 };
    let args = seq![Value::at(v)];
    assert(read(env2, args[0]) == Some(index));
    assert(first_undefined(env2, args, 0) is None);
    assert(read_all(env2, args) =~= seq![index]);
    let params = seq![Value::at(3)];
    assert(params.drop_last() =~= Seq::<Value>::empty());
    assert(bind(env2, params, seq![index]) == env3);
    assert(step(g, inputs, s3) == Step::Next(s4));
    let s5 = State { block: BlockId::at(arm), pc: 0, env: env3 };
    assert(read(env3, Value::at(3)) == Some(index));
    let term = g.blocks[3].insts[0]->term;
    let k = selected(2, index);
    assert(term.edges()[k].target == BlockId::at(arm));
    assert(term.edges()[k].args =~= Seq::<Value>::empty());
    assert(g.blocks[arm as int].params =~= Seq::<Value>::empty());
    assert(step(g, inputs, s4) == Step::Next(s5));
    assert(const_arm(g, arm, arm, both_result(cond), 7, 7));
    lemma_const_arm(g, inputs, env3, arm, arm, both_result(cond), 7, 7, (fuel - 5) as nat);
}

/// Runs the branch-and-table graph on `v` through the interpreter.
pub fn both(v: i32) -> (r: i32)
    ensures
        r == both_result(v as i64),
{
    let g = both_graph();
    let inputs = vec![v as i64];
    proof {
        assert(inputs@ =~= seq![v as i64]);
        lemma_both_valid();
        lemma_no_violation_iff_valid(g@);
        lemma_both_runs(v as i64, 8);
        assert(Type::I32.wrap(v as int) == v);
    }
    match validate(g) {
        Ok(checked) => match run(&checked, &inputs, 8) {
            Ok(values) => values[0] as i32,
            Err(_) => vstd::pervasive::unreached(),
        },
        Err(_) => vstd::pervasive::unreached(),
    }
}

} // verus!
