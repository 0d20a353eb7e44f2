use vstd::prelude::*;

use crate::graph::GraphView;
use crate::inst::{EdgeView, InstView, TerminatorView};
use crate::reach::reachable;
use crate::seqs::lemma_concat_empty;
use crate::validate::{
    argument_at, early_at, edge_at, edges_in_block, edges_in_inst, missing_at, return_at,
    returned_at, returns_in_block, target_at, targets_in_block, targets_in_inst, termination_at,
    unreachable_at, unsealed_at, violations,
};

verus! {

/// The edge leads to a block of the graph and hands it one argument of the
/// right type for each parameter.
pub open spec fn edge_valid(g: GraphView, e: EdgeView) -> bool {
    &&& g.has_block(e.target)
    &&& e.args.len() == g.block(e.target).params.len()
    &&& forall|p: int|
        0 <= p < e.args.len() ==> g.type_of(#[trigger] e.args[p]) == g.type_of(
            g.block(e.target).params[p],
        )
}

/// The values of a return are as many as declared, each of its declared
/// type.
pub open spec fn return_valid(g: GraphView, values: Seq<crate::types::Value>) -> bool {
    &&& values.len() == g.returns.len()
    &&& forall|p: int| 0 <= p < values.len() ==> g.type_of(#[trigger] values[p]) == g.returns[p]
}

/// Each edge of the instruction is valid, and so is the instruction where it
/// is a return.
pub open spec fn inst_valid(g: GraphView, inst: InstView) -> bool {
    &&& forall|k: int| 0 <= k < inst.edges().len() ==> edge_valid(g, #[trigger] inst.edges()[k])
    &&& inst matches InstView::Control { term: TerminatorView::Return { values } } ==> return_valid(
        g,
        values,
    )
}

/// Block `b` is sealed and reachable, its last instruction is its one
/// terminator, and each of its instructions is valid.
pub open spec fn block_valid(g: GraphView, b: int) -> bool {
    let insts = g.blocks[b].insts;
    &&& g.blocks[b].sealed
    &&& insts.len() > 0
    &&& forall|i: int|
        0 <= i < insts.len() ==> ((#[trigger] insts[i]).is_terminator() <==> i == insts.len() - 1)
    &&& reachable(g, b)
    &&& forall|i: int| 0 <= i < insts.len() ==> inst_valid(g, #[trigger] insts[i])
}

/// What validation asks of a graph: every block is valid and the entry has
/// no parameter.
pub open spec fn valid(g: GraphView) -> bool {
    &&& forall|b: int| 0 <= b < g.blocks.len() ==> #[trigger] block_valid(g, b)
    &&& g.blocks[0].params.len() == 0
}

proof fn lemma_edge(g: GraphView, b: int, i: int, k: int)
    requires
        0 <= b < g.blocks.len(),
        0 <= i < g.blocks[b].insts.len(),
        0 <= k < g.blocks[b].insts[i].edges().len(),
    ensures
        target_at(g, b, i, k).len() == 0 && edge_at(g, b, i, k).len() == 0 <==> edge_valid(
            g,
            g.blocks[b].insts[i].edges()[k],
        ),
{
    let e = g.blocks[b].insts[i].edges()[k];
    if g.has_block(e.target) && e.args.len() == g.block(e.target).params.len() {
        let f = |p: int| argument_at(g, b, i, k, p);
        lemma_concat_empty(e.args.len(), f);
        if edge_at(g, b, i, k).len() == 0 {
            assert forall|p: int| 0 <= p < e.args.len() implies g.type_of(#[trigger] e.args[p])
                == g.type_of(g.block(e.target).params[p]) by {
                assert(f(p).len() == 0);
            }
        }
        if edge_valid(g, e) {
            assert forall|p: int| 0 <= p < e.args.len() implies (#[trigger] f(p)).len() == 0 by {
                assert(g.type_of(e.args[p]) == g.type_of(g.block(e.target).params[p]));
            }
        }
    }
}

proof fn lemma_return(g: GraphView, b: int, i: int)
    requires
        0 <= b < g.blocks.len(),
        0 <= i < g.blocks[b].insts.len(),
    ensures
        return_at(g, b, i).len() == 0 <==> (g.blocks[b].insts[i] matches InstView::Control {
            term: TerminatorView::Return { values },
        } ==> return_valid(g, values)),
{
    match g.blocks[b].insts[i] {
        InstView::Control { term: TerminatorView::Return { values } } => {
            if values.len() == g.returns.len() {
                let f = |p: int| returned_at(g, b, i, p);
                lemma_concat_empty(values.len(), f);
                if return_at(g, b, i).len() == 0 {
                    assert forall|p: int| 0 <= p < values.len() implies g.type_of(#[trigger] values[p])
                        == g.returns[p] by {
                        assert(f(p).len() == 0);
                    }
                }
                if return_valid(g, values) {
                    assert forall|p: int| 0 <= p < values.len() implies (#[trigger] f(p)).len()
                        == 0 by {
                        assert(g.type_of(values[p]) == g.returns[p]);
                    }
                }
            }
        },
        _ => {},
    }
}

proof fn lemma_inst(g: GraphView, b: int, i: int)
    requires
        0 <= b < g.blocks.len(),
        0 <= i < g.blocks[b].insts.len(),
    ensures
        targets_in_inst(g, b, i).len() == 0 && edges_in_inst(g, b, i).len() == 0 && return_at(
            g,
            b,
            i,
        ).len() == 0 <==> inst_valid(g, g.blocks[b].insts[i]),
{
    let inst = g.blocks[b].insts[i];
    let ft = |k: int| target_at(g, b, i, k);
    let fe = |k: int| edge_at(g, b, i, k);
    lemma_concat_empty(inst.edges().len(), ft);
    lemma_concat_empty(inst.edges().len(), fe);
    lemma_return(g, b, i);
    if targets_in_inst(g, b, i).len() == 0 && edges_in_inst(g, b, i).len() == 0 {
        assert forall|k: int| 0 <= k < inst.edges().len() implies edge_valid(
            g,
            #[trigger] inst.edges()[k],
        ) by {
            assert(ft(k).len() == 0 && fe(k).len() == 0);
            lemma_edge(g, b, i, k);
        }
    }
    if inst_valid(g, inst) {
        assert forall|k: int| 0 <= k < inst.edges().len() implies (#[trigger] ft(k)).len() == 0 by {
            assert(edge_valid(g, inst.edges()[k]));
            lemma_edge(g, b, i, k);
        }
        assert forall|k: int| 0 <= k < inst.edges().len() implies (#[trigger] fe(k)).len() == 0 by {
            assert(edge_valid(g, inst.edges()[k]));
            lemma_edge(g, b, i, k);
        }
    }
}

proof fn lemma_block(g: GraphView, b: int)
    requires
        0 <= b < g.blocks.len(),
    ensures
        unsealed_at(g, b).len() == 0 && termination_at(g, b).len() == 0 && targets_in_block(
            g,
            b,
        ).len() == 0 && edges_in_block(g, b).len() == 0 && unreachable_at(g, b).len() == 0
            && returns_in_block(g, b).len() == 0 <==> block_valid(g, b),
{
    let insts = g.blocks[b].insts;
    let fy = |i: int| early_at(g, b, i);
    let ft = |i: int| targets_in_inst(g, b, i);
    let fe = |i: int| edges_in_inst(g, b, i);
    let fr = |i: int| return_at(g, b, i);
    lemma_concat_empty(insts.len(), fy);
    lemma_concat_empty(insts.len(), ft);
    lemma_concat_empty(insts.len(), fe);
    lemma_concat_empty(insts.len(), fr);
    if unsealed_at(g, b).len() == 0 && termination_at(g, b).len() == 0 && targets_in_block(
        g,
        b,
    ).len() == 0 && edges_in_block(g, b).len() == 0 && unreachable_at(g, b).len() == 0
        && returns_in_block(g, b).len() == 0 {
        assert(missing_at(g, b).len() == 0);
        assert(insts.len() > 0 && insts.last().is_terminator());
        assert forall|i: int| 0 <= i < insts.len() implies ((#[trigger] insts[i]).is_terminator() <==> i
            == insts.len() - 1) by {
            assert(fy(i).len() == 0);
        }
        assert forall|i: int| 0 <= i < insts.len() implies inst_valid(g, #[trigger] insts[i]) by {
            assert(ft(i).len() == 0 && fe(i).len() == 0 && fr(i).len() == 0);
            lemma_inst(g, b, i);
        }
    }
    if block_valid(g, b) {
        assert forall|i: int| 0 <= i < insts.len() implies (#[trigger] fy(i)).len() == 0 by {
            assert(insts[i].is_terminator() <==> i == insts.len() - 1);
        }
        assert forall|i: int| 0 <= i < insts.len() implies (#[trigger] ft(i)).len() == 0 by {
            assert(inst_valid(g, insts[i]));
            lemma_inst(g, b, i);
        }
        assert forall|i: int| 0 <= i < insts.len() implies (#[trigger] fe(i)).len() == 0 by {
            assert(inst_valid(g, insts[i]));
            lemma_inst(g, b, i);
        }
        assert forall|i: int| 0 <= i < insts.len() implies (#[trigger] fr(i)).len() == 0 by {
            assert(inst_valid(g, insts[i]));
            lemma_inst(g, b, i);
        }
        assert(insts[insts.len() - 1].is_terminator());
    }
}

/// Validation finds no defect exactly in the valid graphs.
pub proof fn lemma_no_violation_iff_valid(g: GraphView)
    ensures
        violations(g).len() == 0 <==> valid(g),
{
    let n = g.blocks.len();
    let f1 = |b: int| unsealed_at(g, b);
    let f2 = |b: int| termination_at(g, b);
    let f3 = |b: int| targets_in_block(g, b);
    let f4 = |b: int| edges_in_block(g, b);
    let f6 = |b: int| unreachable_at(g, b);
    let f7 = |b: int| returns_in_block(g, b);
    lemma_concat_empty(n, f1);
    lemma_concat_empty(n, f2);
    lemma_concat_empty(n, f3);
    lemma_concat_empty(n, f4);
    lemma_concat_empty(n, f6);
    lemma_concat_empty(n, f7);
    if violations(g).len() == 0 {
        assert forall|b: int| 0 <= b < n implies #[trigger] block_valid(g, b) by {
            assert(f1(b).len() == 0 && f2(b).len() == 0 && f3(b).len() == 0 && f4(b).len() == 0
                && f6(b).len() == 0 && f7(b).len() == 0);
            lemma_block(g, b);
        }
    }
    if valid(g) {
        assert forall|b: int| 0 <= b < n implies (#[trigger] f1(b)).len() == 0 by {
            assert(block_valid(g, b));
            lemma_block(g, b);
        }
        assert forall|b: int| 0 <= b < n implies (#[trigger] f2(b)).len() == 0 by {
            assert(block_valid(g, b));
            lemma_block(g, b);
        }
        assert forall|b: int| 0 <= b < n implies (#[trigger] f3(b)).len() == 0 by {
            assert(block_valid(g, b));
            lemma_block(g, b);
        }
        assert forall|b: int| 0 <= b < n implies (#[trigger] f4(b)).len() == 0 by {
            assert(block_valid(g, b));
            lemma_block(g, b);
        }
        assert forall|b: int| 0 <= b < n implies (#[trigger] f6(b)).len() == 0 by {
            assert(block_valid(g, b));
            lemma_block(g, b);
        }
        assert forall|b: int| 0 <= b < n implies (#[trigger] f7(b)).len() == 0 by {
            assert(block_valid(g, b));
            lemma_block(g, b);
        }
    }
}

} // verus!
