use vstd::prelude::*;

use crate::error::StructuralError;
use crate::graph::{FunctionGraph, GraphView};
use crate::inst::{InstView, Instruction, Terminator, TerminatorView};
use crate::reach::{reachable, reachable_blocks};
use crate::seqs::concat_upto;
use crate::types::BlockId;

verus! {

/// The defect of block `b` being unsealed, if it is.
pub open spec fn unsealed_at(g: GraphView, b: int) -> Seq<StructuralError> {
    if !g.blocks[b].sealed {
        seq![StructuralError::Unsealed { block: BlockId::at(b as nat) }]
    } else {
        Seq::empty()
    }
}

/// The unsealed blocks, in order.
pub open spec fn unsealed_blocks(g: GraphView) -> Seq<StructuralError> {
    concat_upto(g.blocks.len(), |b: int| unsealed_at(g, b))
}

/// The defect of the instruction at `i` of block `b` being a terminator
/// before the end of the block, if it is one.
pub open spec fn early_at(g: GraphView, b: int, i: int) -> Seq<StructuralError> {
    if g.blocks[b].insts[i].is_terminator() && i + 1 < g.blocks[b].insts.len() {
        seq![StructuralError::EarlyTerminator { block: BlockId::at(b as nat), inst: i as usize }]
    } else {
        Seq::empty()
    }
}

/// The defect of block `b` not ending in a terminator, if it does not.
pub open spec fn missing_at(g: GraphView, b: int) -> Seq<StructuralError> {
    if g.blocks[b].insts.len() == 0 || !g.blocks[b].insts.last().is_terminator() {
        seq![StructuralError::MissingTerminator { block: BlockId::at(b as nat) }]
    } else {
        Seq::empty()
    }
}

/// The defects in how block `b` ends: its early terminators in order, then
/// the missing one.
pub open spec fn termination_at(g: GraphView, b: int) -> Seq<StructuralError> {
    concat_upto(g.blocks[b].insts.len(), |i: int| early_at(g, b, i)) + missing_at(g, b)
}

/// The defects in how the blocks end, block by block.
pub open spec fn termination(g: GraphView) -> Seq<StructuralError> {
    concat_upto(g.blocks.len(), |b: int| termination_at(g, b))
}

/// The defect of the edge at `k` of the instruction at `i` of block `b`
/// leading to no block of the graph, if it does so.
pub open spec fn target_at(g: GraphView, b: int, i: int, k: int) -> Seq<StructuralError> {
    let target = g.blocks[b].insts[i].edges()[k].target;
    if !g.has_block(target) {
        seq![
            StructuralError::UnknownTarget { block: BlockId::at(b as nat), inst: i as usize, target },
        ]
    } else {
        Seq::empty()
    }
}

/// The unknown targets of the instruction at `i` of block `b`, edge by edge.
pub open spec fn targets_in_inst(g: GraphView, b: int, i: int) -> Seq<StructuralError> {
    concat_upto(g.blocks[b].insts[i].edges().len(), |k: int| target_at(g, b, i, k))
}

/// The unknown targets of block `b`, instruction by instruction.
pub open spec fn targets_in_block(g: GraphView, b: int) -> Seq<StructuralError> {
    concat_upto(g.blocks[b].insts.len(), |i: int| targets_in_inst(g, b, i))
}

/// The unknown targets, block by block.
pub open spec fn unknown_targets(g: GraphView) -> Seq<StructuralError> {
    concat_upto(g.blocks.len(), |b: int| targets_in_block(g, b))
}

/// The defect of the argument at `p` of an edge having another type than
/// the parameter at `p` of the edge's target, if it has.
pub open spec fn argument_at(g: GraphView, b: int, i: int, k: int, p: int) -> Seq<StructuralError> {
    let e = g.blocks[b].insts[i].edges()[k];
    if g.type_of(e.args[p]) != g.type_of(g.block(e.target).params[p]) {
        seq![
            StructuralError::TypeMismatch {
                block: BlockId::at(b as nat),
                inst: i as usize,
                target: e.target,
                position: p as usize,
            },
        ]
    } else {
        Seq::empty()
    }
}

/// The defects of the edge at `k` of the instruction at `i` of block `b`
/// against the parameters of its target: nothing where the target is
/// unknown, else the arity where it differs, else the mistyped arguments in
/// order.
pub open spec fn edge_at(g: GraphView, b: int, i: int, k: int) -> Seq<StructuralError> {
    let e = g.blocks[b].insts[i].edges()[k];
    if !g.has_block(e.target) {
        Seq::empty()
    } else if e.args.len() != g.block(e.target).params.len() {
        seq![
            StructuralError::ArityMismatch {
                block: BlockId::at(b as nat),
                inst: i as usize,
                target: e.target,
                expected: g.block(e.target).params.len() as usize,
                found: e.args.len() as usize,
            },
        ]
    } else {
        concat_upto(e.args.len(), |p: int| argument_at(g, b, i, k, p))
    }
}

/// The edge defects of the instruction at `i` of block `b`, edge by edge.
pub open spec fn edges_in_inst(g: GraphView, b: int, i: int) -> Seq<StructuralError> {
    concat_upto(g.blocks[b].insts[i].edges().len(), |k: int| edge_at(g, b, i, k))
}

/// The edge defects of block `b`, instruction by instruction.
pub open spec fn edges_in_block(g: GraphView, b: int) -> Seq<StructuralError> {
    concat_upto(g.blocks[b].insts.len(), |i: int| edges_in_inst(g, b, i))
}

/// The edge defects, block by block.
pub open spec fn edge_mismatches(g: GraphView) -> Seq<StructuralError> {
    concat_upto(g.blocks.len(), |b: int| edges_in_block(g, b))
}

/// The defect of the entry block having parameters, if it has.
pub open spec fn entry_parameters(g: GraphView) -> Seq<StructuralError> {
    if g.blocks[0].params.len() > 0 {
        seq![StructuralError::EntryHasParameters { count: g.blocks[0].params.len() as usize }]
    } else {
        Seq::empty()
    }
}

/// The defect of block `b` being unreachable, if it is.
pub open spec fn unreachable_at(g: GraphView, b: int) -> Seq<StructuralError> {
    if !reachable(g, b) {
        seq![StructuralError::Unreachable { block: BlockId::at(b as nat) }]
    } else {
        Seq::empty()
    }
}

/// The unreachable blocks, in order.
pub open spec fn unreachable_blocks(g: GraphView) -> Seq<StructuralError> {
    concat_upto(g.blocks.len(), |b: int| unreachable_at(g, b))
}

/// The defect of the value at `p` of the return at `i` of block `b` having
/// another type than declared, if it has.
pub open spec fn returned_at(g: GraphView, b: int, i: int, p: int) -> Seq<StructuralError> {
    match g.blocks[b].insts[i] {
        InstView::Control { term: TerminatorView::Return { values } } => {
            if g.type_of(values[p]) != g.returns[p] {
                seq![
                    StructuralError::ReturnType {
                        block: BlockId::at(b as nat),
                        inst: i as usize,
                        position: p as usize,
                    },
                ]
            } else {
                Seq::empty()
            }
        },
        _ => Seq::empty(),
    }
}

/// The defects of the instruction at `i` of block `b` against the declared
/// return types: nothing where it is no return, else the arity where it
/// differs, else the mistyped values in order.
pub open spec fn return_at(g: GraphView, b: int, i: int) -> Seq<StructuralError> {
    match g.blocks[b].insts[i] {
        InstView::Control { term: TerminatorView::Return { values } } => {
            if values.len() != g.returns.len() {
                seq![
                    StructuralError::ReturnArity {
                        block: BlockId::at(b as nat),
                        inst: i as usize,
                        expected: g.returns.len() as usize,
                        found: values.len() as usize,
                    },
                ]
            } else {
                concat_upto(values.len(), |p: int| returned_at(g, b, i, p))
            }
        },
        _ => Seq::empty(),
    }
}

/// The return defects of block `b`, instruction by instruction.
pub open spec fn returns_in_block(g: GraphView, b: int) -> Seq<StructuralError> {
    concat_upto(g.blocks[b].insts.len(), |i: int| return_at(g, b, i))
}

/// The return defects, block by block.
pub open spec fn return_mismatches(g: GraphView) -> Seq<StructuralError> {
    concat_upto(g.blocks.len(), |b: int| returns_in_block(g, b))
}

/// Every defect of the graph: the unsealed blocks, the blocks that do not
/// end in their one terminator, the unknown targets, the edges that do not
/// fit their target's parameters, the entry's parameters, the unreachable
/// blocks, and the returns that do not fit the declared types.
pub open spec fn violations(g: GraphView) -> Seq<StructuralError> {
    unsealed_blocks(g) + termination(g) + unknown_targets(g) + edge_mismatches(g) + entry_parameters(g)
        + unreachable_blocks(g) + return_mismatches(g)
}

/// A graph that validation has accepted. It cannot be changed any more.
#[derive(Debug)]
pub struct ValidatedGraph {
    graph: FunctionGraph,
}

impl View for ValidatedGraph {
    type V = GraphView;

    closed spec fn view(&self) -> GraphView {
        self.graph@
    }
}

impl ValidatedGraph {
    /// The invariant of the type: the graph is well formed and has no defect.
    pub open spec fn wf(&self) -> bool {
        self@.well_formed() && violations(self@).len() == 0
    }

    /// The graph.
    pub fn graph(&self) -> (g: &FunctionGraph)
        ensures
            g@ == self@,
    {
        &self.graph
    }

    /// Gives the graph back for further construction.
    pub fn into_graph(self) -> (g: FunctionGraph)
        ensures
            g@ == self@,
    {
        self.graph
    }
}

fn check_sealed(g: &FunctionGraph, errs: &mut Vec<StructuralError>)
    ensures
        final(errs)@ == old(errs)@ + unsealed_blocks(g@),
{
    let n = g.block_count();
    let mut b: usize = 0;
    while b < n
        invariant
            b <= n,
            n == g@.blocks.len(),
            errs@ == old(errs)@ + concat_upto(b as nat, |b: int| unsealed_at(g@, b)),
        decreases n - b,
    {
        let block = BlockId::from_index(b);
        let ghost before = errs@;
        if !g.block(block).is_sealed() {
            errs.push(StructuralError::Unsealed { block });
        }
        assert(errs@ =~= before + unsealed_at(g@, b as int));
        assert(errs@ =~= old(errs)@ + concat_upto((b + 1) as nat, |b: int| unsealed_at(g@, b)));
        b += 1;
    }
}

fn check_block_termination(g: &FunctionGraph, b: usize, errs: &mut Vec<StructuralError>)
    requires
        b < g@.blocks.len(),
    ensures
        final(errs)@ == old(errs)@ + termination_at(g@, b as int),
{
    let id = BlockId::from_index(b);
    let block = g.block(id);
    let len = block.len();
    let mut i: usize = 0;
    while i < len
        invariant
            i <= len,
            b < g@.blocks.len(),
            id == BlockId::at(b as nat),
            block@ == g@.blocks[b as int],
            len == block@.insts.len(),
            errs@ == old(errs)@ + concat_upto(i as nat, |i: int| early_at(g@, b as int, i)),
        decreases len - i,
    {
        let ghost before = errs@;
        if block.inst(i).is_terminator() && i + 1 < len {
            errs.push(StructuralError::EarlyTerminator { block: id, inst: i });
        }
        assert(errs@ =~= before + early_at(g@, b as int, i as int));
        assert(errs@ =~= old(errs)@ + concat_upto((i + 1) as nat, |i: int| early_at(g@, b as int, i)));
        i += 1;
    }
    let ghost before = errs@;
    if len == 0 || !block.inst(len - 1).is_terminator() {
        errs.push(StructuralError::MissingTerminator { block: id });
    }
    assert(errs@ =~= before + missing_at(g@, b as int));
    assert(errs@ =~= old(errs)@ + termination_at(g@, b as int));
}

fn check_termination(g: &FunctionGraph, errs: &mut Vec<StructuralError>)
    ensures
        final(errs)@ == old(errs)@ + termination(g@),
{
    let n = g.block_count();
    let mut b: usize = 0;
    while b < n
        invariant
            b <= n,
            n == g@.blocks.len(),
            errs@ == old(errs)@ + concat_upto(b as nat, |b: int| termination_at(g@, b)),
        decreases n - b,
    {
        let ghost before = errs@;
        check_block_termination(g, b, errs);
        assert(errs@ =~= old(errs)@ + concat_upto((b + 1) as nat, |b: int| termination_at(g@, b)));
        b += 1;
    }
}

fn check_inst_targets(g: &FunctionGraph, b: usize, i: usize, errs: &mut Vec<StructuralError>)
    requires
        b < g@.blocks.len(),
        i < g@.blocks[b as int].insts.len(),
    ensures
        final(errs)@ == old(errs)@ + targets_in_inst(g@, b as int, i as int),
{
    let id = BlockId::from_index(b);
    let targets = g.block(id).inst(i).targets();
    let mut k: usize = 0;
    while k < targets.len()
        invariant
            k <= targets.len(),
            b < g@.blocks.len(),
            i < g@.blocks[b as int].insts.len(),
            id == BlockId::at(b as nat),
            targets@.len() == g@.blocks[b as int].insts[i as int].edges().len(),
            forall|k: int| 0 <= k < targets@.len() ==> targets@[k] == (#[trigger] g@.blocks[b as int].insts[i as int].edges()[k]).target,
            errs@ == old(errs)@ + concat_upto(k as nat, |k: int| target_at(g@, b as int, i as int, k)),
        decreases targets.len() - k,
    {
        let ghost before = errs@;
        let target = targets[k];
        assert(target == g@.blocks[b as int].insts[i as int].edges()[k as int].target);
        if !g.has_block(target) {
            errs.push(StructuralError::UnknownTarget { block: id, inst: i, target });
        }
        assert(errs@ =~= before + target_at(g@, b as int, i as int, k as int));
        assert(errs@ =~= old(errs)@ + concat_upto((k + 1) as nat, |k: int| target_at(g@, b as int, i as int, k)));
        k += 1;
    }
}

fn check_block_targets(g: &FunctionGraph, b: usize, errs: &mut Vec<StructuralError>)
    requires
        b < g@.blocks.len(),
    ensures
        final(errs)@ == old(errs)@ + targets_in_block(g@, b as int),
{
    let len = g.block(BlockId::from_index(b)).len();
    let mut i: usize = 0;
    while i < len
        invariant
            i <= len,
            b < g@.blocks.len(),
            len == g@.blocks[b as int].insts.len(),
            errs@ == old(errs)@ + concat_upto(i as nat, |i: int| targets_in_inst(g@, b as int, i)),
        decreases len - i,
    {
        check_inst_targets(g, b, i, errs);
        assert(errs@ =~= old(errs)@ + concat_upto((i + 1) as nat, |i: int| targets_in_inst(g@, b as int, i)));
        i += 1;
    }
}

fn check_targets(g: &FunctionGraph, errs: &mut Vec<StructuralError>)
    ensures
        final(errs)@ == old(errs)@ + unknown_targets(g@),
{
    let n = g.block_count();
    let mut b: usize = 0;
    while b < n
        invariant
            b <= n,
            n == g@.blocks.len(),
            errs@ == old(errs)@ + concat_upto(b as nat, |b: int| targets_in_block(g@, b)),
        decreases n - b,
    {
        check_block_targets(g, b, errs);
        assert(errs@ =~= old(errs)@ + concat_upto((b + 1) as nat, |b: int| targets_in_block(g@, b)));
        b += 1;
    }
}

fn check_edge(
    g: &FunctionGraph,
    b: usize,
    i: usize,
    k: usize,
    target: BlockId,
    errs: &mut Vec<StructuralError>,
)
    requires
        g.wf(),
        b < g@.blocks.len(),
        i < g@.blocks[b as int].insts.len(),
        k < g@.blocks[b as int].insts[i as int].edges().len(),
        target == g@.blocks[b as int].insts[i as int].edges()[k as int].target,
    ensures
        final(errs)@ == old(errs)@ + edge_at(g@, b as int, i as int, k as int),
{
    let id = BlockId::from_index(b);
    let inst = g.block(id).inst(i);
    match inst {
        Instruction::Pure { .. } => {},
        Instruction::Control { term } => {
            let ghost e = inst@.edges()[k as int];
            if !g.has_block(target) {
                return ;
            }
            let params = g.block(target).params();
            let found = term.edge_arity(k);
            if found != params.len() {
                errs.push(
                    StructuralError::ArityMismatch {
                        block: id,
                        inst: i,
                        target,
                        expected: params.len(),
                        found,
                    },
                );
                return ;
            }
            let mut p: usize = 0;
            while p < found
                invariant
                    p <= found,
                    g.wf(),
                    b < g@.blocks.len(),
                    i < g@.blocks[b as int].insts.len(),
                    k < g@.blocks[b as int].insts[i as int].edges().len(),
                    inst@ == g@.blocks[b as int].insts[i as int],
                    inst@ == (InstView::Control { term: term@ }),
                    e == inst@.edges()[k as int],
                    e.target == target,
                    g@.has_block(target),
                    found == e.args.len(),
                    params@ == g@.block(target).params,
                    found == params@.len(),
                    id == BlockId::at(b as nat),
                    errs@ == old(errs)@ + concat_upto(
                        p as nat,
                        |p: int| argument_at(g@, b as int, i as int, k as int, p),
                    ),
                decreases found - p,
            {
                let ghost before = errs@;
                let arg = term.edge_arg(k, p);
                let param = params[p];
                proof {
                    inst@.lemma_edge_args_below(g@.types.len(), k as int, p as int);
                    assert(g@.blocks[b as int].values_below(g@.types.len()));
                    assert(g@.blocks[target.id() as int].values_below(g@.types.len()));
                }
                if g.value_type(arg) != g.value_type(param) {
                    errs.push(
                        StructuralError::TypeMismatch { block: id, inst: i, target, position: p },
                    );
                }
                assert(errs@ =~= before + argument_at(g@, b as int, i as int, k as int, p as int));
                assert(errs@ =~= old(errs)@ + concat_upto(
                    (p + 1) as nat,
                    |p: int| argument_at(g@, b as int, i as int, k as int, p),
                ));
                p += 1;
            }
        },
    }
}

fn check_inst_edges(g: &FunctionGraph, b: usize, i: usize, errs: &mut Vec<StructuralError>)
    requires
        g.wf(),
        b < g@.blocks.len(),
        i < g@.blocks[b as int].insts.len(),
    ensures
        final(errs)@ == old(errs)@ + edges_in_inst(g@, b as int, i as int),
{
    let targets = g.block(BlockId::from_index(b)).inst(i).targets();
    let mut k: usize = 0;
    while k < targets.len()
        invariant
            k <= targets.len(),
            g.wf(),
            b < g@.blocks.len(),
            i < g@.blocks[b as int].insts.len(),
            targets@.len() == g@.blocks[b as int].insts[i as int].edges().len(),
            forall|k: int|
                0 <= k < targets@.len() ==> targets@[k] == (#[trigger] g@.blocks[b as int].insts[i as int].edges()[k]).target,
            errs@ == old(errs)@ + concat_upto(k as nat, |k: int| edge_at(g@, b as int, i as int, k)),
        decreases targets.len() - k,
    {
        assert(targets@[k as int] == g@.blocks[b as int].insts[i as int].edges()[k as int].target);
        check_edge(g, b, i, k, targets[k], errs);
        assert(errs@ =~= old(errs)@ + concat_upto(
            (k + 1) as nat,
            |k: int| edge_at(g@, b as int, i as int, k),
        ));
        k += 1;
    }
}

fn check_block_edges(g: &FunctionGraph, b: usize, errs: &mut Vec<StructuralError>)
    requires
        g.wf(),
        b < g@.blocks.len(),
    ensures
        final(errs)@ == old(errs)@ + edges_in_block(g@, b as int),
{
    let len = g.block(BlockId::from_index(b)).len();
    let mut i: usize = 0;
    while i < len
        invariant
            i <= len,
            g.wf(),
            b < g@.blocks.len(),
            len == g@.blocks[b as int].insts.len(),
            errs@ == old(errs)@ + concat_upto(i as nat, |i: int| edges_in_inst(g@, b as int, i)),
        decreases len - i,
    {
        check_inst_edges(g, b, i, errs);
        assert(errs@ =~= old(errs)@ + concat_upto((i + 1) as nat, |i: int| edges_in_inst(g@, b as int, i)));
        i += 1;
    }
}

fn check_edges(g: &FunctionGraph, errs: &mut Vec<StructuralError>)
    requires
        g.wf(),
    ensures
        final(errs)@ == old(errs)@ + edge_mismatches(g@),
{
    let n = g.block_count();
    let mut b: usize = 0;
    while b < n
        invariant
            b <= n,
            g.wf(),
            n == g@.blocks.len(),
            errs@ == old(errs)@ + concat_upto(b as nat, |b: int| edges_in_block(g@, b)),
        decreases n - b,
    {
        check_block_edges(g, b, errs);
        assert(errs@ =~= old(errs)@ + concat_upto((b + 1) as nat, |b: int| edges_in_block(g@, b)));
        b += 1;
    }
}

fn check_entry(g: &FunctionGraph, errs: &mut Vec<StructuralError>)
    requires
        g.wf(),
    ensures
        final(errs)@ == old(errs)@ + entry_parameters(g@),
{
    let count = g.block(g.entry()).params().len();
    if count > 0 {
        errs.push(StructuralError::EntryHasParameters { count });
    }
    assert(errs@ =~= old(errs)@ + entry_parameters(g@));
}

fn check_reachable(g: &FunctionGraph, errs: &mut Vec<StructuralError>)
    requires
        g.wf(),
    ensures
        final(errs)@ == old(errs)@ + unreachable_blocks(g@),
{
    let seen = reachable_blocks(g);
    let n = g.block_count();
    let mut b: usize = 0;
    while b < n
        invariant
            b <= n,
            n == g@.blocks.len(),
            seen@.len() == n,
            forall|c: int| 0 <= c < n ==> seen@[c] == reachable(g@, c),
            errs@ == old(errs)@ + concat_upto(b as nat, |b: int| unreachable_at(g@, b)),
        decreases n - b,
    {
        let ghost before = errs@;
        if !seen[b] {
            errs.push(StructuralError::Unreachable { block: BlockId::from_index(b) });
        }
        assert(errs@ =~= before + unreachable_at(g@, b as int));
        assert(errs@ =~= old(errs)@ + concat_upto((b + 1) as nat, |b: int| unreachable_at(g@, b)));
        b += 1;
    }
}

fn check_return(g: &FunctionGraph, b: usize, i: usize, errs: &mut Vec<StructuralError>)
    requires
        g.wf(),
        b < g@.blocks.len(),
        i < g@.blocks[b as int].insts.len(),
    ensures
        final(errs)@ == old(errs)@ + return_at(g@, b as int, i as int),
{
    let id = BlockId::from_index(b);
    let inst = g.block(id).inst(i);
    match inst {
        Instruction::Control { term: Terminator::Return { values } } => {
            let declared = g.return_types();
            if values.len() != declared.len() {
                errs.push(
                    StructuralError::ReturnArity {
                        block: id,
                        inst: i,
                        expected: declared.len(),
                        found: values.len(),
                    },
                );
                return ;
            }
            let mut p: usize = 0;
            while p < values.len()
                invariant
                    p <= values.len(),
                    g.wf(),
                    b < g@.blocks.len(),
                    i < g@.blocks[b as int].insts.len(),
                    inst@ == g@.blocks[b as int].insts[i as int],
                    inst@ == (InstView::Control {
                        term: TerminatorView::Return { values: values@ },
                    }),
                    declared@ == g@.returns,
                    values@.len() == declared@.len(),
                    id == BlockId::at(b as nat),
                    errs@ == old(errs)@ + concat_upto(
                        p as nat,
                        |p: int| returned_at(g@, b as int, i as int, p),
                    ),
                decreases values.len() - p,
            {
                let ghost before = errs@;
                proof {
                    assert(g@.blocks[b as int].values_below(g@.types.len()));
                    assert(inst@.operands()[p as int] == values@[p as int]);
                }
                if g.value_type(values[p]) != declared[p] {
                    errs.push(StructuralError::ReturnType { block: id, inst: i, position: p });
                }
                assert(errs@ =~= before + returned_at(g@, b as int, i as int, p as int));
                assert(errs@ =~= old(errs)@ + concat_upto(
                    (p + 1) as nat,
                    |p: int| returned_at(g@, b as int, i as int, p),
                ));
                p += 1;
            }
        },
        _ => {},
    }
}

fn check_block_returns(g: &FunctionGraph, b: usize, errs: &mut Vec<StructuralError>)
    requires
        g.wf(),
        b < g@.blocks.len(),
    ensures
        final(errs)@ == old(errs)@ + returns_in_block(g@, b as int),
{
    let len = g.block(BlockId::from_index(b)).len();
    let mut i: usize = 0;
    while i < len
        invariant
            i <= len,
            g.wf(),
            b < g@.blocks.len(),
            len == g@.blocks[b as int].insts.len(),
            errs@ == old(errs)@ + concat_upto(i as nat, |i: int| return_at(g@, b as int, i)),
        decreases len - i,
    {
        check_return(g, b, i, errs);
        assert(errs@ =~= old(errs)@ + concat_upto((i + 1) as nat, |i: int| return_at(g@, b as int, i)));
        i += 1;
    }
}

fn check_returns(g: &FunctionGraph, errs: &mut Vec<StructuralError>)
    requires
        g.wf(),
    ensures
        final(errs)@ == old(errs)@ + return_mismatches(g@),
{
    let n = g.block_count();
    let mut b: usize = 0;
    while b < n
        invariant
            b <= n,
            g.wf(),
            n == g@.blocks.len(),
            errs@ == old(errs)@ + concat_upto(b as nat, |b: int| returns_in_block(g@, b)),
        decreases n - b,
    {
        check_block_returns(g, b, errs);
        assert(errs@ =~= old(errs)@ + concat_upto((b + 1) as nat, |b: int| returns_in_block(g@, b)));
        b += 1;
    }
}

/// Every defect of the graph, in the order of `violations`.
pub fn collect_violations(g: &FunctionGraph) -> (errs: Vec<StructuralError>)
    requires
        g.wf(),
    ensures
        errs@ == violations(g@),
{
    let mut errs: Vec<StructuralError> = Vec::new();
    check_sealed(g, &mut errs);
    check_termination(g, &mut errs);
    check_targets(g, &mut errs);
    check_edges(g, &mut errs);
    check_entry(g, &mut errs);
    check_reachable(g, &mut errs);
    check_returns(g, &mut errs);
    assert(errs@ =~= violations(g@));
    errs
}

/// Accepts the graph where it has no defect, and else lists every defect.
pub fn validate(graph: FunctionGraph) -> (r: Result<ValidatedGraph, Vec<StructuralError>>)
    requires
        graph.wf(),
    ensures
        match r {
            Ok(v) => violations(graph@).len() == 0 && v@ == graph@ && v.wf(),
            Err(errs) => errs@.len() > 0 && errs@ == violations(graph@),
        },
{
    let errs = collect_violations(&graph);
    if errs.len() == 0 {
        Ok(ValidatedGraph { graph })
    } else {
        Err(errs)
    }
}

} // verus!
