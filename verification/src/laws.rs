use vstd::prelude::*;

use crate::error::{ExecutionError, StructuralError};
use crate::graph::GraphView;
use crate::interp::{
    lemma_step_keeps_running, outcome, reported, run_from, state_ok, step, Outcome, State, Step,
};
use crate::reach::reachable;
use crate::seqs::{concat_upto, lemma_concat_holds, lemma_concat_source};
use crate::types::BlockId;
use crate::validity::valid;
use crate::validate::{
    argument_at, early_at, edge_at, edge_mismatches, edges_in_block, edges_in_inst,
    entry_parameters, missing_at, return_at, return_mismatches, returned_at, returns_in_block,
    target_at, targets_in_block, targets_in_inst, termination, termination_at, unknown_targets,
    unreachable_at, unreachable_blocks, unsealed_at, unsealed_blocks, violations,
};

verus! {

/// Two results of a run are the same result.
pub open spec fn same_result(
    r1: Result<Vec<i64>, ExecutionError>,
    r2: Result<Vec<i64>, ExecutionError>,
) -> bool {
    match (r1, r2) {
        (Ok(a), Ok(b)) => a@ == b@,
        (Err(a), Err(b)) => a == b,
        _ => false,
    }
}

/// A run is determined by the graph, the inputs and the step limit: any two
/// results that `run` hands back for them are the same.
pub proof fn lemma_run_deterministic(
    g: GraphView,
    inputs: Seq<i64>,
    max_steps: nat,
    r1: Result<Vec<i64>, ExecutionError>,
    r2: Result<Vec<i64>, ExecutionError>,
)
    requires
        reported(r1) == outcome(g, inputs, max_steps),
        reported(r2) == outcome(g, inputs, max_steps),
    ensures
        same_result(r1, r2),
{
}

/// A run leaves the graph as it was: `run` reads it through a shared
/// reference, so after a run on other inputs a second run on the first
/// inputs gives the first result again.
pub proof fn lemma_run_again(
    g: GraphView,
    first: Seq<i64>,
    other: Seq<i64>,
    max_steps: nat,
    r1: Result<Vec<i64>, ExecutionError>,
    r2: Result<Vec<i64>, ExecutionError>,
    r3: Result<Vec<i64>, ExecutionError>,
)
    requires
        reported(r1) == outcome(g, first, max_steps),
        reported(r2) == outcome(g, other, max_steps),
        reported(r3) == outcome(g, first, max_steps),
    ensures
        same_result(r1, r3),
{
}

/// A run of a valid graph never comes to a state that names no
/// instruction: it returns, fails, or is stopped by the step limit.
pub proof fn lemma_never_stuck(g: GraphView, inputs: Seq<i64>, s: State, fuel: nat)
    requires
        g.well_formed(),
        valid(g),
        state_ok(g, s),
    ensures
        !(run_from(g, inputs, s, fuel) is Stuck),
    decreases fuel,
{
    if fuel > 0 {
        lemma_step_keeps_running(g, inputs, s);
        match step(g, inputs, s) {
            Step::Next(t) => {
                lemma_never_stuck(g, inputs, t, (fuel - 1) as nat);
            },
            _ => {},
        }
    }
}

/// The run from `s` is at `t` after exactly `n` instructions.
pub open spec fn reaches(g: GraphView, inputs: Seq<i64>, s: State, n: nat, t: State) -> bool
    decreases n,
{
    if n == 0 {
        s == t
    } else {
        match step(g, inputs, s) {
            Step::Next(u) => reaches(g, inputs, u, (n - 1) as nat, t),
            _ => false,
        }
    }
}

/// A run that is at `t` after `n` instructions fails with the step limit
/// where it may execute no more than `n`, and else ends as the run from `t`
/// with the rest of the fuel.
pub proof fn lemma_run_through(
    g: GraphView,
    inputs: Seq<i64>,
    s: State,
    n: nat,
    t: State,
    fuel: nat,
)
    requires
        reaches(g, inputs, s, n, t),
    ensures
        fuel <= n ==> run_from(g, inputs, s, fuel) == Outcome::Failed(
            ExecutionError::StepLimitExceeded,
        ),
        fuel > n ==> run_from(g, inputs, s, fuel) == run_from(g, inputs, t, (fuel - n) as nat),
    decreases n,
{
    if n > 0 && fuel > 0 {
        match step(g, inputs, s) {
            Step::Next(u) => {
                lemma_run_through(g, inputs, u, (n - 1) as nat, t, (fuel - 1) as nat);
            },
            _ => {},
        }
    }
}

/// A run that is still going after `max_steps` instructions fails with the
/// step limit.
pub proof fn lemma_long_run_exceeds_limit(
    g: GraphView,
    inputs: Seq<i64>,
    max_steps: nat,
    t: State,
)
    requires
        reaches(g, inputs, crate::interp::initial(g), max_steps, t),
    ensures
        outcome(g, inputs, max_steps) == Outcome::Failed(ExecutionError::StepLimitExceeded),
{
    lemma_run_through(g, inputs, crate::interp::initial(g), max_steps, t, max_steps);
}

/// A run that comes back to a state it was in goes round for ever: from
/// that state it fails with the step limit, whatever the limit is.
pub proof fn lemma_cycle_exceeds_every_limit(
    g: GraphView,
    inputs: Seq<i64>,
    s: State,
    period: nat,
    fuel: nat,
)
    requires
        period >= 1,
        reaches(g, inputs, s, period, s),
    ensures
        run_from(g, inputs, s, fuel) == Outcome::Failed(ExecutionError::StepLimitExceeded),
    decreases fuel,
{
    lemma_run_through(g, inputs, s, period, s, fuel);
    if fuel > period {
        lemma_cycle_exceeds_every_limit(g, inputs, s, period, (fuel - period) as nat);
    }
}

/// A run that ends otherwise than by the step limit ends the same way with
/// any higher limit.
pub proof fn lemma_more_steps_same_end(
    g: GraphView,
    inputs: Seq<i64>,
    s: State,
    fuel: nat,
    more: nat,
)
    requires
        run_from(g, inputs, s, fuel) != Outcome::Failed(ExecutionError::StepLimitExceeded),
        fuel <= more,
    ensures
        run_from(g, inputs, s, more) == run_from(g, inputs, s, fuel),
    decreases fuel,
{
    if fuel > 0 {
        match step(g, inputs, s) {
            Step::Next(u) => {
                lemma_more_steps_same_end(g, inputs, u, (fuel - 1) as nat, (more - 1) as nat);
            },
            _ => {},
        }
    }
}

proof fn lemma_in_violations(g: GraphView, x: StructuralError)
    requires
        unsealed_blocks(g).contains(x) || termination(g).contains(x) || unknown_targets(g).contains(x)
            || edge_mismatches(g).contains(x) || entry_parameters(g).contains(x) || unreachable_blocks(
            g,
        ).contains(x) || return_mismatches(g).contains(x),
    ensures
        violations(g).contains(x),
{
    let upto1 = unsealed_blocks(g);
    let upto2 = upto1 + termination(g);
    let upto3 = upto2 + unknown_targets(g);
    let upto4 = upto3 + edge_mismatches(g);
    let upto5 = upto4 + entry_parameters(g);
    let upto6 = upto5 + unreachable_blocks(g);
    let upto7 = upto6 + return_mismatches(g);
    assert(upto7 == violations(g));
    if unsealed_blocks(g).contains(x) {
        let j = choose|j: int| 0 <= j < unsealed_blocks(g).len() && unsealed_blocks(g)[j] == x;
        assert(upto7[j] == x);
    } else if termination(g).contains(x) {
        let j = choose|j: int| 0 <= j < termination(g).len() && termination(g)[j] == x;
        assert(upto7[upto1.len() + j] == x);
    } else if unknown_targets(g).contains(x) {
        let j = choose|j: int| 0 <= j < unknown_targets(g).len() && unknown_targets(g)[j] == x;
        assert(upto7[upto2.len() + j] == x);
    } else if edge_mismatches(g).contains(x) {
        let j = choose|j: int| 0 <= j < edge_mismatches(g).len() && edge_mismatches(g)[j] == x;
        assert(upto7[upto3.len() + j] == x);
    } else if entry_parameters(g).contains(x) {
        let j = choose|j: int| 0 <= j < entry_parameters(g).len() && entry_parameters(g)[j] == x;
        assert(upto7[upto4.len() + j] == x);
    } else if unreachable_blocks(g).contains(x) {
        let j = choose|j: int| 0 <= j < unreachable_blocks(g).len() && unreachable_blocks(g)[j] == x;
        assert(upto7[upto5.len() + j] == x);
    } else {
        let j = choose|j: int| 0 <= j < return_mismatches(g).len() && return_mismatches(g)[j] == x;
        assert(upto7[upto6.len() + j] == x);
    }
}

/// Where a block holds a terminator before its last instruction, as it does
/// where it holds two terminators, validation reports that block with the
/// position of the terminator.
pub proof fn lemma_early_terminator_reported(g: GraphView, block: BlockId, i: int)
    requires
        g.has_block(block),
        0 <= i < g.block(block).insts.len() - 1,
        g.block(block).insts[i].is_terminator(),
    ensures
        violations(g).contains(StructuralError::EarlyTerminator { block, inst: i as usize }),
{
    let b = block.id() as int;
    let x = StructuralError::EarlyTerminator { block, inst: i as usize };
    BlockId::lemma_at(0, block);
    let f = |i: int| early_at(g, b, i);
    assert(f(i)[0] == x);
    lemma_concat_holds(g.blocks[b].insts.len(), f, i, x);
    let early = concat_upto(g.blocks[b].insts.len(), f);
    let j = choose|j: int| 0 <= j < early.len() && early[j] == x;
    assert(termination_at(g, b)[j] == x);
    let h = |b: int| termination_at(g, b);
    assert(h(b).contains(x));
    lemma_concat_holds(g.blocks.len(), h, b, x);
    lemma_in_violations(g, x);
}

/// Where an edge to a block of the graph carries another number of
/// arguments than the block has parameters, validation reports the edge with
/// both numbers.
pub proof fn lemma_arity_mismatch_reported(g: GraphView, block: BlockId, i: int, k: int)
    requires
        g.has_block(block),
        0 <= i < g.block(block).insts.len(),
        0 <= k < g.block(block).insts[i].edges().len(),
        g.has_block(g.block(block).insts[i].edges()[k].target),
        g.block(block).insts[i].edges()[k].args.len() != g.block(
            g.block(block).insts[i].edges()[k].target,
        ).params.len(),
    ensures
        violations(g).contains(
            StructuralError::ArityMismatch {
                block,
                inst: i as usize,
                target: g.block(block).insts[i].edges()[k].target,
                expected: g.block(g.block(block).insts[i].edges()[k].target).params.len() as usize,
                found: g.block(block).insts[i].edges()[k].args.len() as usize,
            },
        ),
{
    let b = block.id() as int;
    let e = g.blocks[b].insts[i].edges()[k];
    let x = StructuralError::ArityMismatch {
        block,
        inst: i as usize,
        target: e.target,
        expected: g.block(e.target).params.len() as usize,
        found: e.args.len() as usize,
    };
    BlockId::lemma_at(0, block);
    let f = |k: int| edge_at(g, b, i, k);
    assert(f(k)[0] == x);
    lemma_concat_holds(g.blocks[b].insts[i].edges().len(), f, k, x);
    let h = |i: int| edges_in_inst(g, b, i);
    assert(h(i).contains(x));
    lemma_concat_holds(g.blocks[b].insts.len(), h, i, x);
    let m = |b: int| edges_in_block(g, b);
    assert(m(b).contains(x));
    lemma_concat_holds(g.blocks.len(), m, b, x);
    lemma_in_violations(g, x);
}

/// Where no path leads from the entry to a block, validation reports that
/// block as unreachable.
pub proof fn lemma_unreachable_reported(g: GraphView, block: BlockId)
    requires
        g.has_block(block),
        !reachable(g, block.id() as int),
    ensures
        violations(g).contains(StructuralError::Unreachable { block }),
{
    let b = block.id() as int;
    let x = StructuralError::Unreachable { block };
    BlockId::lemma_at(0, block);
    let f = |b: int| unreachable_at(g, b);
    assert(f(b)[0] == x);
    lemma_concat_holds(g.blocks.len(), f, b, x);
    lemma_in_violations(g, x);
}

/// An item of a sequence made of two parts is an item of one of them.
proof fn lemma_in_part(a: Seq<StructuralError>, b: Seq<StructuralError>, x: StructuralError)
    requires
        (a + b).contains(x),
    ensures
        a.contains(x) || b.contains(x),
{
    let whole = a + b;
    let j = choose|j: int| 0 <= j < whole.len() && whole[j] == x;
    if j < a.len() {
        assert(a[j] == x);
    } else {
        assert(b[j - a.len()] == x);
    }
}

/// Only the check for unreachable blocks reports a block as unreachable.
proof fn lemma_unreachable_from_its_check(g: GraphView, x: StructuralError)
    requires
        x is Unreachable,
        violations(g).contains(x),
    ensures
        unreachable_blocks(g).contains(x),
{
    let n = g.blocks.len();
    let upto1 = unsealed_blocks(g);
    let upto2 = upto1 + termination(g);
    let upto3 = upto2 + unknown_targets(g);
    let upto4 = upto3 + edge_mismatches(g);
    let upto5 = upto4 + entry_parameters(g);
    let upto6 = upto5 + unreachable_blocks(g);
    lemma_in_part(upto6, return_mismatches(g), x);
    if return_mismatches(g).contains(x) {
        let b = lemma_concat_source(n, |b: int| returns_in_block(g, b), x);
        let i = lemma_concat_source(g.blocks[b].insts.len(), |i: int| return_at(g, b, i), x);
        let found = return_at(g, b, i);
        let j = choose|j: int| 0 <= j < found.len() && found[j] == x;
        if !(found[j] is ReturnArity) {
            let values = g.blocks[b].insts[i]->term->values;
            let p = lemma_concat_source(values.len(), |p: int| returned_at(g, b, i, p), x);
            let one = returned_at(g, b, i, p);
            let m = choose|m: int| 0 <= m < one.len() && one[m] == x;
        }
        assert(false);
    }
    lemma_in_part(upto5, unreachable_blocks(g), x);
    if !unreachable_blocks(g).contains(x) {
        lemma_in_part(upto4, entry_parameters(g), x);
        if entry_parameters(g).contains(x) {
            let found = entry_parameters(g);
            let j = choose|j: int| 0 <= j < found.len() && found[j] == x;
            assert(false);
        }
        lemma_in_part(upto3, edge_mismatches(g), x);
        if edge_mismatches(g).contains(x) {
            let b = lemma_concat_source(n, |b: int| edges_in_block(g, b), x);
            let i = lemma_concat_source(g.blocks[b].insts.len(), |i: int| edges_in_inst(g, b, i), x);
            let k = lemma_concat_source(
                g.blocks[b].insts[i].edges().len(),
                |k: int| edge_at(g, b, i, k),
                x,
            );
            let found = edge_at(g, b, i, k);
            let j = choose|j: int| 0 <= j < found.len() && found[j] == x;
            if !(found[j] is ArityMismatch) {
                let e = g.blocks[b].insts[i].edges()[k];
                let p = lemma_concat_source(e.args.len(), |p: int| argument_at(g, b, i, k, p), x);
                let one = argument_at(g, b, i, k, p);
                let m = choose|m: int| 0 <= m < one.len() && one[m] == x;
            }
            assert(false);
        }
        lemma_in_part(upto2, unknown_targets(g), x);
        if unknown_targets(g).contains(x) {
            let b = lemma_concat_source(n, |b: int| targets_in_block(g, b), x);
            let i = lemma_concat_source(g.blocks[b].insts.len(), |i: int| targets_in_inst(g, b, i), x);
            let k = lemma_concat_source(
                g.blocks[b].insts[i].edges().len(),
                |k: int| target_at(g, b, i, k),
                x,
            );
            let found = target_at(g, b, i, k);
            let j = choose|j: int| 0 <= j < found.len() && found[j] == x;
            assert(false);
        }
        lemma_in_part(upto1, termination(g), x);
        if termination(g).contains(x) {
            let b = lemma_concat_source(n, |b: int| termination_at(g, b), x);
            let early = concat_upto(g.blocks[b].insts.len(), |i: int| early_at(g, b, i));
            lemma_in_part(early, missing_at(g, b), x);
            if early.contains(x) {
                let i = lemma_concat_source(g.blocks[b].insts.len(), |i: int| early_at(g, b, i), x);
                let found = early_at(g, b, i);
                let j = choose|j: int| 0 <= j < found.len() && found[j] == x;
            } else {
                let found = missing_at(g, b);
                let j = choose|j: int| 0 <= j < found.len() && found[j] == x;
            }
            assert(false);
        }
        let b = lemma_concat_source(n, |b: int| unsealed_at(g, b), x);
        let found = unsealed_at(g, b);
        let j = choose|j: int| 0 <= j < found.len() && found[j] == x;
        assert(false);
    }
}

/// Validation reports as unreachable only blocks of the graph to which no
/// path leads from the entry.
pub proof fn lemma_unreachable_report_is_true(g: GraphView, block: BlockId)
    requires
        g.well_formed(),
        violations(g).contains(StructuralError::Unreachable { block }),
    ensures
        g.has_block(block),
        !reachable(g, block.id() as int),
{
    let x = StructuralError::Unreachable { block };
    lemma_unreachable_from_its_check(g, x);
    let b = lemma_concat_source(g.blocks.len(), |b: int| unreachable_at(g, b), x);
    let found = unreachable_at(g, b);
    let j = choose|j: int| 0 <= j < found.len() && found[j] == x;
    assert(found[j] == StructuralError::Unreachable { block: BlockId::at(b as nat) });
    BlockId::lemma_at(b as nat, block);
}

} // verus!
