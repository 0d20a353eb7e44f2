use vstd::prelude::*;

use crate::error::ExecutionError;
use crate::graph::{FunctionGraph, GraphView};
use crate::inst::{EdgeView, InstView, Instruction, Operation, Terminator, TerminatorView};
use crate::types::{BlockId, Value};
use crate::validate::ValidatedGraph;
use crate::validity::{block_valid, edge_valid, inst_valid, lemma_no_violation_iff_valid, valid};

verus! {

/// What each value holds during a run, by the value's number; `None` where
/// nothing has defined it yet.
pub type Env = Seq<Option<i64>>;

/// A point of a run: the instruction at `pc` of `block` is the next one.
pub struct State {
    pub block: BlockId,
    pub pc: int,
    pub env: Env,
}

/// What executing one instruction leads to.
pub enum Step {
    /// The run goes on from this state.
    Next(State),
    /// The run is over and yields these values.
    Done(Seq<i64>),
    /// The run fails.
    Fault(ExecutionError),
    /// The state names no instruction of the graph.
    Stuck,
}

/// How a run ends.
pub enum Outcome {
    Returned(Seq<i64>),
    Failed(ExecutionError),
    /// The run came to a state that names no instruction. A valid graph
    /// never does.
    Stuck,
}

/// What `v` holds in `env`.
pub open spec fn read(env: Env, v: Value) -> Option<i64> {
    if v.id() < env.len() {
        env[v.id() as int]
    } else {
        None
    }
}

/// The first of `values`, from position `from` on, that holds nothing.
pub open spec fn first_undefined(env: Env, values: Seq<Value>, from: int) -> Option<Value>
    decreases values.len() - from,
{
    if from < 0 || from >= values.len() {
        None
    } else if read(env, values[from]) is None {
        Some(values[from])
    } else {
        first_undefined(env, values, from + 1)
    }
}

/// What `values` hold, in order.
pub open spec fn read_all(env: Env, values: Seq<Value>) -> Seq<i64> {
    Seq::new(values.len(), |p: int| read(env, values[p]).unwrap())
}

/// `env` after each of `params` was given the item of `items` at its
/// position, from the first to the last.
pub open spec fn bind(env: Env, params: Seq<Value>, items: Seq<i64>) -> Env
    decreases params.len(),
{
    if params.len() == 0 {
        env
    } else {
        bind(env, params.drop_last(), items.drop_last()).update(
            params.last().id() as int,
            Some(items.last()),
        )
    }
}

/// The state at the start of a run: the first instruction of the entry, no
/// value defined.
pub open spec fn initial(g: GraphView) -> State {
    State { block: BlockId::at(0), pc: 0, env: Seq::new(g.types.len(), |v: int| None) }
}

/// What the pure operation `op` yields.
pub open spec fn eval(inputs: Seq<i64>, env: Env, op: Operation) -> Result<i64, ExecutionError> {
    match op {
        Operation::Const { ty, literal } => Ok(ty.wrap(literal as int)),
        Operation::Input { ty, index } => {
            if index < inputs.len() {
                Ok(ty.wrap(inputs[index as int] as int))
            } else {
                Err(ExecutionError::MissingInput { index })
            }
        },
        Operation::Arith { op, ty, lhs, rhs } => match read(env, lhs) {
            None => Err(ExecutionError::UndefinedValue { value: lhs }),
            Some(a) => match read(env, rhs) {
                None => Err(ExecutionError::UndefinedValue { value: rhs }),
                Some(b) => Ok(op.eval(ty, a, b)),
            },
        },
    }
}

/// Following the edge `e`: its arguments are read, then the run goes on at
/// the start of the target with the target's parameters bound to them.
pub open spec fn follow(g: GraphView, env: Env, e: EdgeView) -> Step {
    match first_undefined(env, e.args, 0) {
        Some(value) => Step::Fault(ExecutionError::UndefinedValue { value }),
        None => Step::Next(
            State {
                block: e.target,
                pc: 0,
                env: bind(env, g.block(e.target).params, read_all(env, e.args)),
            },
        ),
    }
}

/// The position, among the edges of a multi-way branch with `count` table
/// entries, of the edge that the index value `x` selects.
pub open spec fn selected(count: nat, x: i64) -> int {
    if 0 <= x < count {
        x + 1
    } else {
        0
    }
}

/// What the terminator `term` leads to.
pub open spec fn transfer(g: GraphView, env: Env, term: TerminatorView) -> Step {
    match term {
        TerminatorView::Jump { .. } => follow(g, env, term.edges()[0]),
        TerminatorView::Branch { cond, .. } => match read(env, cond) {
            None => Step::Fault(ExecutionError::UndefinedValue { value: cond }),
            Some(c) => follow(
                g,
                env,
                if c != 0 {
                    term.edges()[0]
                } else {
                    term.edges()[1]
                },
            ),
        },
        TerminatorView::MultiBranch { index, targets, .. } => match read(env, index) {
            None => Step::Fault(ExecutionError::UndefinedValue { value: index }),
            Some(x) => follow(g, env, term.edges()[selected(targets.len(), x)]),
        },
        TerminatorView::Return { values } => match first_undefined(env, values, 0) {
            Some(value) => Step::Fault(ExecutionError::UndefinedValue { value }),
            None => Step::Done(read_all(env, values)),
        },
    }
}

/// Whether `s` names an instruction of `g`.
pub open spec fn at_instruction(g: GraphView, s: State) -> bool {
    g.has_block(s.block) && 0 <= s.pc < g.block(s.block).insts.len()
}

/// What executing the instruction that `s` names leads to.
pub open spec fn step(g: GraphView, inputs: Seq<i64>, s: State) -> Step {
    if !at_instruction(g, s) {
        Step::Stuck
    } else {
        match g.block(s.block).insts[s.pc] {
            InstView::Pure { result, op } => match eval(inputs, s.env, op) {
                Ok(x) => Step::Next(
                    State { pc: s.pc + 1, env: s.env.update(result.id() as int, Some(x)), ..s },
                ),
                Err(e) => Step::Fault(e),
            },
            InstView::Control { term } => transfer(g, s.env, term),
        }
    }
}

/// How the run from `s` ends where it may execute `fuel` instructions.
pub open spec fn run_from(g: GraphView, inputs: Seq<i64>, s: State, fuel: nat) -> Outcome
    decreases fuel,
{
    if fuel == 0 {
        Outcome::Failed(ExecutionError::StepLimitExceeded)
    } else {
        match step(g, inputs, s) {
            Step::Next(t) => run_from(g, inputs, t, (fuel - 1) as nat),
            Step::Done(values) => Outcome::Returned(values),
            Step::Fault(e) => Outcome::Failed(e),
            Step::Stuck => Outcome::Stuck,
        }
    }
}

/// How the run of `g` on `inputs` ends where it may execute `fuel`
/// instructions.
pub open spec fn outcome(g: GraphView, inputs: Seq<i64>, fuel: nat) -> Outcome {
    run_from(g, inputs, initial(g), fuel)
}

/// What `run` hands back for an outcome.
pub open spec fn reported(r: Result<Vec<i64>, ExecutionError>) -> Outcome {
    match r {
        Ok(values) => Outcome::Returned(values@),
        Err(e) => Outcome::Failed(e),
    }
}

/// The state names an instruction and holds an entry for each value.
pub open spec fn state_ok(g: GraphView, s: State) -> bool {
    at_instruction(g, s) && s.env.len() == g.types.len()
}

/// Binding keeps the length of the environment.
pub proof fn lemma_bind_len(env: Env, params: Seq<Value>, items: Seq<i64>)
    requires
        forall|p: int| 0 <= p < params.len() ==> (#[trigger] params[p]).id() < env.len(),
    ensures
        bind(env, params, items).len() == env.len(),
    decreases params.len(),
{
    if params.len() > 0 {
        lemma_bind_len(env, params.drop_last(), items.drop_last());
    }
}

/// In a valid graph a step from a state that names an instruction never is
/// stuck, and the state it leads to names an instruction again.
pub proof fn lemma_step_keeps_running(g: GraphView, inputs: Seq<i64>, s: State)
    requires
        g.well_formed(),
        valid(g),
        state_ok(g, s),
    ensures
        !(step(g, inputs, s) is Stuck),
        step(g, inputs, s) matches Step::Next(t) ==> state_ok(g, t),
{
    let b = s.block.id() as int;
    let block = g.blocks[b];
    let inst = block.insts[s.pc];
    assert(block_valid(g, b));
    assert(inst_valid(g, inst));
    assert(block.values_below(g.types.len()));
    assert(inst.values_below(g.types.len()));
    match step(g, inputs, s) {
        Step::Next(t) => {
            match inst {
                InstView::Pure { .. } => {
                    assert(!inst.is_terminator());
                },
                InstView::Control { term } => {
                    let k = match term {
                        TerminatorView::Branch { cond, .. } => if read(s.env, cond).unwrap() != 0 {
                            0int
                        } else {
                            1int
                        },
                        TerminatorView::MultiBranch { index, targets, .. } => selected(
                            targets.len(),
                            read(s.env, index).unwrap(),
                        ),
                        _ => 0int,
                    };
                    let e = term.edges()[k];
                    assert(inst.edges()[k] == e);
                    assert(edge_valid(g, e));
                    let c = e.target.id() as int;
                    assert(block_valid(g, c));
                    assert(g.blocks[c].values_below(g.types.len()));
                    lemma_bind_len(s.env, g.blocks[c].params, read_all(s.env, e.args));
                },
            }
        },
        _ => {},
    }
}

/// Reads `values` in order; fails at the first that holds nothing.
fn read_values(env: &Vec<Option<i64>>, values: &Vec<Value>) -> (r: Result<Vec<i64>, Value>)
    requires
        forall|p: int| 0 <= p < values@.len() ==> (#[trigger] values@[p]).id() < env@.len(),
    ensures
        match r {
            Ok(items) => first_undefined(env@, values@, 0) is None && items@ == read_all(
                env@,
                values@,
            ),
            Err(v) => first_undefined(env@, values@, 0) == Some(v),
        },
{
    let mut items: Vec<i64> = Vec::new();
    let mut p: usize = 0;
    while p < values.len()
        invariant
            p <= values.len(),
            forall|q: int| 0 <= q < values@.len() ==> (#[trigger] values@[q]).id() < env@.len(),
            first_undefined(env@, values@, 0) == first_undefined(env@, values@, p as int),
            items@.len() == p,
            forall|q: int| 0 <= q < p ==> items@[q] == read(env@, #[trigger] values@[q]).unwrap(),
        decreases values.len() - p,
    {
        let v = values[p];
        match env[v.index()] {
            None => {
                return Err(v);
            },
            Some(x) => {
                items.push(x);
            },
        }
        p += 1;
    }
    assert(items@ =~= read_all(env@, values@));
    Ok(items)
}

/// Follows an edge to `target` with the arguments `args`.
fn follow_edge(
    g: &FunctionGraph,
    env: &mut Vec<Option<i64>>,
    target: BlockId,
    args: &Vec<Value>,
) -> (r: Result<(), ExecutionError>)
    requires
        g.wf(),
        g@.has_block(target),
        old(env)@.len() == g@.types.len(),
        forall|p: int| 0 <= p < args@.len() ==> (#[trigger] args@[p]).id() < old(env)@.len(),
        args@.len() == g@.block(target).params.len(),
    ensures
        match follow(g@, old(env)@, (EdgeView { target, args: args@ })) {
            Step::Next(t) => r is Ok && final(env)@ == t.env,
            Step::Fault(e) => r == Err::<(), ExecutionError>(e) && final(env)@ == old(env)@,
            _ => false,
        },
{
    let items = match read_values(env, args) {
        Ok(items) => items,
        Err(value) => {
            return Err(ExecutionError::UndefinedValue { value });
        },
    };
    let params = g.block(target).params();
    assert(g@.blocks[target.id() as int].values_below(g@.types.len()));
    let mut p: usize = 0;
    while p < params.len()
        invariant
            p <= params.len(),
            params@.len() == items@.len(),
            env@.len() == old(env)@.len(),
            forall|q: int| 0 <= q < params@.len() ==> (#[trigger] params@[q]).id() < env@.len(),
            env@ == bind(old(env)@, params@.subrange(0, p as int), items@.subrange(0, p as int)),
        decreases params.len() - p,
    {
        env.set(params[p].index(), Some(items[p]));
        proof {
            let ps = params@.subrange(0, p + 1);
            let xs = items@.subrange(0, p + 1);
            assert(ps.drop_last() =~= params@.subrange(0, p as int));
            assert(xs.drop_last() =~= items@.subrange(0, p as int));
        }
        p += 1;
    }
    proof {
        assert(params@.subrange(0, params@.len() as int) =~= params@);
        assert(items@.subrange(0, items@.len() as int) =~= items@);
    }
    Ok(())
}

/// Computes the pure operation `op`.
fn evaluate(inputs: &Vec<i64>, env: &Vec<Option<i64>>, op: Operation) -> (r: Result<
    i64,
    ExecutionError,
>)
    requires
        forall|k: int| 0 <= k < op.operands().len() ==> (#[trigger] op.operands()[k]).id() < env@.len(),
    ensures
        r == eval(inputs@, env@, op),
{
    match op {
        Operation::Const { ty, literal } => Ok(ty.wrap_value(literal as i128)),
        Operation::Input { ty, index } => {
            if index < inputs.len() {
                Ok(ty.wrap_value(inputs[index] as i128))
            } else {
                Err(ExecutionError::MissingInput { index })
            }
        },
        Operation::Arith { op: kind, ty, lhs, rhs } => {
            assert(op.operands()[0] == lhs && op.operands()[1] == rhs);
            match env[lhs.index()] {
                None => Err(ExecutionError::UndefinedValue { value: lhs }),
                Some(a) => match env[rhs.index()] {
                    None => Err(ExecutionError::UndefinedValue { value: rhs }),
                    Some(b) => Ok(kind.apply(ty, a, b)),
                },
            }
        },
    }
}

/// Runs the graph on `inputs`, executing at most `max_steps` instructions.
/// Yields the values of the return that the run comes to, or the failure
/// that ends it; a run that is not over after `max_steps` instructions
/// fails with `StepLimitExceeded`.
pub fn run(graph: &ValidatedGraph, inputs: &Vec<i64>, max_steps: u64) -> (r: Result<
    Vec<i64>,
    ExecutionError,
>)
    requires
        graph.wf(),
    ensures
        reported(r) == outcome(graph@, inputs@, max_steps as nat),
{
    let g = graph.graph();
    let count = g.value_count();
    let mut env: Vec<Option<i64>> = Vec::new();
    while env.len() < count
        invariant
            env@.len() <= count,
            forall|v: int| 0 <= v < env@.len() ==> env@[v] is None,
        decreases count - env.len(),
    {
        env.push(None);
    }
    let mut block = g.entry();
    let mut pc: usize = 0;
    let mut left = max_steps;
    proof {
        lemma_no_violation_iff_valid(g@);
        BlockId::lemma_at(0, block);
        assert(env@ =~= initial(g@).env);
        assert(block_valid(g@, 0));
    }
    loop
        invariant
            g.wf(),
            valid(g@),
            g@ == graph@,
            state_ok(g@, (State { block, pc: pc as int, env: env@ })),
            outcome(graph@, inputs@, max_steps as nat) == run_from(
                g@,
                inputs@,
                (State { block, pc: pc as int, env: env@ }),
                left as nat,
            ),
        decreases left,
    {
        if left == 0 {
            return Err(ExecutionError::StepLimitExceeded);
        }
        let ghost s = State { block, pc: pc as int, env: env@ };
        let here = g.block(block);
        let len = here.len();
        let inst = here.inst(pc);
        proof {
            lemma_step_keeps_running(g@, inputs@, s);
            assert(block_valid(g@, block.id() as int));
            assert(inst_valid(g@, inst@));
            assert(g@.blocks[block.id() as int].values_below(g@.types.len()));
            assert(inst@.values_below(g@.types.len()));
        }
        left -= 1;
        match inst {
            Instruction::Pure { result, op } => {
                assert(inst@.operands() == op.operands());
                match evaluate(inputs, &env, *op) {
                    Ok(x) => {
                        assert(!here@.insts[pc as int].is_terminator());
                        assert(pc + 1 < len);
                        env.set(result.index(), Some(x));
                        pc += 1;
                    },
                    Err(e) => {
                        return Err(e);
                    },
                }
            },
            Instruction::Control { term } => {
                let no_args: Vec<Value> = Vec::new();
                let ghost k: int;
                let target: BlockId;
                let args: &Vec<Value>;
                match term {
                    Terminator::Return { values } => {
                        assert(inst@.operands() == values@);
                        return match read_values(&env, values) {
                            Ok(items) => Ok(items),
                            Err(value) => Err(ExecutionError::UndefinedValue { value }),
                        };
                    },
                    Terminator::Jump { target: to, args: with } => {
                        proof {
                            k = 0;
                        }
                        target = *to;
                        args = with;
                    },
                    Terminator::Branch { cond, then_target, then_args, else_target, else_args } => {
                        assert(inst@.operands()[0] == *cond);
                        match env[cond.index()] {
                            None => {
                                return Err(ExecutionError::UndefinedValue { value: *cond });
                            },
                            Some(c) => {
                                if c != 0 {
                                    proof {
                                        k = 0;
                                    }
                                    target = *then_target;
                                    args = then_args;
                                } else {
                                    proof {
                                        k = 1;
                                    }
                                    target = *else_target;
                                    args = else_args;
                                }
                            },
                        }
                    },
                    Terminator::MultiBranch { index, default_target, targets } => {
                        assert(inst@.operands()[0] == *index);
                        match env[index.index()] {
                            None => {
                                return Err(ExecutionError::UndefinedValue { value: *index });
                            },
                            Some(x) => {
                                proof {
                                    k = selected(targets@.len(), x);
                                }
                                if x >= 0 && (x as u64) < (targets.len() as u64) {
                                    target = targets[x as usize];
                                } else {
                                    target = *default_target;
                                }
                                args = &no_args;
                            },
                        }
                    },
                }
                proof {
                    let e = term@.edges()[k];
                    assert(inst@.edges()[k] == e);
                    assert(e.target == target);
                    assert(e.args =~= args@);
                    assert(e == (EdgeView { target, args: args@ }));
                    assert(edge_valid(g@, e));
                    assert forall|p: int| 0 <= p < args@.len() implies (#[trigger] args@[p]).id()
                        < env@.len() by {
                        inst@.lemma_edge_args_below(g@.types.len(), k, p);
                    }
                }
                match follow_edge(g, &mut env, target, args) {
                    Ok(()) => {
                        block = target;
                        pc = 0;
                    },
                    Err(e) => {
                        return Err(e);
                    },
                }
            },
        }
    }
}

} // verus!
