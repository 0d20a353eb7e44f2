use vstd::prelude::*;

use crate::types::{ArithOp, BlockId, Type, Value};

verus! {

/// A pure operation. It yields exactly one value.
#[derive(Clone, Copy, Debug, PartialEq, Eq, Structural)]
pub enum Operation {
    /// The literal, wrapped to `ty`.
    Const { ty: Type, literal: i64 },
    /// The input at `index` of the run, wrapped to `ty`.
    Input { ty: Type, index: usize },
    /// `lhs op rhs` at type `ty`, wrapping.
    Arith { op: ArithOp, ty: Type, lhs: Value, rhs: Value },
}

/// A control transfer.
#[derive(Debug, PartialEq, Eq)]
pub enum Terminator {
    /// Goes to `target` and binds its parameters to `args`.
    Jump { target: BlockId, args: Vec<Value> },
    /// Takes the first edge where `cond` is not zero, else the second.
    Branch {
        cond: Value,
        then_target: BlockId,
        then_args: Vec<Value>,
        else_target: BlockId,
        else_args: Vec<Value>,
    },
    /// Goes to `targets[index]`, or to `default_target` where `index` is out
    /// of range. No edge carries arguments.
    MultiBranch { index: Value, default_target: BlockId, targets: Vec<BlockId> },
    /// Ends the run with `values`.
    Return { values: Vec<Value> },
}

/// One instruction of a block.
#[derive(Debug, PartialEq, Eq)]
pub enum Instruction {
    /// A pure operation and the value that it defines.
    Pure { result: Value, op: Operation },
    /// A terminator.
    Control { term: Terminator },
}

/// An edge of a terminator: the block it leads to and the values it hands to
/// that block's parameters.
pub struct EdgeView {
    pub target: BlockId,
    pub args: Seq<Value>,
}

/// The mathematical value of a `Terminator`.
pub enum TerminatorView {
    Jump { target: BlockId, args: Seq<Value> },
    Branch {
        cond: Value,
        then_target: BlockId,
        then_args: Seq<Value>,
        else_target: BlockId,
        else_args: Seq<Value>,
    },
    MultiBranch { index: Value, default_target: BlockId, targets: Seq<BlockId> },
    Return { values: Seq<Value> },
}

/// The mathematical value of an `Instruction`.
pub enum InstView {
    Pure { result: Value, op: Operation },
    Control { term: TerminatorView },
}

impl Operation {
    /// The values that the operation reads, in order.
    pub open spec fn operands(self) -> Seq<Value> {
        match self {
            Operation::Const { .. } => Seq::empty(),
            Operation::Input { .. } => Seq::empty(),
            Operation::Arith { lhs, rhs, .. } => seq![lhs, rhs],
        }
    }

    /// The type of the value that the operation yields.
    pub open spec fn result_type(self) -> Type {
        match self {
            Operation::Const { ty, .. } => ty,
            Operation::Input { ty, .. } => ty,
            Operation::Arith { ty, .. } => ty,
        }
    }

    /// The type of the value that the operation yields.
    pub fn ty(&self) -> (r: Type)
        ensures
            r == self.result_type(),
    {
        match self {
            Operation::Const { ty, .. } => *ty,
            Operation::Input { ty, .. } => *ty,
            Operation::Arith { ty, .. } => *ty,
        }
    }
}

impl TerminatorView {
    /// The edges of the terminator, in order: for a branch the edge taken on
    /// a non-zero condition first, for a multi-way branch the default edge
    /// first and then the table.
    pub open spec fn edges(self) -> Seq<EdgeView> {
        match self {
            TerminatorView::Jump { target, args } => seq![EdgeView { target, args }],
            TerminatorView::Branch { then_target, then_args, else_target, else_args, .. } => seq![
                EdgeView { target: then_target, args: then_args },
                EdgeView { target: else_target, args: else_args },
            ],
            TerminatorView::MultiBranch { default_target, targets, .. } => Seq::new(
                targets.len() + 1,
                |k: int|
                    EdgeView {
                        target: if k == 0 {
                            default_target
                        } else {
                            targets[k - 1]
                        },
                        args: Seq::empty(),
                    },
            ),
            TerminatorView::Return { .. } => Seq::empty(),
        }
    }

    /// The blocks that the edges lead to, in the order of `edges()`.
    pub open spec fn targets(self) -> Seq<BlockId> {
        Seq::new(self.edges().len(), |k: int| self.edges()[k].target)
    }

    /// The values that the terminator reads, in order.
    pub open spec fn operands(self) -> Seq<Value> {
        match self {
            TerminatorView::Jump { args, .. } => args,
            TerminatorView::Branch { cond, then_args, else_args, .. } => seq![cond] + then_args
                + else_args,
            TerminatorView::MultiBranch { index, .. } => seq![index],
            TerminatorView::Return { values } => values,
        }
    }
}

impl InstView {
    pub open spec fn is_terminator(self) -> bool {
        self is Control
    }

    /// The values that the instruction reads, in order.
    pub open spec fn operands(self) -> Seq<Value> {
        match self {
            InstView::Pure { op, .. } => op.operands(),
            InstView::Control { term } => term.operands(),
        }
    }

    /// The edges of the instruction; a pure instruction has none.
    pub open spec fn edges(self) -> Seq<EdgeView> {
        match self {
            InstView::Pure { .. } => Seq::empty(),
            InstView::Control { term } => term.edges(),
        }
    }

    /// Whether every value the instruction names has a number below `n`.
    pub open spec fn values_below(self, n: nat) -> bool {
        &&& forall|k: int| 0 <= k < self.operands().len() ==> (#[trigger] self.operands()[k]).id() < n
        &&& self matches InstView::Pure { result, .. } ==> result.id() < n
    }
}

impl InstView {
    /// Where every value of the instruction is below `n`, so is each
    /// argument of each of its edges.
    pub proof fn lemma_edge_args_below(self, n: nat, k: int, p: int)
        requires
            self.values_below(n),
            0 <= k < self.edges().len(),
            0 <= p < self.edges()[k].args.len(),
        ensures
            self.edges()[k].args[p].id() < n,
    {
        match self {
            InstView::Control { term: TerminatorView::Jump { args, .. } } => {
                assert(self.operands()[p] == args[p]);
            },
            InstView::Control { term: TerminatorView::Branch { then_args, else_args, .. } } => {
                if k == 0 {
                    assert(self.operands()[1 + p] == then_args[p]);
                } else {
                    assert(self.operands()[1 + then_args.len() + p] == else_args[p]);
                }
            },
            _ => {},
        }
    }
}

impl View for Terminator {
    type V = TerminatorView;

    open spec fn view(&self) -> TerminatorView {
        match *self {
            Terminator::Jump { target, args } => TerminatorView::Jump { target, args: args@ },
            Terminator::Branch { cond, then_target, then_args, else_target, else_args } => {
                TerminatorView::Branch {
                    cond,
                    then_target,
                    then_args: then_args@,
                    else_target,
                    else_args: else_args@,
                }
            },
            Terminator::MultiBranch { index, default_target, targets } => {
                TerminatorView::MultiBranch { index, default_target, targets: targets@ }
            },
            Terminator::Return { values } => TerminatorView::Return { values: values@ },
        }
    }
}

impl View for Instruction {
    type V = InstView;

    open spec fn view(&self) -> InstView {
        match *self {
            Instruction::Pure { result, op } => InstView::Pure { result, op },
            Instruction::Control { term } => InstView::Control { term: term@ },
        }
    }
}

impl Terminator {
    /// The blocks that the edges lead to, in the order of the edges.
    pub fn targets(&self) -> (r: Vec<BlockId>)
        ensures
            r@ == self@.targets(),
    {
        let mut r: Vec<BlockId> = Vec::new();
        match self {
            Terminator::Jump { target, .. } => {
                r.push(*target);
            },
            Terminator::Branch { then_target, else_target, .. } => {
                r.push(*then_target);
                r.push(*else_target);
            },
            Terminator::MultiBranch { default_target, targets, .. } => {
                r.push(*default_target);
                let mut k: usize = 0;
                while k < targets.len()
                    invariant
                        k <= targets.len(),
                        r@.len() == k + 1,
                        r@[0] == *default_target,
                        forall|j: int| 0 <= j < k ==> r@[j + 1] == targets@[j],
                    decreases targets.len() - k,
                {
                    r.push(targets[k]);
                    k += 1;
                }
            },
            Terminator::Return { .. } => {},
        }
        assert(r@ =~= self@.targets());
        r
    }

    /// The number of arguments that the edge at `k` carries.
    pub fn edge_arity(&self, k: usize) -> (r: usize)
        requires
            k < self@.edges().len(),
        ensures
            r == self@.edges()[k as int].args.len(),
    {
        match self {
            Terminator::Jump { args, .. } => args.len(),
            Terminator::Branch { then_args, else_args, .. } => {
                if k == 0 {
                    then_args.len()
                } else {
                    else_args.len()
                }
            },
            Terminator::MultiBranch { .. } => 0,
            Terminator::Return { .. } => 0,
        }
    }

    /// The argument at `p` of the edge at `k`.
    pub fn edge_arg(&self, k: usize, p: usize) -> (r: Value)
        requires
            k < self@.edges().len(),
            p < self@.edges()[k as int].args.len(),
        ensures
            r == self@.edges()[k as int].args[p as int],
    {
        match self {
            Terminator::Jump { args, .. } => args[p],
            Terminator::Branch { then_args, else_args, .. } => {
                if k == 0 {
                    then_args[p]
                } else {
                    else_args[p]
                }
            },
            // The edges of a table carry no argument, and a return has no edge.
            Terminator::MultiBranch { .. } => vstd::pervasive::unreached(),
            Terminator::Return { .. } => vstd::pervasive::unreached(),
        }
    }

    /// The values that the terminator reads, in order.
    pub fn operands(&self) -> (r: Vec<Value>)
        ensures
            r@ == self@.operands(),
    {
        let mut r: Vec<Value> = Vec::new();
        match self {
            Terminator::Jump { args, .. } => {
                append_values(&mut r, args);
            },
            Terminator::Branch { cond, then_args, else_args, .. } => {
                r.push(*cond);
                append_values(&mut r, then_args);
                append_values(&mut r, else_args);
            },
            Terminator::MultiBranch { index, .. } => {
                r.push(*index);
            },
            Terminator::Return { values } => {
                append_values(&mut r, values);
            },
        }
        assert(r@ =~= self@.operands());
        r
    }
}

impl Instruction {
    /// Whether the instruction is a terminator.
    pub fn is_terminator(&self) -> (r: bool)
        ensures
            r == self@.is_terminator(),
    {
        match self {
            Instruction::Pure { .. } => false,
            Instruction::Control { .. } => true,
        }
    }

    /// The values that the instruction reads, in order.
    pub fn operands(&self) -> (r: Vec<Value>)
        ensures
            r@ == self@.operands(),
    {
        match self {
            Instruction::Pure { op, .. } => {
                let mut r: Vec<Value> = Vec::new();
                match op {
                    Operation::Arith { lhs, rhs, .. } => {
                        r.push(*lhs);
                        r.push(*rhs);
                    },
                    _ => {},
                }
                assert(r@ =~= self@.operands());
                r
            },
            Instruction::Control { term } => term.operands(),
        }
    }

    /// The blocks that the instruction's edges lead to, in order.
    pub fn targets(&self) -> (r: Vec<BlockId>)
        ensures
            r@.len() == self@.edges().len(),
            forall|k: int| 0 <= k < r@.len() ==> r@[k] == #[trigger] self@.edges()[k].target,
    {
        match self {
            Instruction::Pure { .. } => Vec::new(),
            Instruction::Control { term } => term.targets(),
        }
    }
}

/// Appends the items of `more` to `out`.
pub(crate) fn append_values(out: &mut Vec<Value>, more: &Vec<Value>)
    ensures
        final(out)@ == old(out)@ + more@,
{
    let mut k: usize = 0;
    while k < more.len()
        invariant
            k <= more.len(),
            out@ == old(out)@ + more@.subrange(0, k as int),
        decreases more.len() - k,
    {
        out.push(more[k]);
        assert(more@.subrange(0, k + 1) =~= more@.subrange(0, k as int).push(more@[k as int]));
        assert(out@ =~= old(out)@ + more@.subrange(0, k + 1));
        k += 1;
    }
    assert(more@.subrange(0, more@.len() as int) =~= more@);
}

} // verus!
