use vstd::prelude::*;

use crate::types::{BlockId, Value};

verus! {

/// A defect in the shape of a graph, found while it is built or validated.
#[derive(Clone, Copy, Debug, PartialEq, Eq, Structural)]
pub enum StructuralError {
    /// The block is not a block of the graph.
    UnknownBlock { block: BlockId },
    /// The block is sealed and takes no further parameter or instruction.
    BlockSealed { block: BlockId },
    /// The block already has a terminator.
    BlockTerminated { block: BlockId },
    /// An instruction for `block` names a value that the graph has not defined.
    UnknownValue { block: BlockId, value: Value },
    /// A terminator for `block` would add a predecessor to the sealed `target`.
    TargetSealed { block: BlockId, target: BlockId },
    /// An operand of an arithmetic instruction for `block` has another type
    /// than the instruction.
    OperandType { block: BlockId, value: Value },
    /// The block was never sealed.
    Unsealed { block: BlockId },
    /// The instruction at `inst` is a terminator but not the last instruction
    /// of the block.
    EarlyTerminator { block: BlockId, inst: usize },
    /// The last instruction of the block is not a terminator.
    MissingTerminator { block: BlockId },
    /// The terminator at `inst` names a target that is not a block of the
    /// graph.
    UnknownTarget { block: BlockId, inst: usize, target: BlockId },
    /// An edge to `target` carries `found` arguments where the target has
    /// `expected` parameters.
    ArityMismatch { block: BlockId, inst: usize, target: BlockId, expected: usize, found: usize },
    /// The argument at `position` of an edge to `target` has another type
    /// than the parameter it is bound to.
    TypeMismatch { block: BlockId, inst: usize, target: BlockId, position: usize },
    /// The entry block has `count` parameters.
    EntryHasParameters { count: usize },
    /// No path of terminator edges leads from the entry to the block.
    Unreachable { block: BlockId },
    /// A return yields `found` values where the graph declares `expected`.
    ReturnArity { block: BlockId, inst: usize, expected: usize, found: usize },
    /// The value at `position` of a return has another type than declared.
    ReturnType { block: BlockId, inst: usize, position: usize },
}

/// A failure of one run of the interpreter. The graph stays usable.
#[derive(Clone, Copy, Debug, PartialEq, Eq, Structural)]
pub enum ExecutionError {
    /// The run was not over after the number of steps the caller allowed.
    StepLimitExceeded,
    /// An instruction read a value that no executed instruction or edge had
    /// defined.
    UndefinedValue { value: Value },
    /// An instruction asked for an input beyond those supplied.
    MissingInput { index: usize },
}

impl StructuralError {
    /// The text of `message()`.
    pub open spec fn message_text(self) -> Seq<char> {
        match self {
            StructuralError::UnknownBlock { .. } => "unknown block"@,
            StructuralError::BlockSealed { .. } => "block already sealed"@,
            StructuralError::BlockTerminated { .. } => "block already terminated"@,
            StructuralError::UnknownValue { .. } => "unknown value"@,
            StructuralError::TargetSealed { .. } => "target block already sealed"@,
            StructuralError::OperandType { .. } => "operand type mismatch"@,
            StructuralError::Unsealed { .. } => "block not sealed"@,
            StructuralError::EarlyTerminator { .. } => "terminator before the end of the block"@,
            StructuralError::MissingTerminator { .. } => "block not terminated"@,
            StructuralError::UnknownTarget { .. } => "unknown target block"@,
            StructuralError::ArityMismatch { .. } => "argument arity mismatch"@,
            StructuralError::TypeMismatch { .. } => "argument type mismatch"@,
            StructuralError::EntryHasParameters { .. } => "entry block has parameters"@,
            StructuralError::Unreachable { .. } => "unreachable block"@,
            StructuralError::ReturnArity { .. } => "return arity mismatch"@,
            StructuralError::ReturnType { .. } => "return type mismatch"@,
        }
    }

    /// A short description of the kind of defect.
    pub fn message(&self) -> (s: &'static str)
        ensures
            s@ == self.message_text(),
    {
        match self {
            StructuralError::UnknownBlock { .. } => "unknown block",
            StructuralError::BlockSealed { .. } => "block already sealed",
            StructuralError::BlockTerminated { .. } => "block already terminated",
            StructuralError::UnknownValue { .. } => "unknown value",
            StructuralError::TargetSealed { .. } => "target block already sealed",
            StructuralError::OperandType { .. } => "operand type mismatch",
            StructuralError::Unsealed { .. } => "block not sealed",
            StructuralError::EarlyTerminator { .. } => "terminator before the end of the block",
            StructuralError::MissingTerminator { .. } => "block not terminated",
            StructuralError::UnknownTarget { .. } => "unknown target block",
            StructuralError::ArityMismatch { .. } => "argument arity mismatch",
            StructuralError::TypeMismatch { .. } => "argument type mismatch",
            StructuralError::EntryHasParameters { .. } => "entry block has parameters",
            StructuralError::Unreachable { .. } => "unreachable block",
            StructuralError::ReturnArity { .. } => "return arity mismatch",
            StructuralError::ReturnType { .. } => "return type mismatch",
        }
    }

    /// The block that the defect was found in, where it lies in one.
    pub open spec fn block_of(self) -> Option<BlockId> {
        match self {
            StructuralError::UnknownBlock { block } => Some(block),
            StructuralError::BlockSealed { block } => Some(block),
            StructuralError::BlockTerminated { block } => Some(block),
            StructuralError::UnknownValue { block, .. } => Some(block),
            StructuralError::TargetSealed { block, .. } => Some(block),
            StructuralError::OperandType { block, .. } => Some(block),
            StructuralError::Unsealed { block } => Some(block),
            StructuralError::EarlyTerminator { block, .. } => Some(block),
            StructuralError::MissingTerminator { block } => Some(block),
            StructuralError::UnknownTarget { block, .. } => Some(block),
            StructuralError::ArityMismatch { block, .. } => Some(block),
            StructuralError::TypeMismatch { block, .. } => Some(block),
            StructuralError::EntryHasParameters { .. } => None,
            StructuralError::Unreachable { block } => Some(block),
            StructuralError::ReturnArity { block, .. } => Some(block),
            StructuralError::ReturnType { block, .. } => Some(block),
        }
    }

    /// The block that the defect was found in, where it lies in one.
    pub fn block(&self) -> (r: Option<BlockId>)
        ensures
            r == self.block_of(),
    {
        match self {
            StructuralError::UnknownBlock { block } => Some(*block),
            StructuralError::BlockSealed { block } => Some(*block),
            StructuralError::BlockTerminated { block } => Some(*block),
            StructuralError::UnknownValue { block, .. } => Some(*block),
            StructuralError::TargetSealed { block, .. } => Some(*block),
            StructuralError::OperandType { block, .. } => Some(*block),
            StructuralError::Unsealed { block } => Some(*block),
            StructuralError::EarlyTerminator { block, .. } => Some(*block),
            StructuralError::MissingTerminator { block } => Some(*block),
            StructuralError::UnknownTarget { block, .. } => Some(*block),
            StructuralError::ArityMismatch { block, .. } => Some(*block),
            StructuralError::TypeMismatch { block, .. } => Some(*block),
            StructuralError::EntryHasParameters { .. } => None,
            StructuralError::Unreachable { block } => Some(*block),
            StructuralError::ReturnArity { block, .. } => Some(*block),
            StructuralError::ReturnType { block, .. } => Some(*block),
        }
    }
}

impl ExecutionError {
    /// The text of `message()`.
    pub open spec fn message_text(self) -> Seq<char> {
        match self {
            ExecutionError::StepLimitExceeded => "step limit exceeded"@,
            ExecutionError::UndefinedValue { .. } => "undefined value"@,
            ExecutionError::MissingInput { .. } => "missing input"@,
        }
    }

    /// A short description of the kind of failure.
    pub fn message(&self) -> (s: &'static str)
        ensures
            s@ == self.message_text(),
    {
        match self {
            ExecutionError::StepLimitExceeded => "step limit exceeded",
            ExecutionError::UndefinedValue { .. } => "undefined value",
            ExecutionError::MissingInput { .. } => "missing input",
        }
    }
}

} // verus!
