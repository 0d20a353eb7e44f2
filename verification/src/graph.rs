use vstd::prelude::*;

use crate::error::StructuralError;
use crate::inst::{InstView, Instruction, Operation, Terminator, TerminatorView};
use crate::types::{ArithOp, BlockId, Type, Value};

verus! {

/// A block: formal parameters, then instructions in order.
#[derive(Debug)]
pub struct Block {
    params: Vec<Value>,
    insts: Vec<Instruction>,
    sealed: bool,
}

/// A function under construction: blocks, the type of each value, and the
/// types that a return must yield. The block at position 0 is the entry.
#[derive(Debug)]
pub struct FunctionGraph {
    blocks: Vec<Block>,
    types: Vec<Type>,
    returns: Vec<Type>,
}

/// The mathematical value of a `Block`.
pub struct BlockView {
    pub params: Seq<Value>,
    pub insts: Seq<InstView>,
    pub sealed: bool,
}

/// The mathematical value of a `FunctionGraph`. `types[n]` is the type of the
/// value with number `n`.
pub struct GraphView {
    pub blocks: Seq<BlockView>,
    pub types: Seq<Type>,
    pub returns: Seq<Type>,
}

/// A place where a value is defined.
pub enum Site {
    /// The parameter at `position` of the block at `block`.
    Param { block: int, position: int },
    /// The pure instruction at `inst` of the block at `block`.
    Result { block: int, inst: int },
}

impl BlockView {
    /// Whether the result of each pure instruction of the block is a value
    /// of the type that the instruction yields, by the table `types`.
    pub open spec fn typed_by(self, types: Seq<Type>) -> bool {
        forall|i: int|
            0 <= i < self.insts.len() ==> ((#[trigger] self.insts[i]) matches InstView::Pure {
                result,
                op,
            } ==> result.id() < types.len() && types[result.id() as int] == op.result_type())
    }

    /// Whether some instruction of the block is a terminator.
    pub open spec fn terminated(self) -> bool {
        exists|i: int| 0 <= i < self.insts.len() && (#[trigger] self.insts[i]).is_terminator()
    }

    /// Whether every value the block names has a number below `n`.
    pub open spec fn values_below(self, n: nat) -> bool {
        &&& forall|p: int| 0 <= p < self.params.len() ==> (#[trigger] self.params[p]).id() < n
        &&& forall|i: int| 0 <= i < self.insts.len() ==> (#[trigger] self.insts[i]).values_below(n)
    }

    pub open spec fn with_param(self, v: Value) -> BlockView {
        BlockView { params: self.params.push(v), ..self }
    }

    pub open spec fn with_inst(self, inst: InstView) -> BlockView {
        BlockView { insts: self.insts.push(inst), ..self }
    }

    pub open spec fn seal(self) -> BlockView {
        BlockView { sealed: true, ..self }
    }

    pub open spec fn empty() -> BlockView {
        BlockView { params: Seq::empty(), insts: Seq::empty(), sealed: false }
    }
}

impl GraphView {
    /// The graph right after its creation: an empty entry block, no value.
    pub open spec fn initial(returns: Seq<Type>) -> GraphView {
        GraphView { blocks: seq![BlockView::empty()], types: Seq::empty(), returns }
    }

    pub open spec fn has_block(self, b: BlockId) -> bool {
        b.id() < self.blocks.len()
    }

    pub open spec fn has_value(self, v: Value) -> bool {
        v.id() < self.types.len()
    }

    /// The block that the handle names.
    pub open spec fn block(self, b: BlockId) -> BlockView
        recommends
            self.has_block(b),
    {
        self.blocks[b.id() as int]
    }

    /// The type of a value.
    pub open spec fn type_of(self, v: Value) -> Type
        recommends
            self.has_value(v),
    {
        self.types[v.id() as int]
    }

    /// Whether `v` is defined at `site`.
    pub open spec fn defines(self, site: Site, v: Value) -> bool {
        match site {
            Site::Param { block, position } => {
                &&& 0 <= block < self.blocks.len()
                &&& 0 <= position < self.blocks[block].params.len()
                &&& self.blocks[block].params[position] == v
            },
            Site::Result { block, inst } => {
                &&& 0 <= block < self.blocks.len()
                &&& 0 <= inst < self.blocks[block].insts.len()
                &&& self.blocks[block].insts[inst] matches InstView::Pure { result, .. }
                &&& result == v
            },
        }
    }

    /// The result of each pure instruction has the type that the instruction
    /// yields.
    #[verifier::opaque]
    pub open spec fn typed(self) -> bool {
        forall|b: int| 0 <= b < self.blocks.len() ==> (#[trigger] self.blocks[b]).typed_by(self.types)
    }

    /// Each value of the graph is defined at exactly one place.
    #[verifier::opaque]
    pub open spec fn defined_once(self) -> bool {
        &&& forall|v: Value| #[trigger] self.has_value(v) ==> exists|site: Site| self.defines(site, v)
        &&& forall|s1: Site, s2: Site, v: Value|
            #[trigger] self.defines(s1, v) && #[trigger] self.defines(s2, v) ==> s1 == s2
    }

    /// There is an entry block, and no more blocks than a machine counts;
    /// every value that a block names is a value of the graph; each value is defined exactly once, as a parameter or as
    /// the result of a pure instruction; and a result has the type that its
    /// instruction yields.
    pub open spec fn well_formed(self) -> bool {
        &&& 1 <= self.blocks.len() <= usize::MAX
        &&& forall|b: int|
            0 <= b < self.blocks.len() ==> (#[trigger] self.blocks[b]).values_below(
                self.types.len(),
            )
        &&& self.typed()
        &&& self.defined_once()
    }

    pub open spec fn with_block(self) -> GraphView {
        GraphView { blocks: self.blocks.push(BlockView::empty()), ..self }
    }

    /// The graph with the new value `v` of type `ty` as last parameter of `b`.
    pub open spec fn with_param(self, b: BlockId, v: Value, ty: Type) -> GraphView {
        GraphView {
            blocks: self.blocks.update(b.id() as int, self.block(b).with_param(v)),
            types: self.types.push(ty),
            ..self
        }
    }

    /// The graph with `term` as last instruction of `b`.
    pub open spec fn with_terminator(self, b: BlockId, term: TerminatorView) -> GraphView {
        GraphView {
            blocks: self.blocks.update(
                b.id() as int,
                self.block(b).with_inst(InstView::Control { term }),
            ),
            ..self
        }
    }

    /// The graph with `op` as last instruction of `b`, defining the new value
    /// `v`.
    pub open spec fn with_operation(self, b: BlockId, v: Value, op: Operation) -> GraphView {
        GraphView {
            blocks: self.blocks.update(
                b.id() as int,
                self.block(b).with_inst(InstView::Pure { result: v, op }),
            ),
            types: self.types.push(op.result_type()),
            ..self
        }
    }

    pub open spec fn with_sealed(self, b: BlockId) -> GraphView {
        GraphView { blocks: self.blocks.update(b.id() as int, self.block(b).seal()), ..self }
    }

    /// The graph with every block sealed.
    pub open spec fn all_sealed(self) -> GraphView {
        GraphView { blocks: Seq::new(self.blocks.len(), |b: int| self.blocks[b].seal()), ..self }
    }
}

impl GraphView {
    /// The first of `values`, from position `from` on, that is no value of
    /// the graph.
    pub open spec fn first_unknown(self, values: Seq<Value>, from: int) -> Option<Value>
        decreases values.len() - from,
    {
        if from < 0 || from >= values.len() {
            None
        } else if !self.has_value(values[from]) {
            Some(values[from])
        } else {
            self.first_unknown(values, from + 1)
        }
    }

    /// The first of `targets`, from position `from` on, that is a sealed
    /// block of the graph.
    pub open spec fn first_sealed(self, targets: Seq<BlockId>, from: int) -> Option<BlockId>
        decreases targets.len() - from,
    {
        if from < 0 || from >= targets.len() {
            None
        } else if self.has_block(targets[from]) && self.block(targets[from]).sealed {
            Some(targets[from])
        } else {
            self.first_sealed(targets, from + 1)
        }
    }

    /// Why an instruction with these operands and targets cannot be appended
    /// to `block`, if it cannot. With `open_only` a block that has a
    /// terminator takes nothing more.
    pub open spec fn refusal(
        self,
        block: BlockId,
        operands: Seq<Value>,
        targets: Seq<BlockId>,
        open_only: bool,
    ) -> Option<StructuralError> {
        if !self.has_block(block) {
            Some(StructuralError::UnknownBlock { block })
        } else if self.block(block).sealed {
            Some(StructuralError::BlockSealed { block })
        } else if open_only && self.block(block).terminated() {
            Some(StructuralError::BlockTerminated { block })
        } else if let Some(value) = self.first_unknown(operands, 0) {
            Some(StructuralError::UnknownValue { block, value })
        } else if let Some(target) = self.first_sealed(targets, 0) {
            Some(StructuralError::TargetSealed { block, target })
        } else {
            None
        }
    }

    /// The first operand of an arithmetic operation whose type is not the
    /// operation's.
    pub open spec fn mistyped_operand(self, op: Operation) -> Option<Value> {
        match op {
            Operation::Arith { ty, lhs, rhs, .. } => {
                if self.type_of(lhs) != ty {
                    Some(lhs)
                } else if self.type_of(rhs) != ty {
                    Some(rhs)
                } else {
                    None
                }
            },
            _ => None,
        }
    }

    /// Why `op` cannot be appended to `block`, if it cannot.
    pub open spec fn operation_refusal(self, block: BlockId, op: Operation, open_only: bool) -> Option<
        StructuralError,
    > {
        match self.refusal(block, op.operands(), Seq::empty(), open_only) {
            Some(e) => Some(e),
            None => match self.mistyped_operand(op) {
                Some(value) => Some(StructuralError::OperandType { block, value }),
                None => None,
            },
        }
    }

    /// Why `term` cannot be appended to `block`, if it cannot.
    pub open spec fn terminator_refusal(
        self,
        block: BlockId,
        term: TerminatorView,
        open_only: bool,
    ) -> Option<StructuralError> {
        self.refusal(block, term.operands(), term.targets(), open_only)
    }

    /// What appending `op` to `block` gives: either the refusal and the
    /// graph as it was, or a new value and the graph with the instruction.
    pub open spec fn operation_appended(
        self,
        block: BlockId,
        op: Operation,
        open_only: bool,
        r: Result<Value, StructuralError>,
        after: GraphView,
    ) -> bool {
        match self.operation_refusal(block, op, open_only) {
            Some(e) => r == Err::<Value, StructuralError>(e) && after == self,
            None => r is Ok && r.unwrap().id() == self.types.len() && after == self.with_operation(
                block,
                r.unwrap(),
                op,
            ),
        }
    }

    /// What appending `term` to `block` gives: either the refusal and the
    /// graph as it was, or the graph with the instruction.
    pub open spec fn terminator_appended(
        self,
        block: BlockId,
        term: TerminatorView,
        open_only: bool,
        r: Result<(), StructuralError>,
        after: GraphView,
    ) -> bool {
        match self.terminator_refusal(block, term, open_only) {
            Some(e) => r == Err::<(), StructuralError>(e) && after == self,
            None => r is Ok && after == self.with_terminator(block, term),
        }
    }

    /// The arithmetic operation on `lhs` and `rhs` at the type of `lhs`.
    pub open spec fn arith(self, op: ArithOp, lhs: Value, rhs: Value) -> Operation {
        Operation::Arith { op, ty: self.type_of(lhs), lhs, rhs }
    }
}

impl View for Block {
    type V = BlockView;

    closed spec fn view(&self) -> BlockView {
        BlockView {
            params: self.params@,
            insts: self.insts@.map_values(|i: Instruction| i@),
            sealed: self.sealed,
        }
    }
}

impl View for FunctionGraph {
    type V = GraphView;

    closed spec fn view(&self) -> GraphView {
        GraphView {
            blocks: self.blocks@.map_values(|b: Block| b@),
            types: self.types@,
            returns: self.returns@,
        }
    }
}

impl Block {
    /// Whether the block is sealed.
    pub fn is_sealed(&self) -> (r: bool)
        ensures
            r == self@.sealed,
    {
        self.sealed
    }

    /// The parameters of the block, in order.
    pub fn params(&self) -> (r: &Vec<Value>)
        ensures
            r@ == self@.params,
    {
        &self.params
    }

    /// The number of instructions of the block.
    pub fn len(&self) -> (r: usize)
        ensures
            r == self@.insts.len(),
    {
        self.insts.len()
    }

    /// The instruction at position `i`.
    pub fn inst(&self, i: usize) -> (r: &Instruction)
        requires
            i < self@.insts.len(),
        ensures
            r@ == self@.insts[i as int],
    {
        &self.insts[i]
    }

    /// Whether some instruction of the block is a terminator.
    pub fn is_terminated(&self) -> (r: bool)
        ensures
            r == self@.terminated(),
    {
        let mut i: usize = 0;
        while i < self.insts.len()
            invariant
                i <= self.insts.len(),
                forall|j: int| 0 <= j < i ==> !(#[trigger] self@.insts[j]).is_terminator(),
            decreases self.insts.len() - i,
        {
            if self.insts[i].is_terminator() {
                assert(self@.insts[i as int].is_terminator());
                return true;
            }
            i += 1;
        }
        false
    }
}

impl FunctionGraph {
    /// The invariant of the type: `well_formed()` of the view.
    pub open spec fn wf(&self) -> bool {
        self@.well_formed()
    }

    /// A graph with the declared return types and an empty entry block.
    pub fn new(returns: Vec<Type>) -> (g: FunctionGraph)
        ensures
            g.wf(),
            g@ == GraphView::initial(returns@),
    {
        let mut blocks: Vec<Block> = Vec::new();
        blocks.push(Block { params: Vec::new(), insts: Vec::new(), sealed: false });
        let g = FunctionGraph { blocks, types: Vec::new(), returns };
        assert(g@.blocks =~= seq![BlockView::empty()]) by {
            assert(g@.blocks[0].insts =~= Seq::empty());
        }
        assert(g@.types =~= Seq::empty());
        proof {
            reveal(GraphView::defined_once);
            reveal(GraphView::typed);
        }
        g
    }

    /// The entry block.
    pub fn entry(&self) -> (b: BlockId)
        ensures
            b.id() == 0,
    {
        BlockId::from_index(0)
    }

    /// The number of blocks.
    pub fn block_count(&self) -> (r: usize)
        ensures
            r == self@.blocks.len(),
    {
        self.blocks.len()
    }

    /// The number of values.
    pub fn value_count(&self) -> (r: usize)
        ensures
            r == self@.types.len(),
    {
        self.types.len()
    }

    /// The handle of the block at position `index`, if there is one.
    pub fn block_id(&self, index: usize) -> (r: Option<BlockId>)
        ensures
            index < self@.blocks.len() ==> r is Some && r.unwrap().id() == index,
            index >= self@.blocks.len() ==> r is None,
    {
        if index < self.blocks.len() {
            Some(BlockId::from_index(index))
        } else {
            None
        }
    }

    /// The block that `b` names.
    pub fn block(&self, b: BlockId) -> (r: &Block)
        requires
            self@.has_block(b),
        ensures
            r@ == self@.block(b),
    {
        &self.blocks[b.index()]
    }

    /// The type of the value `v`.
    pub fn value_type(&self, v: Value) -> (r: Type)
        requires
            self@.has_value(v),
        ensures
            r == self@.type_of(v),
    {
        self.types[v.index()]
    }

    /// The types that a return must yield.
    pub fn return_types(&self) -> (r: &Vec<Type>)
        ensures
            r@ == self@.returns,
    {
        &self.returns
    }

    /// Whether `b` names a block of this graph.
    pub fn has_block(&self, b: BlockId) -> (r: bool)
        ensures
            r == self@.has_block(b),
    {
        b.index() < self.blocks.len()
    }

    /// Whether `v` names a value of this graph.
    pub fn has_value(&self, v: Value) -> (r: bool)
        ensures
            r == self@.has_value(v),
    {
        v.index() < self.types.len()
    }

    /// Adds an empty, unsealed block.
    pub fn create_block(&mut self) -> (b: BlockId)
        requires
            old(self).wf(),
        ensures
            final(self).wf(),
            b.id() == old(self)@.blocks.len(),
            final(self)@ == old(self)@.with_block(),
    {
        let b = BlockId::from_index(self.blocks.len());
        self.blocks.push(Block { params: Vec::new(), insts: Vec::new(), sealed: false });
        proof {
            assert(self.blocks@.last()@.insts =~= Seq::empty());
            assert(self@.blocks =~= old(self)@.with_block().blocks);
            assert(self@.blocks.len() == self.blocks.len());
            old(self)@.lemma_same_definitions(self@);
        }
        b
    }

    /// Adds a parameter of type `ty` to `block` and returns the value that
    /// stands for it. Fails on a block that is unknown or sealed.
    pub fn append_parameter(&mut self, block: BlockId, ty: Type) -> (r: Result<
        Value,
        StructuralError,
    >)
        requires
            old(self).wf(),
        ensures
            final(self).wf(),
            !old(self)@.has_block(block) ==> r == Err::<Value, StructuralError>(
                StructuralError::UnknownBlock { block },
            ),
            old(self)@.has_block(block) && old(self)@.block(block).sealed ==> r == Err::<
                Value,
                StructuralError,
            >(StructuralError::BlockSealed { block }),
            r is Err ==> final(self)@ == old(self)@,
            old(self)@.has_block(block) && !old(self)@.block(block).sealed ==> r is Ok
                && r.unwrap().id() == old(self)@.types.len() && final(self)@ == old(
                self,
            )@.with_param(block, r.unwrap(), ty),
    {
        if !self.has_block(block) {
            return Err(StructuralError::UnknownBlock { block });
        }
        let b = block.index();
        if self.blocks[b].sealed {
            return Err(StructuralError::BlockSealed { block });
        }
        let v = Value::from_index(self.types.len());
        self.types.push(ty);
        self.blocks[b].params.push(v);
        proof {
            assert(self@.blocks =~= old(self)@.with_param(block, v, ty).blocks);
            assert(self@ == old(self)@.with_param(block, v, ty));
            old(self)@.lemma_with_param_well_formed(block, v, ty);
        }
        Ok(v)
    }

    #[verifier::loop_isolation(false)]
    fn check(
        &self,
        block: BlockId,
        operands: &Vec<Value>,
        targets: &Vec<BlockId>,
        open_only: bool,
    ) -> (r: Option<StructuralError>)
        ensures
            r == self@.refusal(block, operands@, targets@, open_only),
    {
        if !self.has_block(block) {
            return Some(StructuralError::UnknownBlock { block });
        }
        let here = self.block(block);
        if here.is_sealed() {
            return Some(StructuralError::BlockSealed { block });
        }
        if open_only && here.is_terminated() {
            return Some(StructuralError::BlockTerminated { block });
        }
        let mut k: usize = 0;
        while k < operands.len()
            invariant
                k <= operands.len(),
                self@.first_unknown(operands@, 0) == self@.first_unknown(operands@, k as int),
            decreases operands.len() - k,
        {
            if !self.has_value(operands[k]) {
                return Some(StructuralError::UnknownValue { block, value: operands[k] });
            }
            k += 1;
        }
        let mut j: usize = 0;
        while j < targets.len()
            invariant
                j <= targets.len(),
                self@.first_sealed(targets@, 0) == self@.first_sealed(targets@, j as int),
            decreases targets.len() - j,
        {
            let t = targets[j];
            if self.has_block(t) && self.block(t).is_sealed() {
                return Some(StructuralError::TargetSealed { block, target: t });
            }
            j += 1;
        }
        None
    }

    fn place_operation(&mut self, block: BlockId, op: Operation, open_only: bool) -> (r: Result<
        Value,
        StructuralError,
    >)
        requires
            old(self).wf(),
        ensures
            final(self).wf(),
            old(self)@.operation_appended(block, op, open_only, r, final(self)@),
    {
        let mut operands: Vec<Value> = Vec::new();
        match op {
            Operation::Arith { lhs, rhs, .. } => {
                operands.push(lhs);
                operands.push(rhs);
            },
            _ => {},
        }
        assert(operands@ =~= op.operands());
        let targets: Vec<BlockId> = Vec::new();
        assert(targets@ =~= Seq::<BlockId>::empty());
        if let Some(e) = self.check(block, &operands, &targets, open_only) {
            return Err(e);
        }
        proof {
            self@.lemma_no_unknown(op.operands(), 0);
        }
        match op {
            Operation::Arith { ty, lhs, rhs, .. } => {
                assert(op.operands()[0] == lhs && op.operands()[1] == rhs);
                if self.value_type(lhs) != ty {
                    return Err(StructuralError::OperandType { block, value: lhs });
                }
                if self.value_type(rhs) != ty {
                    return Err(StructuralError::OperandType { block, value: rhs });
                }
            },
            _ => {},
        }
        let b = block.index();
        let v = Value::from_index(self.types.len());
        self.types.push(op.ty());
        self.blocks[b].insts.push(Instruction::Pure { result: v, op });
        proof {
            let inst = InstView::Pure { result: v, op };
            assert(self.blocks[b as int]@.insts =~= old(self).blocks[b as int]@.insts.push(inst));
            assert(self@.blocks =~= old(self)@.with_operation(block, v, op).blocks);
            assert(self@ == old(self)@.with_operation(block, v, op));
            assert(inst.values_below(self@.types.len()));
            old(self)@.lemma_with_operation_well_formed(block, v, op);
        }
        Ok(v)
    }

    fn place_terminator(&mut self, block: BlockId, term: Terminator, open_only: bool) -> (r: Result<
        (),
        StructuralError,
    >)
        requires
            old(self).wf(),
        ensures
            final(self).wf(),
            old(self)@.terminator_appended(block, term@, open_only, r, final(self)@),
    {
        let operands = term.operands();
        let targets = term.targets();
        if let Some(e) = self.check(block, &operands, &targets, open_only) {
            return Err(e);
        }
        proof {
            self@.lemma_no_unknown(term@.operands(), 0);
        }
        let b = block.index();
        let ghost inst = InstView::Control { term: term@ };
        self.blocks[b].insts.push(Instruction::Control { term });
        proof {
            assert(self.blocks[b as int]@.insts =~= old(self).blocks[b as int]@.insts.push(inst));
            assert(self@.blocks =~= old(self)@.with_terminator(block, term@).blocks);
            assert(self@ == old(self)@.with_terminator(block, term@));
            assert(inst.values_below(self@.types.len()));
            old(self)@.lemma_with_terminator_well_formed(block, term@);
        }
        Ok(())
    }

    /// Appends the pure operation `op` to `block`, whether or not the block
    /// has a terminator already, and returns the value that it defines.
    /// Fails as `operation_refusal` says.
    pub fn append_operation(&mut self, block: BlockId, op: Operation) -> (r: Result<
        Value,
        StructuralError,
    >)
        requires
            old(self).wf(),
        ensures
            final(self).wf(),
            old(self)@.operation_appended(block, op, false, r, final(self)@),
    {
        self.place_operation(block, op, false)
    }

    /// Appends the terminator `term` to `block`, whether or not the block has
    /// a terminator already. Fails as `terminator_refusal` says.
    pub fn append_terminator(&mut self, block: BlockId, term: Terminator) -> (r: Result<
        (),
        StructuralError,
    >)
        requires
            old(self).wf(),
        ensures
            final(self).wf(),
            old(self)@.terminator_appended(block, term@, false, r, final(self)@),
    {
        self.place_terminator(block, term, false)
    }

    /// Appends a constant of type `ty` to the open block `block`.
    pub fn emit_constant(&mut self, block: BlockId, ty: Type, literal: i64) -> (r: Result<
        Value,
        StructuralError,
    >)
        requires
            old(self).wf(),
        ensures
            final(self).wf(),
            old(self)@.operation_appended(
                block,
                (Operation::Const { ty, literal }),
                true,
                r,
                final(self)@,
            ),
    {
        self.place_operation(block, Operation::Const { ty, literal }, true)
    }

    /// Appends a read of the input at `index`, at type `ty`, to the open
    /// block `block`.
    pub fn emit_input(&mut self, block: BlockId, ty: Type, index: usize) -> (r: Result<
        Value,
        StructuralError,
    >)
        requires
            old(self).wf(),
        ensures
            final(self).wf(),
            old(self)@.operation_appended(
                block,
                (Operation::Input { ty, index }),
                true,
                r,
                final(self)@,
            ),
    {
        self.place_operation(block, Operation::Input { ty, index }, true)
    }

    /// Appends `lhs op rhs`, at the type of `lhs`, to the open block `block`.
    pub fn emit_arithmetic(&mut self, block: BlockId, op: ArithOp, lhs: Value, rhs: Value) -> (r:
        Result<Value, StructuralError>)
        requires
            old(self).wf(),
        ensures
            final(self).wf(),
            old(self)@.operation_appended(
                block,
                old(self)@.arith(op, lhs, rhs),
                true,
                r,
                final(self)@,
            ),
    {
        if self.has_value(lhs) {
            let ty = self.value_type(lhs);
            self.place_operation(block, Operation::Arith { op, ty, lhs, rhs }, true)
        } else {
            let stand_in = Operation::Arith { op, ty: Type::I64, lhs, rhs };
            proof {
                let wanted = self@.arith(op, lhs, rhs);
                assert(stand_in.operands() =~= wanted.operands());
                assert(self@.first_unknown(wanted.operands(), 0) is Some);
            }
            self.place_operation(block, stand_in, true)
        }
    }

    /// Ends the open block `block` with a jump to `target`.
    pub fn emit_jump(&mut self, block: BlockId, target: BlockId, args: Vec<Value>) -> (r: Result<
        (),
        StructuralError,
    >)
        requires
            old(self).wf(),
        ensures
            final(self).wf(),
            old(self)@.terminator_appended(
                block,
                (TerminatorView::Jump { target, args: args@ }),
                true,
                r,
                final(self)@,
            ),
    {
        self.place_terminator(block, Terminator::Jump { target, args }, true)
    }

    /// Ends the open block `block` with a two-way branch on `cond`.
    pub fn emit_branch(
        &mut self,
        block: BlockId,
        cond: Value,
        then_target: BlockId,
        then_args: Vec<Value>,
        else_target: BlockId,
        else_args: Vec<Value>,
    ) -> (r: Result<(), StructuralError>)
        requires
            old(self).wf(),
        ensures
            final(self).wf(),
            old(self)@.terminator_appended(
                block,
                (TerminatorView::Branch {
                    cond,
                    then_target,
                    then_args: then_args@,
                    else_target,
                    else_args: else_args@,
                }),
                true,
                r,
                final(self)@,
            ),
    {
        self.place_terminator(
            block,
            Terminator::Branch { cond, then_target, then_args, else_target, else_args },
            true,
        )
    }

    /// Ends the open block `block` with a multi-way branch on `index`.
    pub fn emit_multi_branch(
        &mut self,
        block: BlockId,
        index: Value,
        default_target: BlockId,
        targets: Vec<BlockId>,
    ) -> (r: Result<(), StructuralError>)
        requires
            old(self).wf(),
        ensures
            final(self).wf(),
            old(self)@.terminator_appended(
                block,
                (TerminatorView::MultiBranch { index, default_target, targets: targets@ }),
                true,
                r,
                final(self)@,
            ),
    {
        self.place_terminator(
            block,
            Terminator::MultiBranch { index, default_target, targets },
            true,
        )
    }

    /// Ends the open block `block` with a return of `values`.
    pub fn emit_return(&mut self, block: BlockId, values: Vec<Value>) -> (r: Result<
        (),
        StructuralError,
    >)
        requires
            old(self).wf(),
        ensures
            final(self).wf(),
            old(self)@.terminator_appended(
                block,
                (TerminatorView::Return { values: values@ }),
                true,
                r,
                final(self)@,
            ),
    {
        self.place_terminator(block, Terminator::Return { values }, true)
    }

    /// Seals `block`: from now on it takes no parameter, no instruction and
    /// no new predecessor. Fails on an unknown block.
    pub fn seal(&mut self, block: BlockId) -> (r: Result<(), StructuralError>)
        requires
            old(self).wf(),
        ensures
            final(self).wf(),
            !old(self)@.has_block(block) ==> r == Err::<(), StructuralError>(
                StructuralError::UnknownBlock { block },
            ) && final(self)@ == old(self)@,
            old(self)@.has_block(block) ==> r is Ok && final(self)@ == old(self)@.with_sealed(
                block,
            ),
    {
        if !self.has_block(block) {
            return Err(StructuralError::UnknownBlock { block });
        }
        let b = block.index();
        self.blocks[b].sealed = true;
        proof {
            assert(self@.blocks =~= old(self)@.with_sealed(block).blocks);
            old(self)@.lemma_same_definitions(self@);
        }
        Ok(())
    }

    /// Seals every block.
    pub fn seal_all(&mut self)
        requires
            old(self).wf(),
        ensures
            final(self).wf(),
            final(self)@ == old(self)@.all_sealed(),
    {
        let mut b: usize = 0;
        while b < self.blocks.len()
            invariant
                b <= self.blocks.len(),
                self.blocks.len() == old(self).blocks.len(),
                self.types == old(self).types,
                self.returns == old(self).returns,
                forall|c: int| 0 <= c < b ==> (#[trigger] self.blocks[c])@ == old(self).blocks[c]@.seal(),
                forall|c: int| b <= c < self.blocks.len() ==> (#[trigger] self.blocks[c]) == old(self).blocks[c],
            decreases self.blocks.len() - b,
        {
            self.blocks[b].sealed = true;
            b += 1;
        }
        proof {
            assert(self@.blocks =~= old(self)@.all_sealed().blocks);
            old(self)@.lemma_same_definitions(self@);
        }
    }
}

impl InstView {
    /// Raising the bound keeps `values_below`.
    pub proof fn lemma_values_below_mono(self, n: nat, m: nat)
        requires
            self.values_below(n),
            n <= m,
        ensures
            self.values_below(m),
    {
    }
}

impl BlockView {
    /// Raising the bound keeps `values_below`.
    pub proof fn lemma_values_below_mono(self, n: nat, m: nat)
        requires
            self.values_below(n),
            n <= m,
        ensures
            self.values_below(m),
    {
        assert forall|i: int| 0 <= i < self.insts.len() implies (#[trigger] self.insts[i]).values_below(m) by {
            self.insts[i].lemma_values_below_mono(n, m);
        }
    }
}

impl GraphView {
    /// Where no value is unknown from `from` on, each of them is a value of
    /// the graph.
    pub proof fn lemma_no_unknown(self, values: Seq<Value>, from: int)
        requires
            0 <= from,
            self.first_unknown(values, from) is None,
        ensures
            forall|k: int| from <= k < values.len() ==> self.has_value(#[trigger] values[k]),
        decreases values.len() - from,
    {
        if from < values.len() {
            self.lemma_no_unknown(values, from + 1);
        }
    }

    /// Where each of the values from `from` on is a value of the graph, none
    /// of them is unknown.
    pub proof fn lemma_all_known(self, values: Seq<Value>, from: int)
        requires
            0 <= from,
            forall|k: int| from <= k < values.len() ==> self.has_value(#[trigger] values[k]),
        ensures
            self.first_unknown(values, from) is None,
        decreases values.len() - from,
    {
        if from < values.len() {
            self.lemma_all_known(values, from + 1);
        }
    }

    /// Where none of the targets from `from` on is a sealed block, the first
    /// sealed one is none.
    pub proof fn lemma_none_sealed(self, targets: Seq<BlockId>, from: int)
        requires
            0 <= from,
            forall|k: int|
                from <= k < targets.len() ==> !(self.has_block(#[trigger] targets[k]) && self.block(
                    targets[k],
                ).sealed),
        ensures
            self.first_sealed(targets, from) is None,
        decreases targets.len() - from,
    {
        if from < targets.len() {
            self.lemma_none_sealed(targets, from + 1);
        }
    }

    /// An unsealed block of the graph takes an instruction whose operands
    /// are values of the graph and whose targets are not sealed; with
    /// `open_only`, where the block has no terminator yet.
    pub proof fn lemma_accepted(
        self,
        block: BlockId,
        operands: Seq<Value>,
        targets: Seq<BlockId>,
        open_only: bool,
    )
        requires
            self.has_block(block),
            !self.block(block).sealed,
            open_only ==> !self.block(block).terminated(),
            forall|k: int| 0 <= k < operands.len() ==> self.has_value(#[trigger] operands[k]),
            forall|k: int|
                0 <= k < targets.len() ==> !(self.has_block(#[trigger] targets[k]) && self.block(
                    targets[k],
                ).sealed),
        ensures
            self.refusal(block, operands, targets, open_only) is None,
    {
        self.lemma_all_known(operands, 0);
        self.lemma_none_sealed(targets, 0);
    }

    /// A value that is defined somewhere is a value of the graph.
    pub proof fn lemma_defined_is_value(self, site: Site, v: Value)
        requires
            self.well_formed(),
            self.defines(site, v),
        ensures
            self.has_value(v),
    {
        match site {
            Site::Param { block, position } => {
                assert(self.blocks[block].values_below(self.types.len()));
            },
            Site::Result { block, inst } => {
                assert(self.blocks[block].values_below(self.types.len()));
                assert(self.blocks[block].insts[inst].values_below(self.types.len()));
            },
        }
    }

    /// A value of the graph has a definition.
    pub proof fn lemma_has_definition(self, v: Value)
        requires
            self.well_formed(),
            self.has_value(v),
        ensures
            exists|site: Site| self.defines(site, v),
    {
        reveal(GraphView::defined_once);
    }

    /// A value has no more than one definition.
    pub proof fn lemma_one_definition(self, s1: Site, s2: Site, v: Value)
        requires
            self.well_formed(),
            self.defines(s1, v),
            self.defines(s2, v),
        ensures
            s1 == s2,
    {
        reveal(GraphView::defined_once);
    }

    /// The result of a pure instruction has the type that the instruction
    /// yields.
    pub proof fn lemma_result_type(self, b: int, i: int)
        requires
            self.well_formed(),
            0 <= b < self.blocks.len(),
            0 <= i < self.blocks[b].insts.len(),
            self.blocks[b].insts[i] is Pure,
        ensures
            self.has_value(self.blocks[b].insts[i]->result),
            self.type_of(self.blocks[b].insts[i]->result) == self.blocks[b].insts[i]->op.result_type(),
    {
        reveal(GraphView::typed);
        assert(self.blocks[b].typed_by(self.types));
    }

    /// A graph stays well formed where it grows by blocks and instructions
    /// that keep the definitions but for at most one, of a new value.
    proof fn lemma_grown(self, after: GraphView, fresh: Option<(Site, Value)>)
        requires
            self.well_formed(),
            self.blocks.len() <= after.blocks.len() <= usize::MAX,
            forall|b: int|
                0 <= b < after.blocks.len() ==> (#[trigger] after.blocks[b]).values_below(
                    after.types.len(),
                ),
            forall|b: int| 0 <= b < after.blocks.len() ==> (#[trigger] after.blocks[b]).typed_by(after.types),
            forall|s: Site, v: Value|
                #[trigger] after.defines(s, v) <==> self.defines(s, v) || fresh == Some((s, v)),
            match fresh {
                Some((s, v)) => v.id() == self.types.len() && after.types.len() == self.types.len()
                    + 1,
                None => after.types.len() == self.types.len(),
            },
        ensures
            after.well_formed(),
    {
        reveal(GraphView::defined_once);
        reveal(GraphView::typed);
        assert forall|v: Value| #[trigger] after.has_value(v) implies exists|site: Site|
            after.defines(site, v) by {
            if v.id() < self.types.len() {
                assert(self.has_value(v));
                let site = choose|site: Site| self.defines(site, v);
                assert(after.defines(site, v));
            } else {
                let (site, w) = fresh.unwrap();
                Value::lemma_id_determines(v, w);
                assert(after.defines(site, v));
            }
        }
        assert forall|s1: Site, s2: Site, v: Value|
            #[trigger] after.defines(s1, v) && #[trigger] after.defines(s2, v) implies s1 == s2 by {
            if self.defines(s1, v) {
                self.lemma_defined_is_value(s1, v);
            }
            if self.defines(s2, v) {
                self.lemma_defined_is_value(s2, v);
            }
        }
    }

    /// A graph stays well formed where its blocks keep their parameters and
    /// instructions, its values stay as they are, and new blocks are empty.
    proof fn lemma_same_definitions(self, after: GraphView)
        requires
            self.well_formed(),
            after.types == self.types,
            self.blocks.len() <= after.blocks.len() <= usize::MAX,
            forall|b: int|
                0 <= b < self.blocks.len() ==> (#[trigger] after.blocks[b]).params
                    == self.blocks[b].params && after.blocks[b].insts == self.blocks[b].insts,
            forall|b: int|
                self.blocks.len() <= b < after.blocks.len() ==> (#[trigger] after.blocks[b]).params.len()
                    == 0 && after.blocks[b].insts.len() == 0,
        ensures
            after.well_formed(),
    {
        reveal(GraphView::typed);
        assert forall|b: int| 0 <= b < after.blocks.len() implies (#[trigger] after.blocks[b]).values_below(
            after.types.len(),
        ) by {
            if b < self.blocks.len() {
                assert(self.blocks[b].values_below(self.types.len()));
            }
        }
        assert forall|b: int| 0 <= b < after.blocks.len() implies (#[trigger] after.blocks[b]).typed_by(
            after.types,
        ) by {
            if b < self.blocks.len() {
                assert(self.blocks[b].typed_by(self.types));
            }
        }
        assert forall|s: Site, v: Value| #[trigger] after.defines(s, v) <==> self.defines(s, v) by {
            let block = match s {
                Site::Param { block, .. } => block,
                Site::Result { block, .. } => block,
            };
            if 0 <= block < after.blocks.len() {
                // Names the block, of which the premises speak.
                assert(after.blocks[block].params.len() >= 0);
            }
        }
        self.lemma_grown(after, None);
    }

    proof fn lemma_with_operation_well_formed(self, b: BlockId, v: Value, op: Operation)
        requires
            self.well_formed(),
            self.has_block(b),
            v.id() == self.types.len(),
            (InstView::Pure { result: v, op }).values_below(self.types.len() + 1),
        ensures
            self.with_operation(b, v, op).well_formed(),
    {
        reveal(GraphView::typed);
        let after = self.with_operation(b, v, op);
        let at = b.id() as int;
        let site = Site::Result { block: at, inst: self.blocks[at].insts.len() as int };
        assert forall|c: int| 0 <= c < after.blocks.len() implies (#[trigger] after.blocks[c]).values_below(
            after.types.len(),
        ) by {
            self.blocks[c].lemma_values_below_mono(self.types.len(), after.types.len());
        }
        assert forall|c: int| 0 <= c < after.blocks.len() implies (#[trigger] after.blocks[c]).typed_by(
            after.types,
        ) by {
            assert(self.blocks[c].typed_by(self.types));
        }
        assert forall|s: Site, w: Value|
            #[trigger] after.defines(s, w) <==> self.defines(s, w) || Some((site, v)) == Some(
                (s, w),
            ) by {
            match s {
                Site::Param { block, position } => {
                    if 0 <= block < after.blocks.len() {
                        assert(after.blocks[block].params == self.blocks[block].params);
                    }
                },
                Site::Result { block, inst } => {
                    if 0 <= block < after.blocks.len() && block != at {
                        assert(after.blocks[block].insts == self.blocks[block].insts);
                    }
                },
            }
        }
        self.lemma_grown(after, Some((site, v)));
    }

    proof fn lemma_with_terminator_well_formed(self, b: BlockId, term: TerminatorView)
        requires
            self.well_formed(),
            self.has_block(b),
            (InstView::Control { term }).values_below(self.types.len()),
        ensures
            self.with_terminator(b, term).well_formed(),
    {
        reveal(GraphView::typed);
        let after = self.with_terminator(b, term);
        let at = b.id() as int;
        assert forall|c: int| 0 <= c < after.blocks.len() implies (#[trigger] after.blocks[c]).values_below(
            after.types.len(),
        ) by {
            assert(self.blocks[c].values_below(self.types.len()));
        }
        assert forall|c: int| 0 <= c < after.blocks.len() implies (#[trigger] after.blocks[c]).typed_by(
            after.types,
        ) by {
            assert(self.blocks[c].typed_by(self.types));
        }
        assert forall|s: Site, w: Value| #[trigger] after.defines(s, w) <==> self.defines(s, w) by {
            match s {
                Site::Param { block, position } => {
                    if 0 <= block < after.blocks.len() {
                        assert(after.blocks[block].params == self.blocks[block].params);
                    }
                },
                Site::Result { block, inst } => {
                    if 0 <= block < after.blocks.len() && block != at {
                        assert(after.blocks[block].insts == self.blocks[block].insts);
                    }
                },
            }
        }
        self.lemma_grown(after, None);
    }

    proof fn lemma_with_param_well_formed(self, b: BlockId, v: Value, ty: Type)
        requires
            self.well_formed(),
            self.has_block(b),
            v.id() == self.types.len(),
        ensures
            self.with_param(b, v, ty).well_formed(),
    {
        reveal(GraphView::typed);
        let after = self.with_param(b, v, ty);
        let at = b.id() as int;
        let site = Site::Param { block: at, position: self.blocks[at].params.len() as int };
        assert forall|c: int| 0 <= c < after.blocks.len() implies (#[trigger] after.blocks[c]).values_below(
            after.types.len(),
        ) by {
            self.blocks[c].lemma_values_below_mono(self.types.len(), after.types.len());
        }
        assert forall|c: int| 0 <= c < after.blocks.len() implies (#[trigger] after.blocks[c]).typed_by(
            after.types,
        ) by {
            assert(self.blocks[c].typed_by(self.types));
        }
        assert forall|s: Site, w: Value|
            #[trigger] after.defines(s, w) <==> self.defines(s, w) || Some((site, v)) == Some(
                (s, w),
            ) by {
            match s {
                Site::Param { block, position } => {
                    if 0 <= block < after.blocks.len() && block != at {
                        assert(after.blocks[block].params == self.blocks[block].params);
                    }
                },
                Site::Result { block, inst } => {
                    if 0 <= block < after.blocks.len() {
                        assert(after.blocks[block].insts == self.blocks[block].insts);
                    }
                },
            }
        }
        self.lemma_grown(after, Some((site, v)));
    }
}

} // verus!
