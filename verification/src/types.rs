use vstd::prelude::*;

verus! {

/// The integer types a value of a graph can have.
#[derive(Clone, Copy, Debug, PartialEq, Eq, Structural)]
pub enum Type {
    I8,
    I16,
    I32,
    I64,
}

/// The pure binary operations.
#[derive(Clone, Copy, Debug, PartialEq, Eq, Structural)]
pub enum ArithOp {
    Add,
    Sub,
    Mul,
}

/// Handle of one SSA definition of a graph: a block parameter or the result
/// of a pure instruction.
#[derive(Clone, Copy, Debug, PartialEq, Eq, Structural)]
pub struct Value {
    index: usize,
}

/// Handle of one block of a graph.
#[derive(Clone, Copy, Debug, PartialEq, Eq, Structural)]
pub struct BlockId {
    index: usize,
}

impl Type {
    /// Number of bits of the type.
    pub open spec fn bits(self) -> nat {
        match self {
            Type::I8 => 8,
            Type::I16 => 16,
            Type::I32 => 32,
            Type::I64 => 64,
        }
    }

    /// Two to the power `bits()`.
    pub open spec fn modulus(self) -> int {
        match self {
            Type::I8 => 0x100,
            Type::I16 => 0x1_0000,
            Type::I32 => 0x1_0000_0000,
            Type::I64 => 0x1_0000_0000_0000_0000,
        }
    }

    /// Whether `x` is a value of the type, read as a signed two's-complement
    /// number.
    pub open spec fn holds(self, x: int) -> bool {
        -(self.modulus() / 2) <= x < self.modulus() / 2
    }

    /// The value of the type that is congruent to `x` modulo `modulus()`.
    pub open spec fn wrap(self, x: int) -> i64 {
        let r = x % self.modulus();
        if r >= self.modulus() / 2 {
            (r - self.modulus()) as i64
        } else {
            r as i64
        }
    }

    /// Number of bits of the type.
    pub fn bit_width(self) -> (r: u32)
        ensures
            r == self.bits(),
    {
        match self {
            Type::I8 => 8,
            Type::I16 => 16,
            Type::I32 => 32,
            Type::I64 => 64,
        }
    }

    /// Reduces `x` to the type's range, keeping its low `bits()` bits.
    pub fn wrap_value(self, x: i128) -> (r: i64)
        ensures
            r == self.wrap(x as int),
            self.holds(r as int),
    {
        let m: i128 = match self {
            Type::I8 => 0x100,
            Type::I16 => 0x1_0000,
            Type::I32 => 0x1_0000_0000,
            Type::I64 => 0x1_0000_0000_0000_0000,
        };
        let half: i128 = m / 2;
        // Shifting by a multiple of the modulus makes the dividend non-negative.
        let once: i128 = if x < 0 {
            x + 0x4000_0000_0000_0000_0000_0000_0000_0000
        } else {
            x
        };
        let lifted: i128 = if once < 0 {
            once + 0x4000_0000_0000_0000_0000_0000_0000_0000
        } else {
            once
        };
        let r: i128 = lifted % m;
        proof {
            Self::lemma_shift_keeps_residue(x as int, m as int);
            Self::lemma_shift_keeps_residue(once as int, m as int);
            assert(m == self.modulus());
            assert(r == (x as int) % self.modulus());
            assert(0 <= r < m);
        }
        if r >= half {
            (r - m) as i64
        } else {
            r as i64
        }
    }

    proof fn lemma_shift_keeps_residue(x: int, m: int)
        requires
            m == 0x100 || m == 0x1_0000 || m == 0x1_0000_0000 || m == 0x1_0000_0000_0000_0000,
        ensures
            (x + 0x4000_0000_0000_0000_0000_0000_0000_0000) % m == x % m,
    {
        let k: int = 0x4000_0000_0000_0000_0000_0000_0000_0000int / m;
        assert(k * m == 0x4000_0000_0000_0000_0000_0000_0000_0000);
        vstd::arithmetic::div_mod::lemma_mod_multiples_vanish(k, x, m);
    }
}

impl ArithOp {
    /// The exact integer result of the operation.
    pub open spec fn exact(self, a: int, b: int) -> int {
        match self {
            ArithOp::Add => a + b,
            ArithOp::Sub => a - b,
            ArithOp::Mul => a * b,
        }
    }

    /// The result of the operation at type `ty`: the exact result, wrapped.
    pub open spec fn eval(self, ty: Type, a: i64, b: i64) -> i64 {
        ty.wrap(self.exact(a as int, b as int))
    }

    /// Computes the operation at type `ty` with wrapping two's-complement
    /// semantics.
    pub fn apply(self, ty: Type, a: i64, b: i64) -> (r: i64)
        ensures
            r == self.eval(ty, a, b),
            ty.holds(r as int),
    {
        let x: i128 = a as i128;
        let y: i128 = b as i128;
        let exact: i128 = match self {
            ArithOp::Add => x + y,
            ArithOp::Sub => x - y,
            ArithOp::Mul => {
                assert(-0x4000_0000_0000_0000_0000_0000_0000_0000 <= x * y
                    <= 0x4000_0000_0000_0000_0000_0000_0000_0000) by (nonlinear_arith)
                    requires
                        -0x8000_0000_0000_0000 <= x <= 0x8000_0000_0000_0000,
                        -0x8000_0000_0000_0000 <= y <= 0x8000_0000_0000_0000,
                ;
                x * y
            },
        };
        ty.wrap_value(exact)
    }
}

impl Value {
    /// The number that identifies the value within its graph.
    pub closed spec fn id(self) -> nat {
        self.index as nat
    }

    /// The number that identifies the value within its graph.
    pub fn index(&self) -> (r: usize)
        ensures
            r == self.id(),
    {
        self.index
    }

    /// The handle of the value with number `n`.
    pub closed spec fn at(n: nat) -> Value {
        Value { index: n as usize }
    }

    pub(crate) fn from_index(index: usize) -> (v: Value)
        ensures
            v.id() == index,
            v == Value::at(index as nat),
    {
        Value { index }
    }

    /// `at` and `id` are inverse to each other.
    pub proof fn lemma_at(n: nat, v: Value)
        ensures
            Value::at(v.id()) == v,
            n <= usize::MAX ==> Value::at(n).id() == n,
    {
    }

    /// Two handles with the same number are the same handle.
    pub proof fn lemma_id_determines(a: Value, b: Value)
        ensures
            a.id() == b.id() <==> a == b,
    {
    }
}

impl BlockId {
    /// The position of the block in its graph.
    pub closed spec fn id(self) -> nat {
        self.index as nat
    }

    /// The position of the block in its graph.
    pub fn index(&self) -> (r: usize)
        ensures
            r == self.id(),
    {
        self.index
    }

    /// The handle of the block at position `n`.
    pub closed spec fn at(n: nat) -> BlockId {
        BlockId { index: n as usize }
    }

    pub(crate) fn from_index(index: usize) -> (b: BlockId)
        ensures
            b.id() == index,
            b == BlockId::at(index as nat),
    {
        BlockId { index }
    }

    /// `at` and `id` are inverse to each other.
    pub proof fn lemma_at(n: nat, b: BlockId)
        ensures
            BlockId::at(b.id()) == b,
            n <= usize::MAX ==> BlockId::at(n).id() == n,
    {
    }

    /// Two handles with the same position are the same handle.
    pub proof fn lemma_id_determines(a: BlockId, b: BlockId)
        ensures
            a.id() == b.id() <==> a == b,
    {
    }
}

} // verus!
