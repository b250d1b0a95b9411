use vstd::prelude::*;

use crate::token::is_numeral;

verus! {

/// One stack-machine instruction, tagged with the source line it was emitted for.
#[derive(Clone, Copy, Debug, PartialEq, Eq, Structural)]
pub enum OpCode {
    Const { line: usize, const_idx: usize },
    Negate { line: usize },
    Add { line: usize },
    Sub { line: usize },
    Mul { line: usize },
    Div { line: usize },
}

/// A constant of the pool. A number is kept as the numeral that wrote it.
#[derive(Clone, Debug, PartialEq, Eq)]
pub enum Value {
    Number(Vec<char>),
}

impl Value {
    /// The text of a number.
    pub open spec fn numeral(&self) -> Seq<char> {
        match self {
            Value::Number(n) => n@,
        }
    }

    pub open spec fn is_numeral_value(&self) -> bool {
        match self {
            Value::Number(n) => is_numeral(n@),
        }
    }
}

/// How many operands an instruction pops.
pub open spec fn pops(op: OpCode) -> int {
    match op {
        OpCode::Const { .. } => 0,
        OpCode::Negate { .. } => 1,
        _ => 2,
    }
}

/// The height of the operand stack after running `code` on a stack of height `base`,
/// or `None` where some instruction would find too few operands.
pub open spec fn height_from(code: Seq<OpCode>, base: int) -> Option<int>
    decreases code.len(),
{
    if code.len() == 0 {
        Some(base)
    } else {
        match height_from(code.drop_last(), base) {
            Some(h) => if h >= pops(code.last()) {
                Some(h - pops(code.last()) + 1)
            } else {
                None
            },
            None => None,
        }
    }
}

/// Running `a` then `b` is running `b` from where `a` left the stack.
pub proof fn lemma_height_append(a: Seq<OpCode>, b: Seq<OpCode>, base: int)
    ensures
        height_from(a + b, base) == match height_from(a, base) {
            Some(h) => height_from(b, h),
            None => None,
        },
    decreases b.len(),
{
    if b.len() == 0 {
        assert(a + b =~= a);
    } else {
        assert((a + b).drop_last() =~= a + b.drop_last());
        assert((a + b).last() == b.last());
        lemma_height_append(a, b.drop_last(), base);
        match height_from(a, base) {
            Some(h) => {},
            None => {},
        }
    }
}

/// A taller stack to start from never makes an instruction short of operands.
pub proof fn lemma_height_shift(code: Seq<OpCode>, base: int, k: int)
    requires
        k >= 0,
        height_from(code, base) is Some,
    ensures
        height_from(code, base + k) == Some(height_from(code, base)->0 + k),
    decreases code.len(),
{
    if code.len() > 0 {
        lemma_height_shift(code.drop_last(), base, k);
    }
}

/// An append-only sequence of instructions and a pool of constants they refer to.
pub struct Chunk {
    pub code: Vec<OpCode>,
    pub constants: Vec<Value>,
}

impl Chunk {
    pub fn new() -> (c: Chunk)
        ensures
            c.code@ == Seq::<OpCode>::empty(),
            c.constants@ == Seq::<Value>::empty(),
    {
        Chunk { code: Vec::new(), constants: Vec::new() }
    }

    /// Appends one instruction.
    pub fn push(&mut self, op: OpCode)
        ensures
            final(self).code@ == old(self).code@.push(op),
            final(self).constants@ == old(self).constants@,
    {
        self.code.push(op);
    }

    /// Adds a constant to the pool and returns its index.
    pub fn push_const(&mut self, value: Value) -> (idx: usize)
        ensures
            final(self).code@ == old(self).code@,
            final(self).constants@ == old(self).constants@.push(value),
            idx == old(self).constants.len(),
    {
        let idx = self.constants.len();
        self.constants.push(value);
        idx
    }
}

} // verus!
