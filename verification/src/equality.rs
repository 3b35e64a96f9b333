//! Equality of operands and instructions: instructions are equal when their opcodes
//! are and their operands are, one by one; two values are taken as equal when they
//! have the same type, whatever they hold.
use vstd::prelude::*;
use vstd::std_specs::cmp::PartialEqSpecImpl;

use crate::ir::{lemma_instr_model, value_type_name, InstrModel, Instruction, Operand, OperandModel};

verus! {

/// Whether two operands are equal.
pub open spec fn operand_same(a: OperandModel, b: OperandModel) -> bool
    decreases a,
{
    match (a, b) {
        (OperandModel::Instruction(x), OperandModel::Instruction(y)) => instr_same(x, y),
        (OperandModel::Value(v), OperandModel::Value(w)) => value_type_name(v) == value_type_name(w),
        _ => false,
    }
}

/// Whether two instructions are equal.
pub open spec fn instr_same(a: InstrModel, b: InstrModel) -> bool
    decreases a,
{
    a.opcode == b.opcode && operands_same(a.operands, b.operands)
}

/// Whether two sequences of operands are equal, position by position.
pub open spec fn operands_same(a: Seq<OperandModel>, b: Seq<OperandModel>) -> bool
    decreases a,
{
    if a.len() == 0 {
        b.len() == 0
    } else {
        &&& b.len() == a.len()
        &&& operands_same(a.drop_last(), b.drop_last())
        &&& operand_same(a.last(), b.last())
    }
}

/// Whether two operands are equal, as [`operand_same`] says.
pub(crate) fn operands_equal(a: &Operand, b: &Operand) -> (r: bool)
    ensures
        r == operand_same(a@, b@),
    decreases a,
{
    match (a, b) {
        (Operand::Instruction(x), Operand::Instruction(y)) => instructions_equal(x, y),
        (Operand::Value(v), Operand::Value(w)) => v.value_type().0 == w.value_type().0,
        _ => false,
    }
}

/// Whether two instructions are equal, as [`instr_same`] says.
pub(crate) fn instructions_equal(a: &Instruction, b: &Instruction) -> (r: bool)
    ensures
        r == instr_same(a@, b@),
    decreases a,
{
    proof {
        lemma_instr_model(*a);
        lemma_instr_model(*b);
    }
    if a.opcode != b.opcode {
        return false;
    }
    let ghost x = a@.operands;
    let ghost y = b@.operands;
    let n = a.operands.len();
    if n != b.operands.len() {
        assert(!operands_same(x, y));
        return false;
    }
    let mut k: usize = 0;
    assert(x.take(0) =~= Seq::empty());
    assert(y.take(0) =~= Seq::empty());
    while k < n
        invariant
            k <= n,
            n == a.operands@.len(),
            n == b.operands@.len(),
            x == a@.operands,
            y == b@.operands,
            x.len() == n,
            y.len() == n,
            operands_same(x.take(k as int), y.take(k as int)),
        decreases n - k,
    {
        assert(x.take(k + 1).drop_last() =~= x.take(k as int));
        assert(y.take(k + 1).drop_last() =~= y.take(k as int));
        proof {
            assert(decreases_to!(a.operands => a.operands@[k as int]));
        }
        if !operands_equal(&a.operands[k], &b.operands[k]) {
            proof {
                if operands_same(x, y) {
                    lemma_operands_same_prefix(x, y, k + 1);
                    assert(x.take(k + 1).last() == x[k as int]);
                    assert(y.take(k + 1).last() == y[k as int]);
                }
            }
            return false;
        }
        k = k + 1;
    }
    assert(x.take(n as int) =~= x);
    assert(y.take(n as int) =~= y);
    true
}

/// Equal sequences of operands have equal prefixes.
proof fn lemma_operands_same_prefix(a: Seq<OperandModel>, b: Seq<OperandModel>, k: int)
    requires
        0 <= k <= a.len(),
        a.len() == b.len(),
        operands_same(a, b),
    ensures
        operands_same(a.take(k), b.take(k)),
    decreases a.len() - k,
{
    if k < a.len() {
        lemma_operands_same_prefix(a, b, k + 1);
        assert(a.take(k + 1).drop_last() =~= a.take(k));
        assert(b.take(k + 1).drop_last() =~= b.take(k));
    } else {
        assert(a.take(k) =~= a);
        assert(b.take(k) =~= b);
    }
}

impl PartialEq for Operand {
    fn eq(&self, other: &Self) -> (r: bool) {
        operands_equal(self, other)
    }
}

impl PartialEqSpecImpl for Operand {
    open spec fn obeys_eq_spec() -> bool {
        true
    }

    open spec fn eq_spec(&self, other: &Operand) -> bool {
        operand_same(self@, other@)
    }
}

impl PartialEq for Instruction {
    fn eq(&self, other: &Self) -> (r: bool) {
        instructions_equal(self, other)
    }
}

impl PartialEqSpecImpl for Instruction {
    open spec fn obeys_eq_spec() -> bool {
        true
    }

    open spec fn eq_spec(&self, other: &Instruction) -> bool {
        instr_same(self@, other@)
    }
}

} // verus!
