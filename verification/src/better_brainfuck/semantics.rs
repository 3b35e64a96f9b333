//! What running Better Brainfuck does: a tape of byte cells, unbounded both ways, a
//! data pointer, an input stream and an output stream. A move shifts the pointer by
//! its amount; an addition adds its amount to the cell under the pointer, modulo 256;
//! output appends that cell to the output; input takes the next byte of the input
//! into it (zero once the input is exhausted); a loop runs its body while that cell
//! is not zero. Runs are bounded by a number of loop rounds, the fuel.
use vstd::prelude::*;

use super::op;
use super::syntax::amount_of;
use crate::ir::{InstrModel, OperandModel};

verus! {

/// The state of a running program. `floor` is the lowest cell that a machine with a
/// bounded tape lets the pointer reach; the moves of Better Brainfuck do not look at
/// it, those of Brainfuck do.
#[verifier::ext_equal]
pub struct Machine {
    pub tape: spec_fn(int) -> u8,
    pub ptr: int,
    pub input: Seq<u8>,
    pub output: Seq<u8>,
    pub floor: int,
}

/// The machine with the cell under the pointer set to `v`.
pub open spec fn with_cell(m: Machine, v: u8) -> Machine {
    Machine { tape: |q: int| if q == m.ptr { v } else { (m.tape)(q) }, ..m }
}

/// The machine with the pointer moved by `a` cells.
pub open spec fn shifted(m: Machine, a: int) -> Machine {
    Machine { ptr: m.ptr + a, ..m }
}

/// The machine with `a` added to the cell under the pointer, modulo 256.
pub open spec fn added(m: Machine, a: int) -> Machine {
    with_cell(m, (((m.tape)(m.ptr) + a) % 256) as u8)
}

/// What running some operands one after the other gives, with `fuel` loop rounds
/// for each loop; `None` where the fuel runs out or an operand is not a valid
/// instruction.
pub open spec fn run_ops(ops: Seq<OperandModel>, m: Machine, fuel: nat) -> Option<Machine>
    decreases fuel, ops,
{
    if ops.len() == 0 {
        Some(m)
    } else {
        match run_ops(ops.drop_last(), m, fuel) {
            None => None,
            Some(m1) => match ops.last() {
                OperandModel::Instruction(i) => run_instr(i, m1, fuel),
                OperandModel::Value(_) => None,
            },
        }
    }
}

/// What running one instruction gives, with `fuel` loop rounds left.
pub open spec fn run_instr(i: InstrModel, m: Machine, fuel: nat) -> Option<Machine>
    decreases fuel, i,
{
    if i.opcode == op::MOVE@ {
        match amount_of(i) {
            Some(a) => Some(shifted(m, a as int)),
            None => None,
        }
    } else if i.opcode == op::ADD@ {
        match amount_of(i) {
            Some(a) => Some(added(m, a as int)),
            None => None,
        }
    } else if i.opcode == op::OUTPUT@ {
        Some(Machine { output: m.output.push((m.tape)(m.ptr)), ..m })
    } else if i.opcode == op::INPUT@ {
        if m.input.len() > 0 {
            Some(Machine { input: m.input.drop_first(), ..with_cell(m, m.input[0]) })
        } else {
            Some(with_cell(m, 0))
        }
    } else if i.opcode == op::LOOP@ {
        if (m.tape)(m.ptr) == 0 {
            Some(m)
        } else if fuel == 0 {
            None
        } else {
            match run_ops(i.operands, m, fuel) {
                None => None,
                Some(m1) => run_instr(i, m1, (fuel - 1) as nat),
            }
        }
    } else {
        None
    }
}

/// What running a sequence of instructions gives.
pub open spec fn run_program(s: Seq<InstrModel>, m: Machine, fuel: nat) -> Option<Machine> {
    run_ops(crate::ir::as_operands(s), m, fuel)
}

} // verus!
