//! What running Brainfuck does, on the machine of Better Brainfuck: a move goes one
//! cell right or left (a run stops where the pointer would go below the machine's
//! floor), an increment or decrement changes the cell under the pointer
//! by one, modulo 256, output and input are those of Better Brainfuck, and a loop runs
//! its body while the cell under the pointer is not zero. Runs are bounded by a number
//! of loop rounds, the fuel.
use vstd::prelude::*;

use super::op;
use crate::better_brainfuck::semantics::{added, shifted, with_cell, Machine};
use crate::ir::{as_operands, InstrModel, OperandModel};

verus! {

/// What running some operands one after the other gives, with `fuel` loop rounds
/// for each loop; `None` where the fuel runs out, the pointer would go below the
/// floor, or an operand is not a valid instruction.
pub open spec fn run_ops(ops: Seq<OperandModel>, m: Machine, fuel: nat) -> Option<Machine>
    decreases fuel, ops,
{
    if ops.len() == 0 {
        Some(m)
    } else {
        match run_ops(ops.drop_last(), m, fuel) {
            None => None,
            Some(m1) => match ops.last() {
                OperandModel::Instruction(i) => run_instr(i, m1, fuel),
                OperandModel::Value(_) => None,
            },
        }
    }
}

/// What running one instruction gives, with `fuel` loop rounds left.
pub open spec fn run_instr(i: InstrModel, m: Machine, fuel: nat) -> Option<Machine>
    decreases fuel, i,
{
    if i.opcode == op::PTR_RIGHT@ {
        Some(shifted(m, 1))
    } else if i.opcode == op::PTR_LEFT@ {
        if m.ptr > m.floor {
            Some(shifted(m, -1))
        } else {
            None
        }
    } else if i.opcode == op::INCR@ {
        Some(added(m, 1))
    } else if i.opcode == op::DECR@ {
        Some(added(m, -1))
    } else if i.opcode == op::OUTPUT@ {
        Some(Machine { output: m.output.push((m.tape)(m.ptr)), ..m })
    } else if i.opcode == op::INPUT@ {
        if m.input.len() > 0 {
            Some(Machine { input: m.input.drop_first(), ..with_cell(m, m.input[0]) })
        } else {
            Some(with_cell(m, 0))
        }
    } else if i.opcode == op::LOOP@ {
        if (m.tape)(m.ptr) == 0 {
            Some(m)
        } else if fuel == 0 {
            None
        } else {
            match run_ops(i.operands, m, fuel) {
                None => None,
                Some(m1) => run_instr(i, m1, (fuel - 1) as nat),
            }
        }
    } else {
        None
    }
}

/// What running a sequence of instructions gives.
pub open spec fn run_program(s: Seq<InstrModel>, m: Machine, fuel: nat) -> Option<Machine> {
    run_ops(as_operands(s), m, fuel)
}

/// Running two programs one after the other is running the first, then the second
/// on what it leaves.
pub proof fn lemma_run_concat(a: Seq<InstrModel>, b: Seq<InstrModel>, m: Machine, fuel: nat)
    ensures
        run_program(a + b, m, fuel) == (match run_program(a, m, fuel) {
            Some(m1) => run_program(b, m1, fuel),
            None => None,
        }),
    decreases b.len(),
{
    if b.len() == 0 {
        assert(a + b =~= a);
        assert(as_operands(b) =~= Seq::<OperandModel>::empty());
    } else {
        lemma_run_concat(a, b.drop_last(), m, fuel);
        assert(as_operands(a + b).drop_last() =~= as_operands(a + b.drop_last()));
        assert(as_operands(b).drop_last() =~= as_operands(b.drop_last()));
        assert(as_operands(a + b).last() == as_operands(b).last());
    }
}

} // verus!
