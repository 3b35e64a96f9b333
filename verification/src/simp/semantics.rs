//! What a Simp program does, with byte arithmetic: every value is taken modulo 256,
//! a variable that was never assigned reads zero, `print` outputs the byte of its
//! value, and `loop n { .. }` runs its body as many times as `n` was on entry.
use vstd::prelude::*;

use super::op;
use crate::ir::{value_text, InstrModel, OperandModel, ValueModel};

verus! {

/// An integer modulo 256, as a byte.
pub open spec fn byte(v: int) -> u8 {
    (v % 256) as u8
}

/// The variables and the output of a running program.
#[verifier::ext_equal]
pub struct SimpRun {
    pub env: spec_fn(Seq<char>) -> u8,
    pub out: Seq<u8>,
}

/// The name held by an operand.
pub open spec fn name_operand(o: OperandModel) -> Seq<char> {
    match o {
        OperandModel::Value(v) => value_text(v),
        OperandModel::Instruction(_) => Seq::empty(),
    }
}

/// Whether an instruction is an expression of constants that are not negative,
/// variables, additions and subtractions.
pub open spec fn pure_expr(e: InstrModel) -> bool
    decreases e,
{
    if e.opcode == op::CONSTANT@ {
        e.operands.len() >= 1 && (e.operands[0] matches OperandModel::Value(ValueModel::SimpInt(n)) && n >= 0)
    } else if e.opcode == op::VARIABLE@ {
        e.operands.len() >= 1 && e.operands[0] is Value
    } else if e.opcode == op::ADD@ || e.opcode == op::SUB@ {
        &&& e.operands.len() >= 2
        &&& match e.operands[0] {
            OperandModel::Instruction(l) => pure_expr(l),
            _ => false,
        }
        &&& match e.operands[1] {
            OperandModel::Instruction(r) => pure_expr(r),
            _ => false,
        }
    } else {
        false
    }
}

/// The value of an expression.
pub open spec fn eval(e: InstrModel, env: spec_fn(Seq<char>) -> u8) -> u8
    decreases e,
{
    if e.opcode == op::CONSTANT@ {
        match e.operands[0] {
            OperandModel::Value(ValueModel::SimpInt(n)) => byte(n as int),
            _ => 0,
        }
    } else if e.opcode == op::VARIABLE@ {
        env(name_operand(e.operands[0]))
    } else if (e.opcode == op::ADD@ || e.opcode == op::SUB@) && e.operands.len() >= 2 {
        match e.operands[0] {
            OperandModel::Instruction(l) => match e.operands[1] {
                OperandModel::Instruction(r) => if e.opcode == op::ADD@ {
                    byte(eval(l, env) + eval(r, env))
                } else {
                    byte(eval(l, env) - eval(r, env))
                },
                _ => 0,
            },
            _ => 0,
        }
    } else {
        0
    }
}

/// The environment with `name` set to `v`.
pub open spec fn assigned(env: spec_fn(Seq<char>) -> u8, name: Seq<char>, v: u8) -> spec_fn(Seq<char>) -> u8 {
    |n: Seq<char>| if n == name { v } else { env(n) }
}

/// What running a statement does: an assignment sets its variable, a print outputs
/// its value, a loop runs its body as many times as its count; anything else does
/// nothing.
pub open spec fn exec(s: InstrModel, r: SimpRun) -> SimpRun
    decreases s, 0nat,
{
    if s.opcode == op::ASSIGN@ && s.operands.len() >= 2 {
        match s.operands[1] {
            OperandModel::Instruction(e) => SimpRun {
                env: assigned(r.env, name_operand(s.operands[0]), eval(e, r.env)),
                out: r.out,
            },
            _ => r,
        }
    } else if s.opcode == op::PRINT@ && s.operands.len() >= 1 {
        match s.operands[0] {
            OperandModel::Instruction(x) => SimpRun { env: r.env, out: r.out.push(eval(x, r.env)) },
            _ => r,
        }
    } else if s.opcode == op::LOOP@ && s.operands.len() >= 2 {
        match s.operands[0] {
            OperandModel::Instruction(c) => match s.operands[1] {
                OperandModel::Instruction(b) => repeat(b.operands, eval(c, r.env) as nat, r),
                _ => r,
            },
            _ => r,
        }
    } else {
        r
    }
}

/// Running some statements `n` times.
pub open spec fn repeat(ops: Seq<OperandModel>, n: nat, r: SimpRun) -> SimpRun
    decreases ops, n,
{
    if n == 0 {
        r
    } else {
        repeat(ops, (n - 1) as nat, exec_all(ops, r))
    }
}

/// Running some statements one after the other.
pub open spec fn exec_all(ops: Seq<OperandModel>, r: SimpRun) -> SimpRun
    decreases ops, 0nat,
{
    if ops.len() == 0 {
        r
    } else {
        match ops.last() {
            OperandModel::Instruction(t) => exec(t, exec_all(ops.drop_last(), r)),
            OperandModel::Value(_) => exec_all(ops.drop_last(), r),
        }
    }
}

} // verus!
