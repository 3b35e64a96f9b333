//! Brainfuck text from Brainfuck instructions.
use vstd::prelude::*;

use super::op;
use super::syntax::{command_char, emit_instr, emit_operands, emit_seq};
use crate::errors::{CompileError, CompileErrorModel, VerifyError, VerifyErrorModel};
use crate::ir::{instrs_model, lemma_instr_model, operands_model, Instruction, Module, Operand};
use crate::text::text_is;

verus! {

/// Emits Brainfuck text.
pub struct BrainfuckEmitter;

/// The operand as an instruction; an error where it is a value.
fn expect_instruction<'a>(operand: &'a Operand) -> (r: Result<&'a Instruction, VerifyError>)
    ensures
        match operand {
            Operand::Instruction(b) => r matches Ok(i) && *i == **b,
            Operand::Value(_) => r matches Err(e) && e@ == VerifyErrorModel::InvalidOperand {
                position: 0,
            },
        },
{
    match operand {
        Operand::Instruction(instr) => Ok(instr),
        _ => Err(VerifyError::InvalidOperand { position: 0 }),
    }
}

/// The command text of an opcode without operands, and nothing for another opcode.
fn command_text(opcode: &String) -> (r: &'static str)
    ensures
        r@ == (match command_char(opcode@) {
            Some(c) => seq![c],
            None => Seq::<char>::empty(),
        }),
{
    proof {
        reveal_strlit(">");
        reveal_strlit("<");
        reveal_strlit("+");
        reveal_strlit("-");
        reveal_strlit(".");
        reveal_strlit(",");
        reveal_strlit("");
    }
    if text_is(opcode, op::PTR_RIGHT) {
        ">"
    } else if text_is(opcode, op::PTR_LEFT) {
        "<"
    } else if text_is(opcode, op::INCR) {
        "+"
    } else if text_is(opcode, op::DECR) {
        "-"
    } else if text_is(opcode, op::OUTPUT) {
        "."
    } else if text_is(opcode, op::INPUT) {
        ","
    } else {
        ""
    }
}

/// The text of one instruction.
fn emit_instruction(instruction: &Instruction) -> (r: Result<String, VerifyError>)
    ensures
        match emit_instr(instruction@) {
            Some(t) => r matches Ok(s) && s@ == t,
            None => r matches Err(e) && e@ == VerifyErrorModel::InvalidOperand { position: 0 },
        },
    decreases instruction,
{
    proof {
        lemma_instr_model(*instruction);
        reveal_strlit("[");
        reveal_strlit("]");
    }
    let mut out = String::new();
    if text_is(&instruction.opcode, op::LOOP) {
        out.append("[");
        let ghost ops = operands_model(instruction.operands@);
        let n = instruction.operands.len();
        let mut k: usize = 0;
        assert(ops.take(0) =~= Seq::empty());
        while k < n
            invariant
                0 <= k <= n,
                n == instruction.operands@.len(),
                ops == operands_model(instruction.operands@),
                instruction@.opcode == op::LOOP@,
                instruction@.operands == ops,
                emit_operands(ops.take(k as int)) matches Some(t) && out@ == seq!['['] + t,
            decreases n - k,
        {
            let operand = &instruction.operands[k];
            assert(ops.take(k + 1).drop_last() =~= ops.take(k as int));
            let child = match expect_instruction(operand) {
                Ok(c) => c,
                Err(e) => {
                    assert(emit_operands(ops.take(k + 1)) is None);
                    assert(emit_operands(ops) is None) by {
                        lemma_emit_operands_prefix_none(ops, k + 1);
                    }
                    return Err(e);
                },
            };
            proof {
                assert(decreases_to!(instruction.operands => instruction.operands@[k as int]));
            }
            let text = match emit_instruction(child) {
                Ok(t) => t,
                Err(e) => {
                    assert(emit_operands(ops.take(k + 1)) is None);
                    assert(emit_operands(ops) is None) by {
                        lemma_emit_operands_prefix_none(ops, k + 1);
                    }
                    return Err(e);
                },
            };
            out.append(text.as_str());
            k = k + 1;
        }
        assert(ops.take(n as int) =~= ops);
        out.append("]");
    } else {
        out.append(command_text(&instruction.opcode));
    }
    Ok(out)
}

/// Once a prefix of the operands has no text, the whole has none.
proof fn lemma_emit_operands_prefix_none(ops: Seq<crate::ir::OperandModel>, k: int)
    requires
        0 <= k <= ops.len(),
        emit_operands(ops.take(k)) is None,
    ensures
        emit_operands(ops) is None,
    decreases ops.len() - k,
{
    if k < ops.len() {
        assert(ops.take(k + 1).drop_last() =~= ops.take(k));
        lemma_emit_operands_prefix_none(ops, k + 1);
    } else {
        assert(ops.take(k) =~= ops);
    }
}

/// The Brainfuck text of a sequence of instructions: each command as its character,
/// each loop as its body between brackets, and nothing for an unknown opcode. An
/// error where a loop holds a value.
pub fn emit(instructions: &[Instruction]) -> (r: Result<String, VerifyError>)
    ensures
        match emit_seq(instrs_model(instructions@)) {
            Some(t) => r matches Ok(s) && s@ == t,
            None => r matches Err(e) && e@ == VerifyErrorModel::InvalidOperand { position: 0 },
        },
{
    let ghost s = instrs_model(instructions@);
    let ghost ops = crate::ir::as_operands(s);
    let mut out = String::new();
    let n = instructions.len();
    let mut k: usize = 0;
    assert(ops.take(0) =~= Seq::empty());
    while k < n
        invariant
            0 <= k <= n,
            n == instructions@.len(),
            s == instrs_model(instructions@),
            ops == crate::ir::as_operands(s),
            emit_operands(ops.take(k as int)) matches Some(t) && out@ == t,
        decreases n - k,
    {
        assert(ops.take(k + 1).drop_last() =~= ops.take(k as int));
        let text = match emit_instruction(&instructions[k]) {
            Ok(t) => t,
            Err(e) => {
                assert(emit_operands(ops.take(k + 1)) is None);
                proof {
                    lemma_emit_operands_prefix_none(ops, k + 1);
                }
                return Err(e);
            },
        };
        out.append(text.as_str());
        k = k + 1;
    }
    assert(ops.take(n as int) =~= ops);
    Ok(out)
}

impl BrainfuckEmitter {
    /// The Brainfuck text of a module, as [`emit`] gives it, with its error as a
    /// compile error.
    pub fn emit(&self, module: &Module) -> (r: Result<String, CompileError>)
        ensures
            match emit_seq(module@.instructions) {
                Some(t) => r matches Ok(s) && s@ == t,
                None => r matches Err(e) && e@ == CompileErrorModel::VerifyError(
                    VerifyErrorModel::InvalidOperand { position: 0 },
                ),
            },
    {
        match emit(module.instructions.as_slice()) {
            Ok(t) => Ok(t),
            Err(e) => Err(CompileError::from(e)),
        }
    }
}

} // verus!
