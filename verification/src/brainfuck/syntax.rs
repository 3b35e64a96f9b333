//! The Brainfuck language: its definitions, constructors, and the text of programs.
use vstd::prelude::*;

use super::op;
use crate::ir::{
    as_operands, instrs_model, wrap_instructions, DefModel, InstrModel, Instruction,
    InstructionDefinition, Language, OperandModel,
};

verus! {

/// The Brainfuck language.
pub struct BrainfuckLanguage;

/// The definitions of Brainfuck's instructions: six commands without operands, and
/// the loop, which takes any number of them.
pub open spec fn bf_defs() -> Seq<DefModel> {
    seq![
        DefModel { opcode: op::PTR_RIGHT@, operands: Some(Seq::empty()) },
        DefModel { opcode: op::PTR_LEFT@, operands: Some(Seq::empty()) },
        DefModel { opcode: op::INCR@, operands: Some(Seq::empty()) },
        DefModel { opcode: op::DECR@, operands: Some(Seq::empty()) },
        DefModel { opcode: op::OUTPUT@, operands: Some(Seq::empty()) },
        DefModel { opcode: op::INPUT@, operands: Some(Seq::empty()) },
        DefModel { opcode: op::LOOP@, operands: None },
    ]
}

impl Language for BrainfuckLanguage {
    open spec fn spec_name(&self) -> Seq<char> {
        "brainfuck"@
    }

    open spec fn spec_defs(&self) -> Seq<DefModel> {
        bf_defs()
    }

    fn name(&self) -> (r: &str) {
        "brainfuck"
    }

    fn instruction_defs(&self) -> (r: Vec<InstructionDefinition>) {
        let mut defs: Vec<InstructionDefinition> = Vec::new();
        defs.push(InstructionDefinition::new(op::PTR_RIGHT, Some(Vec::new())));
        defs.push(InstructionDefinition::new(op::PTR_LEFT, Some(Vec::new())));
        defs.push(InstructionDefinition::new(op::INCR, Some(Vec::new())));
        defs.push(InstructionDefinition::new(op::DECR, Some(Vec::new())));
        defs.push(InstructionDefinition::new(op::OUTPUT, Some(Vec::new())));
        defs.push(InstructionDefinition::new(op::INPUT, Some(Vec::new())));
        defs.push(InstructionDefinition::new(op::LOOP, None));
        assert(crate::ir::defs_model(defs@) =~= bf_defs()) by {
            assert(crate::ir::kinds_model(Seq::empty()) =~= Seq::empty());
        }
        defs
    }
}

/// An instruction without operands.
pub open spec fn leaf_model(opcode: Seq<char>) -> InstrModel {
    InstrModel { opcode, operands: Seq::empty() }
}

/// A loop over the given body.
pub open spec fn loop_model(body: Seq<InstrModel>) -> InstrModel {
    InstrModel { opcode: op::LOOP@, operands: as_operands(body) }
}

/// Moves the data pointer one cell right.
pub fn ptr_right() -> (r: Instruction)
    ensures
        r@ == leaf_model(op::PTR_RIGHT@),
{
    Instruction::leaf(op::PTR_RIGHT)
}

/// Moves the data pointer one cell left.
pub fn ptr_left() -> (r: Instruction)
    ensures
        r@ == leaf_model(op::PTR_LEFT@),
{
    Instruction::leaf(op::PTR_LEFT)
}

/// Adds one to the current cell.
pub fn incr() -> (r: Instruction)
    ensures
        r@ == leaf_model(op::INCR@),
{
    Instruction::leaf(op::INCR)
}

/// Subtracts one from the current cell.
pub fn decr() -> (r: Instruction)
    ensures
        r@ == leaf_model(op::DECR@),
{
    Instruction::leaf(op::DECR)
}

/// Writes the current cell.
pub fn output() -> (r: Instruction)
    ensures
        r@ == leaf_model(op::OUTPUT@),
{
    Instruction::leaf(op::OUTPUT)
}

/// Reads into the current cell.
pub fn input() -> (r: Instruction)
    ensures
        r@ == leaf_model(op::INPUT@),
{
    Instruction::leaf(op::INPUT)
}

/// Repeats its body while the current cell is not zero.
pub fn loop_of(instructions: Vec<Instruction>) -> (r: Instruction)
    ensures
        r@ == loop_model(instrs_model(instructions@)),
{
    Instruction::new(op::LOOP, wrap_instructions(instructions))
}

// # The text of Brainfuck programs

/// The command character of an opcode without operands.
pub open spec fn command_char(opcode: Seq<char>) -> Option<char> {
    if opcode == op::PTR_RIGHT@ {
        Some('>')
    } else if opcode == op::PTR_LEFT@ {
        Some('<')
    } else if opcode == op::INCR@ {
        Some('+')
    } else if opcode == op::DECR@ {
        Some('-')
    } else if opcode == op::OUTPUT@ {
        Some('.')
    } else if opcode == op::INPUT@ {
        Some(',')
    } else {
        None
    }
}

/// The text of an instruction: its command character, a loop's body between
/// brackets, and nothing for an opcode that Brainfuck does not know. `None` where a
/// loop has an operand that is not an instruction.
pub open spec fn emit_instr(i: InstrModel) -> Option<Seq<char>>
    decreases i,
{
    if i.opcode == op::LOOP@ {
        match emit_operands(i.operands) {
            Some(body) => Some(seq!['['] + body + seq![']']),
            None => None,
        }
    } else {
        match command_char(i.opcode) {
            Some(c) => Some(seq![c]),
            None => Some(Seq::empty()),
        }
    }
}

/// The text of a loop's operands, one after the other; `None` where one is not an
/// instruction.
pub open spec fn emit_operands(ops: Seq<OperandModel>) -> Option<Seq<char>>
    decreases ops,
{
    if ops.len() == 0 {
        Some(Seq::empty())
    } else {
        match ops.last() {
            OperandModel::Instruction(i) => match (emit_operands(ops.drop_last()), emit_instr(i)) {
                (Some(a), Some(b)) => Some(a + b),
                _ => None,
            },
            OperandModel::Value(_) => None,
        }
    }
}

/// The text of a sequence of instructions.
pub open spec fn emit_seq(s: Seq<InstrModel>) -> Option<Seq<char>> {
    emit_operands(as_operands(s))
}

/// Whether an opcode is a Brainfuck command without operands.
pub open spec fn is_command(opcode: Seq<char>) -> bool {
    command_char(opcode) is Some
}

/// Whether an instruction is a Brainfuck command without operands, or a loop whose
/// operands are all such instructions, recursively.
pub open spec fn wf_instr(i: InstrModel) -> bool
    decreases i,
{
    if i.opcode == op::LOOP@ {
        wf_operands(i.operands)
    } else {
        is_command(i.opcode) && i.operands.len() == 0
    }
}

/// Whether every operand is a well-formed Brainfuck instruction.
pub open spec fn wf_operands(ops: Seq<OperandModel>) -> bool
    decreases ops,
{
    if ops.len() == 0 {
        true
    } else {
        match ops.last() {
            OperandModel::Instruction(i) => wf_operands(ops.drop_last()) && wf_instr(i),
            OperandModel::Value(_) => false,
        }
    }
}

/// Whether a sequence of instructions is a well-formed Brainfuck program.
pub open spec fn wf_program(s: Seq<InstrModel>) -> bool {
    wf_operands(as_operands(s))
}

} // verus!
