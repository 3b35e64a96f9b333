//! The Better Brainfuck language: its values, definitions and constructors.
use vstd::prelude::*;

use super::op;
use crate::ir::{
    as_operands, instrs_model, wrap_instructions, DefModel, InstrModel, Instruction,
    InstructionDefinition, KindModel, Language, Operand, OperandKind, OperandModel, Value,
    ValueModel, ValueType,
};
use crate::text::{decimal, decimal_string};

verus! {

/// An integer of Better Brainfuck: the amount of a move or an addition.
#[derive(Debug, Clone, PartialEq, Eq)]
pub struct BetterBrainfuckValue(pub i64);

impl BetterBrainfuckValue {
    /// The text of the integer.
    pub fn display(&self) -> (r: String)
        ensures
            r@ == decimal(self.0 as int),
    {
        decimal_string(self.0)
    }

    /// The type of the value: `int`.
    pub fn value_type(&self) -> (r: ValueType)
        ensures
            r@ == "int"@,
    {
        ValueType("int".to_owned())
    }
}

/// The Better Brainfuck language.
pub struct BetterBrainfuckLanguage;

/// The definitions of Better Brainfuck's instructions.
pub open spec fn bbf_defs() -> Seq<DefModel> {
    seq![
        DefModel { opcode: op::MOVE@, operands: Some(seq![KindModel::Value("int"@)]) },
        DefModel { opcode: op::ADD@, operands: Some(seq![KindModel::Value("int"@)]) },
        DefModel { opcode: op::OUTPUT@, operands: Some(Seq::empty()) },
        DefModel { opcode: op::INPUT@, operands: Some(Seq::empty()) },
        DefModel { opcode: op::LOOP@, operands: None },
    ]
}

fn int_kinds() -> (r: Vec<OperandKind>)
    ensures
        crate::ir::kinds_model(r@) == seq![KindModel::Value("int"@)],
{
    let mut v: Vec<OperandKind> = Vec::new();
    v.push(OperandKind::Value(ValueType("int".to_owned())));
    assert(crate::ir::kinds_model(v@) =~= seq![KindModel::Value("int"@)]);
    v
}

impl Language for BetterBrainfuckLanguage {
    open spec fn spec_name(&self) -> Seq<char> {
        "better-brainfuck"@
    }

    open spec fn spec_defs(&self) -> Seq<DefModel> {
        bbf_defs()
    }

    fn name(&self) -> (r: &str) {
        "better-brainfuck"
    }

    fn instruction_defs(&self) -> (r: Vec<InstructionDefinition>) {
        let mut defs: Vec<InstructionDefinition> = Vec::new();
        defs.push(InstructionDefinition::new(op::MOVE, Some(int_kinds())));
        defs.push(InstructionDefinition::new(op::ADD, Some(int_kinds())));
        defs.push(InstructionDefinition::new(op::OUTPUT, Some(Vec::new())));
        defs.push(InstructionDefinition::new(op::INPUT, Some(Vec::new())));
        defs.push(InstructionDefinition::new(op::LOOP, None));
        assert(crate::ir::defs_model(defs@) =~= bbf_defs()) by {
            assert(crate::ir::kinds_model(Seq::empty()) =~= Seq::empty());
        }
        defs
    }
}

/// An instruction with one integer operand.
pub open spec fn amount_model(opcode: Seq<char>, amount: i64) -> InstrModel {
    InstrModel {
        opcode,
        operands: seq![OperandModel::Value(ValueModel::BetterBrainfuck(amount))],
    }
}

/// An instruction without operands.
pub open spec fn leaf_model(opcode: Seq<char>) -> InstrModel {
    InstrModel { opcode, operands: Seq::empty() }
}

/// A loop over the given body.
pub open spec fn loop_model(body: Seq<InstrModel>) -> InstrModel {
    InstrModel { opcode: op::LOOP@, operands: as_operands(body) }
}

fn amount_instruction(opcode: &str, amount: i64) -> (r: Instruction)
    ensures
        r@ == amount_model(opcode@, amount),
{
    let mut operands: Vec<Operand> = Vec::new();
    operands.push(Operand::Value(Value::BetterBrainfuck(BetterBrainfuckValue(amount))));
    let r = Instruction::new(opcode, operands);
    assert(r@.operands =~= amount_model(opcode@, amount).operands);
    r
}

/// Moves the data pointer by `offset` cells (right where it is positive).
pub fn move_ptr(offset: i64) -> (r: Instruction)
    ensures
        r@ == amount_model(op::MOVE@, offset),
{
    amount_instruction(op::MOVE, offset)
}

/// Adds `value` to the current cell.
pub fn add(value: i64) -> (r: Instruction)
    ensures
        r@ == amount_model(op::ADD@, value),
{
    amount_instruction(op::ADD, value)
}

/// Writes the current cell.
pub fn output() -> (r: Instruction)
    ensures
        r@ == leaf_model(op::OUTPUT@),
{
    Instruction::leaf(op::OUTPUT)
}

/// Reads into the current cell.
pub fn input() -> (r: Instruction)
    ensures
        r@ == leaf_model(op::INPUT@),
{
    Instruction::leaf(op::INPUT)
}

/// Repeats its body while the current cell is not zero.
pub fn loop_of(instructions: Vec<Instruction>) -> (r: Instruction)
    ensures
        r@ == loop_model(instrs_model(instructions@)),
{
    Instruction::new(op::LOOP, wrap_instructions(instructions))
}

/// The amount of a move or an addition: its first operand, where that is a Better
/// Brainfuck integer.
pub open spec fn amount_of(i: InstrModel) -> Option<i64> {
    if i.operands.len() > 0 {
        match i.operands[0] {
            OperandModel::Value(ValueModel::BetterBrainfuck(a)) => Some(a),
            _ => None,
        }
    } else {
        None
    }
}

/// The opcodes of Better Brainfuck are distinct.
pub proof fn lemma_opcodes()
    ensures
        op::MOVE@ != op::ADD@,
        op::MOVE@ != op::OUTPUT@,
        op::MOVE@ != op::INPUT@,
        op::MOVE@ != op::LOOP@,
        op::ADD@ != op::OUTPUT@,
        op::ADD@ != op::INPUT@,
        op::ADD@ != op::LOOP@,
        op::OUTPUT@ != op::INPUT@,
        op::OUTPUT@ != op::LOOP@,
        op::INPUT@ != op::LOOP@,
{
    reveal_strlit("bbf.move");
    reveal_strlit("bbf.add");
    reveal_strlit("bbf.output");
    reveal_strlit("bbf.input");
    reveal_strlit("bbf.loop");
    assert(op::MOVE@.len() == 8 && op::MOVE@[4] == 'm');
    assert(op::ADD@.len() == 7 && op::ADD@[4] == 'a');
    assert(op::OUTPUT@.len() == 10 && op::OUTPUT@[4] == 'o');
    assert(op::INPUT@.len() == 9 && op::INPUT@[4] == 'i');
    assert(op::LOOP@.len() == 8 && op::LOOP@[4] == 'l');
}

/// Law: the instructions that the Better Brainfuck constructors build pass the
/// language's check: a move or an addition of any amount, output, input, and a loop
/// over any instructions.
pub proof fn law_constructors_verify(amount: i64, body: Seq<InstrModel>)
    ensures
        crate::ir::verify_spec(bbf_defs(), amount_model(op::MOVE@, amount)) is Ok,
        crate::ir::verify_spec(bbf_defs(), amount_model(op::ADD@, amount)) is Ok,
        crate::ir::verify_spec(bbf_defs(), leaf_model(op::OUTPUT@)) is Ok,
        crate::ir::verify_spec(bbf_defs(), leaf_model(op::INPUT@)) is Ok,
        crate::ir::verify_spec(bbf_defs(), loop_model(body)) is Ok,
{
    lemma_opcodes();
    reveal_with_fuel(crate::ir::find_def, 6);
    reveal_strlit("int");
    crate::ir::lemma_instructions_match(as_operands(body), 0);
    reveal_with_fuel(crate::ir::first_mismatch, 2);
}

} // verus!
