//! The Simp language: its values, definitions and constructors.
use vstd::prelude::*;

use super::op;
use crate::ir::{
    as_operands, instrs_model, wrap_instructions, DefModel, InstrModel, Instruction,
    InstructionDefinition, KindModel, Language, Operand, OperandKind, OperandModel, Value,
    ValueModel, ValueType,
};
use crate::text::{decimal, decimal_string};

verus! {

/// A value of Simp: an integer, or a name.
#[derive(Debug, Clone, PartialEq, Eq)]
pub enum SimpValue {
    Int(i64),
    Str(String),
}

impl SimpValue {
    /// The type of the value: `int` or `str`.
    pub fn value_type(&self) -> (r: ValueType)
        ensures
            r@ == (match self {
                SimpValue::Int(_) => "int"@,
                SimpValue::Str(_) => "str"@,
            }),
    {
        match self {
            SimpValue::Int(_) => ValueType("int".to_owned()),
            SimpValue::Str(_) => ValueType("str".to_owned()),
        }
    }

    /// The text of the value: the integer in decimal, or the name.
    pub fn display(&self) -> (r: String)
        ensures
            r@ == (match self {
                SimpValue::Int(i) => decimal(*i as int),
                SimpValue::Str(s) => s@,
            }),
    {
        match self {
            SimpValue::Int(i) => decimal_string(*i),
            SimpValue::Str(s) => s.clone(),
        }
    }
}

/// The Simp language.
pub struct SimpLanguage;

/// The definitions of Simp's instructions.
pub open spec fn simp_defs() -> Seq<DefModel> {
    seq![
        DefModel { opcode: op::CONSTANT@, operands: Some(seq![KindModel::Value("int"@)]) },
        DefModel { opcode: op::VARIABLE@, operands: Some(seq![KindModel::Value("str"@)]) },
        DefModel {
            opcode: op::ADD@,
            operands: Some(seq![KindModel::Instruction, KindModel::Instruction]),
        },
        DefModel {
            opcode: op::SUB@,
            operands: Some(seq![KindModel::Instruction, KindModel::Instruction]),
        },
        DefModel {
            opcode: op::ASSIGN@,
            operands: Some(seq![KindModel::Value("str"@), KindModel::Instruction]),
        },
        DefModel { opcode: op::PRINT@, operands: Some(seq![KindModel::Instruction]) },
        DefModel {
            opcode: op::LOOP@,
            operands: Some(seq![KindModel::Instruction, KindModel::Instruction]),
        },
        DefModel { opcode: op::BODY@, operands: None },
    ]
}

fn kinds_of(first: Option<&str>, second: Option<&str>, count: usize) -> (r: Vec<OperandKind>)
    requires
        1 <= count <= 2,
    ensures
        crate::ir::kinds_model(r@) == (if count == 1 {
            seq![kind_spec(first)]
        } else {
            seq![kind_spec(first), kind_spec(second)]
        }),
{
    let mut v: Vec<OperandKind> = Vec::new();
    v.push(kind_from(first));
    if count == 2 {
        v.push(kind_from(second));
    }
    assert(crate::ir::kinds_model(v@) =~= (if count == 1 {
        seq![kind_spec(first)]
    } else {
        seq![kind_spec(first), kind_spec(second)]
    }));
    v
}

/// The kind named by an optional type name: a value of that type, or an instruction.
pub open spec fn kind_spec(t: Option<&str>) -> KindModel {
    match t {
        Some(name) => KindModel::Value(name@),
        None => KindModel::Instruction,
    }
}

fn kind_from(t: Option<&str>) -> (r: OperandKind)
    ensures
        r@ == kind_spec(t),
{
    match t {
        Some(name) => OperandKind::Value(ValueType(name.to_owned())),
        None => OperandKind::Instruction,
    }
}

impl Language for SimpLanguage {
    open spec fn spec_name(&self) -> Seq<char> {
        "simp"@
    }

    open spec fn spec_defs(&self) -> Seq<DefModel> {
        simp_defs()
    }

    fn name(&self) -> (r: &str) {
        "simp"
    }

    fn instruction_defs(&self) -> (r: Vec<InstructionDefinition>) {
        let mut defs: Vec<InstructionDefinition> = Vec::new();
        defs.push(InstructionDefinition::new(op::CONSTANT, Some(kinds_of(Some("int"), None, 1))));
        defs.push(InstructionDefinition::new(op::VARIABLE, Some(kinds_of(Some("str"), None, 1))));
        defs.push(InstructionDefinition::new(op::ADD, Some(kinds_of(None, None, 2))));
        defs.push(InstructionDefinition::new(op::SUB, Some(kinds_of(None, None, 2))));
        defs.push(InstructionDefinition::new(op::ASSIGN, Some(kinds_of(Some("str"), None, 2))));
        defs.push(InstructionDefinition::new(op::PRINT, Some(kinds_of(None, None, 1))));
        defs.push(InstructionDefinition::new(op::LOOP, Some(kinds_of(None, None, 2))));
        defs.push(InstructionDefinition::new(op::BODY, None));
        assert(crate::ir::defs_model(defs@) =~= simp_defs());
        defs
    }
}

/// The model of an integer constant.
pub open spec fn constant_model(value: i64) -> InstrModel {
    InstrModel {
        opcode: op::CONSTANT@,
        operands: seq![OperandModel::Value(ValueModel::SimpInt(value))],
    }
}

/// The model of a variable.
pub open spec fn variable_model(name: Seq<char>) -> InstrModel {
    InstrModel {
        opcode: op::VARIABLE@,
        operands: seq![OperandModel::Value(ValueModel::SimpStr(name))],
    }
}

/// The model of an instruction with two instruction operands.
pub open spec fn pair_model(opcode: Seq<char>, a: InstrModel, b: InstrModel) -> InstrModel {
    InstrModel {
        opcode,
        operands: seq![OperandModel::Instruction(a), OperandModel::Instruction(b)],
    }
}

/// The model of an assignment.
pub open spec fn assign_model(name: Seq<char>, expr: InstrModel) -> InstrModel {
    InstrModel {
        opcode: op::ASSIGN@,
        operands: seq![
            OperandModel::Value(ValueModel::SimpStr(name)),
            OperandModel::Instruction(expr),
        ],
    }
}

/// The model of a print.
pub open spec fn print_model(operand: InstrModel) -> InstrModel {
    InstrModel { opcode: op::PRINT@, operands: seq![OperandModel::Instruction(operand)] }
}

/// The model of a body of statements.
pub open spec fn body_model(statements: Seq<InstrModel>) -> InstrModel {
    InstrModel { opcode: op::BODY@, operands: as_operands(statements) }
}

fn one_value(v: Value) -> (r: Vec<Operand>)
    ensures
        crate::ir::operands_model(r@) == seq![OperandModel::Value(v@)],
{
    let mut ops: Vec<Operand> = Vec::new();
    ops.push(Operand::Value(v));
    assert(crate::ir::operands_model(ops@) =~= seq![OperandModel::Value(v@)]);
    ops
}

fn two_instructions(a: Instruction, b: Instruction) -> (r: Vec<Operand>)
    ensures
        crate::ir::operands_model(r@) == seq![
            OperandModel::Instruction(a@),
            OperandModel::Instruction(b@),
        ],
{
    let mut ops: Vec<Operand> = Vec::new();
    ops.push(Operand::Instruction(Box::new(a)));
    ops.push(Operand::Instruction(Box::new(b)));
    assert(crate::ir::operands_model(ops@) =~= seq![
        OperandModel::Instruction(a@),
        OperandModel::Instruction(b@),
    ]);
    ops
}

/// An integer constant.
pub fn constant(value: i64) -> (r: Instruction)
    ensures
        r@ == constant_model(value),
{
    Instruction::new(op::CONSTANT, one_value(Value::Simp(SimpValue::Int(value))))
}

/// A variable.
pub fn variable(name: &str) -> (r: Instruction)
    ensures
        r@ == variable_model(name@),
{
    Instruction::new(op::VARIABLE, one_value(Value::Simp(SimpValue::Str(name.to_owned()))))
}

/// The sum of two expressions.
pub fn add(lhs: Instruction, rhs: Instruction) -> (r: Instruction)
    ensures
        r@ == pair_model(op::ADD@, lhs@, rhs@),
{
    Instruction::new(op::ADD, two_instructions(lhs, rhs))
}

/// The difference of two expressions.
pub fn sub(lhs: Instruction, rhs: Instruction) -> (r: Instruction)
    ensures
        r@ == pair_model(op::SUB@, lhs@, rhs@),
{
    Instruction::new(op::SUB, two_instructions(lhs, rhs))
}

/// Assigns an expression to a variable.
pub fn assign(name: &str, expr: Instruction) -> (r: Instruction)
    ensures
        r@ == assign_model(name@, expr@),
{
    let mut ops: Vec<Operand> = Vec::new();
    ops.push(Operand::Value(Value::Simp(SimpValue::Str(name.to_owned()))));
    ops.push(Operand::Instruction(Box::new(expr)));
    let r = Instruction::new(op::ASSIGN, ops);
    assert(r@.operands =~= assign_model(name@, expr@).operands);
    r
}

/// Prints an expression.
pub fn print(operand: Instruction) -> (r: Instruction)
    ensures
        r@ == print_model(operand@),
{
    let mut ops: Vec<Operand> = Vec::new();
    ops.push(Operand::Instruction(Box::new(operand)));
    let r = Instruction::new(op::PRINT, ops);
    assert(r@.operands =~= print_model(operand@).operands);
    r
}

/// A body of statements.
pub fn body(statements: Vec<Instruction>) -> (r: Instruction)
    ensures
        r@ == body_model(instrs_model(statements@)),
{
    Instruction::new(op::BODY, wrap_instructions(statements))
}

/// Repeats a body as many times as the count says.
pub fn loop_of(count: Instruction, body: Instruction) -> (r: Instruction)
    ensures
        r@ == pair_model(op::LOOP@, count@, body@),
{
    Instruction::new(op::LOOP, two_instructions(count, body))
}

/// Law: the instructions that the Simp constructors build pass the language's check:
/// constants, variables, additions and subtractions, assignments, prints, loops and
/// bodies, whatever they are built from.
pub proof fn law_constructors_verify(
    value: i64,
    name: Seq<char>,
    a: InstrModel,
    b: InstrModel,
    statements: Seq<InstrModel>,
)
    ensures
        crate::ir::verify_spec(simp_defs(), constant_model(value)) is Ok,
        crate::ir::verify_spec(simp_defs(), variable_model(name)) is Ok,
        crate::ir::verify_spec(simp_defs(), pair_model(op::ADD@, a, b)) is Ok,
        crate::ir::verify_spec(simp_defs(), pair_model(op::SUB@, a, b)) is Ok,
        crate::ir::verify_spec(simp_defs(), assign_model(name, a)) is Ok,
        crate::ir::verify_spec(simp_defs(), print_model(a)) is Ok,
        crate::ir::verify_spec(simp_defs(), pair_model(op::LOOP@, a, b)) is Ok,
        crate::ir::verify_spec(simp_defs(), body_model(statements)) is Ok,
{
    crate::simp::emitter::lemma_opcodes();
    reveal_with_fuel(crate::ir::find_def, 9);
    reveal_strlit("int");
    reveal_strlit("str");
    crate::ir::lemma_instructions_match(as_operands(statements), 0);
    reveal_with_fuel(crate::ir::first_mismatch, 3);
}

} // verus!
