use lib::better_brainfuck::emitter::{try_emit, BetterBrainfuckEmitter};
use lib::better_brainfuck::{add, input, loop_of, move_ptr, op, output, BetterBrainfuckLanguage, BetterBrainfuckValue};
use lib::errors::{CompileError, VerifyError};
use lib::ir::{Instruction, Language, Module, Operand, Value};

fn module(instructions: Vec<Instruction>) -> Module {
    let mut m = Module::new(BetterBrainfuckLanguage);
    for i in instructions {
        m.push(i);
    }
    m
}

#[test]
fn emit_amounts_and_io() {
    let m = module(vec![move_ptr(12), add(-5), add(0), output(), input(), move_ptr(-1)]);
    assert_eq!(BetterBrainfuckEmitter.emit(&m), Ok(">12 -5 -0 .,<1 ".to_string()));
}

#[test]
fn emit_nested_loops_indents() {
    let m = module(vec![loop_of(vec![loop_of(vec![output()])])]);
    assert_eq!(BetterBrainfuckEmitter.emit(&m), Ok("\n[\n  \n  [\n    . \n  ]\n \n]\n".to_string()));
}

#[test]
fn emit_unknown_opcode_gives_its_indentation_only() {
    let m = module(vec![lib::brainfuck::incr(), output()]);
    assert_eq!(BetterBrainfuckEmitter.emit(&m), Ok(".".to_string()));
}

#[test]
fn emit_loop_holding_a_value_is_invalid() {
    let bad = Instruction::new(op::LOOP, vec![Operand::Value(Value::BetterBrainfuck(BetterBrainfuckValue(1)))]);
    assert_eq!(
        BetterBrainfuckEmitter.emit(&module(vec![bad])),
        Err(CompileError::VerifyError(VerifyError::InvalidOperand { position: 0 }))
    );
}

#[test]
fn emit_amount_of_wrong_type_is_invalid() {
    let bad = Instruction::new(op::ADD, vec![Operand::Value(Value::Simp(lib::simp::SimpValue::Int(1)))]);
    assert_eq!(try_emit(&[bad]), Some(Err(VerifyError::InvalidOperand { position: 0 })));
    let missing = Instruction::new(op::MOVE, vec![]);
    assert_eq!(try_emit(&[missing]), Some(Err(VerifyError::InvalidOperand { position: 0 })));
}

#[test]
fn emit_minimum_amount_aborts() {
    let m = module(vec![add(i64::MIN)]);
    assert!(BetterBrainfuckEmitter.try_emit(&m).is_none());
}

#[test]
fn better_brainfuck_language() {
    let lang = BetterBrainfuckLanguage;
    assert_eq!(lang.name(), "better-brainfuck");
    assert_eq!(lang.instruction_defs().len(), 5);
    assert!(lang.verify(&move_ptr(3)).is_ok());
    assert!(lang.verify(&loop_of(vec![add(1), output()])).is_ok());
    assert!(matches!(
        lang.verify(&Instruction::new(op::MOVE, vec![])),
        Err(VerifyError::ArityMismatch { expected: 1, got: 0, .. })
    ));
    assert_eq!(BetterBrainfuckValue(-2).display(), "-2");
    assert_eq!(BetterBrainfuckValue(-2).value_type().0, "int");
}
