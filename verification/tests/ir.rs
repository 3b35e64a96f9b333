use lib::brainfuck::{decr, incr, loop_of, BrainfuckLanguage};
use lib::errors::{CompileError, ParseError, VerifyError};
use lib::ir::{ForeignValue, Instruction, Module, Operand, OperandKind, Value, ValueType};
use lib::simp::{add, constant, variable, SimpValue};

#[test]
fn operand_text() {
    let op = Operand::Instruction(Box::new(add(constant(1), variable("x"))));
    assert_eq!(op.to_string(), "(simp.add: (simp.const: 1), (simp.var: x))");
    assert_eq!(Operand::Value(Value::Simp(SimpValue::Int(-7))).to_string(), "-7");
}

#[test]
fn module_text() {
    let mut m = Module::new(BrainfuckLanguage);
    m.push(incr());
    m.push(loop_of(vec![decr()]));
    assert_eq!(m.to_string(), "brainfuck:\n  bf.incr \n  bf.loop (bf.decr: )\n");
}

#[test]
fn values_compare_by_type() {
    let one = Operand::Value(Value::Simp(SimpValue::Int(1)));
    let two = Operand::Value(Value::Simp(SimpValue::Int(2)));
    let name = Operand::Value(Value::Simp(SimpValue::Str("a".to_string())));
    assert!(one == two);
    assert!(one != name);
    assert!(one != Operand::Instruction(Box::new(incr())));
}

#[test]
fn instructions_compare_structurally() {
    assert_eq!(loop_of(vec![incr(), decr()]), loop_of(vec![incr(), decr()]));
    assert_ne!(loop_of(vec![incr(), decr()]), loop_of(vec![decr(), incr()]));
    assert_ne!(loop_of(vec![incr()]), loop_of(vec![incr(), incr()]));
    assert_ne!(Instruction::leaf("a"), Instruction::leaf("b"));
}

#[test]
fn value_types_and_text() {
    let f = Value::Foreign(ForeignValue { value_type: ValueType("dummy".to_string()), text: "d".to_string() });
    assert_eq!(f.value_type(), ValueType("dummy".to_string()));
    assert_eq!(f.display(), "d");
    assert_eq!(Value::BetterBrainfuck(lib::better_brainfuck::BetterBrainfuckValue(-3)).display(), "-3");
    assert_eq!(Value::BetterBrainfuck(lib::better_brainfuck::BetterBrainfuckValue(3)).value_type(), ValueType("int".to_string()));
}

#[test]
fn verify_error_messages() {
    assert_eq!(VerifyError::UnknownOpcode("x.y".to_string()).message(), "unknown opcode 'x.y'");
    assert_eq!(
        VerifyError::ArityMismatch { opcode: "bf.incr".to_string(), expected: 0, got: 12 }.message(),
        "'bf.incr' expects 0 operand(s), got 12"
    );
    assert_eq!(
        VerifyError::OperandTypeMismatch {
            opcode: "bf.loop".to_string(),
            position: 0,
            expected: OperandKind::Instruction,
            got: OperandKind::Value(ValueType("dummy".to_string())),
        }
        .message(),
        "'bf.loop' operand 0: expected Instruction, got Value(ValueType(\"dummy\"))"
    );
    assert_eq!(VerifyError::InvalidOperand { position: 3 }.message(), "invalid operand at position 3");
}

#[test]
fn parse_and_compile_error_messages() {
    assert_eq!(
        ParseError::UnexpectedToken { token: "]".to_string(), position: 10 }.message(),
        "unexpected token ']' at position 10"
    );
    assert_eq!(ParseError::UnexpectedEof { position: 3 }.message(), "unexpected end of file at position 3");
    assert_eq!(
        ParseError::InvalidInstruction(VerifyError::InvalidOperand { position: 1 }).message(),
        "invalid instruction: invalid operand at position 1"
    );
    assert_eq!(
        CompileError::ParseError(ParseError::UnexpectedEof { position: 0 }).message(),
        "parse error: unexpected end of file at position 0"
    );
    assert_eq!(
        CompileError::VerifyError(VerifyError::UnknownOpcode("q".to_string())).message(),
        "verification error: unknown opcode 'q'"
    );
}

#[test]
fn errors_convert() {
    let e: CompileError = VerifyError::InvalidOperand { position: 0 }.into();
    assert_eq!(e, CompileError::VerifyError(VerifyError::InvalidOperand { position: 0 }));
    let p: CompileError = ParseError::UnexpectedEof { position: 2 }.into();
    assert_eq!(p, CompileError::ParseError(ParseError::UnexpectedEof { position: 2 }));
    let i: ParseError = VerifyError::InvalidOperand { position: 4 }.into();
    assert_eq!(i, ParseError::InvalidInstruction(VerifyError::InvalidOperand { position: 4 }));
}
