use lib::brainfuck::emitter::{emit, BrainfuckEmitter};
use lib::brainfuck::op;
use lib::brainfuck::parser::{parse, BrainfuckParser};
use lib::brainfuck::{decr, incr, input, loop_of, output, ptr_left, ptr_right, BrainfuckLanguage};
use lib::errors::{CompileError, ParseError, VerifyError};
use lib::ir::{ForeignValue, Instruction, Language, Module, Operand, OperandKind, Value, ValueType};

#[test]
fn emit_simple() {
    // +++[>++<-]>.
    // cell0 = 3, loop: cell1 += 2, cell0 -= 1, then output cell1 (= 6)
    let loop_body = vec![ptr_right(), incr(), incr(), ptr_left(), decr()];
    let instrs = vec![incr(), incr(), incr(), loop_of(loop_body), ptr_right(), output()];
    assert_eq!(emit(&instrs), Ok("+++[>++<-]>.".into()));
}

#[test]
fn verify_valid() {
    let lang = BrainfuckLanguage;
    let instr = loop_of(vec![incr(), decr()]);
    assert!(lang.verify(&instr).is_ok());
}

#[test]
fn verify_loop_wrong_operand() {
    // A value of a language that this crate does not know, of type "dummy".
    let dummy = ForeignValue { value_type: ValueType("dummy".to_string()), text: "dummy".to_string() };
    let lang = BrainfuckLanguage;
    let bad = Instruction::new(op::LOOP, vec![Operand::Value(Value::Foreign(dummy))]);
    assert!(matches!(
        lang.verify(&bad),
        Err(VerifyError::OperandTypeMismatch { position: 0, .. })
    ));
}

#[test]
fn module_roundtrip() {
    let mut module = Module::new(BrainfuckLanguage);
    module.push(incr());
    module.push(output());
    let result = emit(&module.instructions);
    assert_eq!(result, Ok("+.".into()));
}

#[test]
fn roundtrip() {
    let source = "+++[>++<-]>.";
    let instructions = parse(source).unwrap().instructions;
    assert_eq!(emit(&instructions), Ok(source.into()));
}

#[test]
fn nested_loops() {
    let source = "[[[]]]";
    let instructions = parse(source).unwrap().instructions;
    assert_eq!(emit(&instructions), Ok(source.into()));
}

#[test]
fn comments_ignored() {
    let source = "this is a comment +++. more comment";
    let instructions = parse(source).unwrap().instructions;
    assert_eq!(emit(&instructions), Ok("+++.".into()));
}

#[test]
fn empty() {
    assert_eq!(parse("").unwrap().instructions, vec![]);
}

#[test]
fn unexpected_closing_bracket() {
    assert_eq!(
        parse("]").err(),
        Some(ParseError::UnexpectedToken { token: "]".to_string(), position: 0 })
    );
}

#[test]
fn unclosed_opening_bracket() {
    assert_eq!(parse("[++").err(), Some(ParseError::UnexpectedEof { position: 3 }));
}

#[test]
fn unclosed_reports_first_bracket() {
    assert_eq!(parse("[[]").err(), Some(ParseError::UnexpectedEof { position: 3 }));
}

#[test]
fn all_commands_roundtrip() {
    let source = "><+-.,[]";
    let instructions = parse(source).unwrap().instructions;
    assert_eq!(instructions.len(), 7);
    assert_eq!(emit(&instructions), Ok(source.into()));
}

#[test]
fn parsed_module_is_brainfuck() {
    let module = parse("+").unwrap();
    assert_eq!(module.language.name, "brainfuck");
    assert_eq!(module.instructions, vec![incr()]);
}

#[test]
fn parse_builds_nested_instructions() {
    let instructions = parse("+[>[-]<]").unwrap().instructions;
    let expected = vec![incr(), loop_of(vec![ptr_right(), loop_of(vec![decr()]), ptr_left()])];
    assert_eq!(instructions, expected);
}

#[test]
fn closing_bracket_after_balanced_text() {
    assert_eq!(
        parse("[]+]").err(),
        Some(ParseError::UnexpectedToken { token: "]".to_string(), position: 3 })
    );
}

#[test]
fn positions_count_characters() {
    assert_eq!(parse("é]").err(), Some(ParseError::UnexpectedToken { token: "]".to_string(), position: 1 }));
}

#[test]
fn emit_loop_with_value_is_invalid() {
    let bad = Instruction::new(op::LOOP, vec![Operand::Value(Value::Foreign(ForeignValue {
        value_type: ValueType("int".to_string()),
        text: "1".to_string(),
    }))]);
    assert_eq!(emit(&[bad]), Err(VerifyError::InvalidOperand { position: 0 }));
}

#[test]
fn emit_unknown_opcode_gives_nothing() {
    let other = Instruction::leaf("other.op");
    assert_eq!(emit(&[incr(), other, input()]), Ok("+,".into()));
}

#[test]
fn verify_unknown_opcode() {
    let lang = BrainfuckLanguage;
    let other = Instruction::leaf("other.op");
    assert_eq!(lang.verify(&other), Err(VerifyError::UnknownOpcode("other.op".to_string())));
}

#[test]
fn verify_arity_mismatch() {
    let lang = BrainfuckLanguage;
    let bad = Instruction::new(op::INCR, vec![Operand::Instruction(Box::new(incr()))]);
    assert_eq!(
        lang.verify(&bad),
        Err(VerifyError::ArityMismatch { opcode: op::INCR.to_string(), expected: 0, got: 1 })
    );
}

#[test]
fn verify_loop_accepts_any_number_of_operands() {
    let lang = BrainfuckLanguage;
    assert!(lang.verify(&loop_of(vec![])).is_ok());
    assert!(lang.verify(&loop_of(vec![incr(), incr(), output()])).is_ok());
}

#[test]
fn language_definitions() {
    let lang = BrainfuckLanguage;
    assert_eq!(lang.name(), "brainfuck");
    assert_eq!(lang.instruction_defs().len(), 7);
    let def = lang.get_def(op::OUTPUT).unwrap();
    assert_eq!(def.opcode, op::OUTPUT);
    assert_eq!(def.operands, Some(vec![]));
    assert_eq!(lang.get_def(op::LOOP).unwrap().operands, None);
    assert!(lang.get_def("bbf.move").is_none());
    let _ = OperandKind::Instruction;
}

#[test]
fn parser_and_emitter_objects() {
    let module = BrainfuckParser.parse("+[-]").unwrap();
    assert_eq!(BrainfuckEmitter.emit(&module), Ok("+[-]".to_string()));
    assert_eq!(
        BrainfuckParser.parse("]").err(),
        Some(CompileError::ParseError(ParseError::UnexpectedToken { token: "]".to_string(), position: 0 }))
    );
}

#[test]
fn verify_loop_value_after_instructions() {
    let lang = BrainfuckLanguage;
    let value = Operand::Value(Value::Foreign(ForeignValue { value_type: ValueType("dummy".to_string()), text: "d".to_string() }));
    let bad = Instruction::new(op::LOOP, vec![Operand::Instruction(Box::new(incr())), value]);
    assert_eq!(
        lang.verify(&bad),
        Err(VerifyError::OperandTypeMismatch {
            opcode: op::LOOP.to_string(),
            position: 1,
            expected: OperandKind::Instruction,
            got: OperandKind::Value(ValueType("dummy".to_string())),
        })
    );
}

#[test]
fn parsed_instructions_pass_the_check() {
    let lang = BrainfuckLanguage;
    for instr in &parse("+[->+<]>.,[[-]]").unwrap().instructions {
        assert!(lang.verify(instr).is_ok());
    }
}
