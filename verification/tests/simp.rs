use lib::errors::{CompileError, ParseError, VerifyError};
use lib::ir::{Instruction, Language, Operand, Value};
use lib::simp::emitter::{emit, emit_instruction};
use lib::simp::op;
use lib::simp::parser::{parse, SimpParser};
use lib::simp::tokens::{tokenize, Token};
use lib::simp::{add, assign, body, constant, loop_of, print, sub, variable, SimpLanguage, SimpValue};

const EXAMPLE: &str = "x = 2\ny = 0\nloop x {\n    y = y + 2\n}\nprint y\n";

#[test]
fn tokenize_example() {
    let tokens = tokenize("x = 12 + y_1 - 3 loop { } print").unwrap();
    assert_eq!(
        tokens,
        vec![
            Token::Ident("x".to_string()),
            Token::Equals,
            Token::Integer(12),
            Token::Plus,
            Token::Ident("y_1".to_string()),
            Token::Minus,
            Token::Integer(3),
            Token::Loop,
            Token::LBrace,
            Token::RBrace,
            Token::Print,
        ]
    );
}

#[test]
fn tokenize_skips_unknown_characters() {
    assert_eq!(tokenize("x ; = ( 1 )").unwrap(), vec![Token::Ident("x".to_string()), Token::Equals, Token::Integer(1)]);
}

#[test]
fn tokenize_numeral_too_large_aborts() {
    assert!(tokenize("x = 99999999999999999999").is_none());
}

#[test]
fn parse_example_program() {
    let module = parse(EXAMPLE).unwrap();
    assert_eq!(module.language.name, "simp");
    let expected = vec![
        assign("x", constant(2)),
        assign("y", constant(0)),
        loop_of(variable("x"), body(vec![assign("y", add(variable("y"), constant(2)))])),
        print(variable("y")),
    ];
    assert_eq!(module.instructions, expected);
    assert_eq!(emit(&module.instructions), Ok("x = 2\ny = 0\nloop x {\ny = (y + 2)\n}\nprint(y)\n".to_string()));
}

#[test]
fn expressions_associate_to_the_left() {
    let module = parse("x = a + b - 1").unwrap();
    assert_eq!(module.instructions, vec![assign("x", sub(add(variable("a"), variable("b")), constant(1)))]);
    assert_eq!(emit_instruction(&module.instructions[0]), Ok("x = ((a + b) - 1)".to_string()));
}

#[test]
fn parse_unexpected_token() {
    assert_eq!(
        parse("x = = 3").err(),
        Some(CompileError::ParseError(ParseError::UnexpectedToken { token: "Equals".to_string(), position: 1 }))
    );
}

#[test]
fn parse_statement_cannot_start_with_integer() {
    assert_eq!(
        parse("5").err(),
        Some(CompileError::ParseError(ParseError::UnexpectedToken { token: "Integer(5)".to_string(), position: 0 }))
    );
}

#[test]
fn parse_ident_token_text_is_quoted() {
    assert_eq!(
        parse("print x y = x print = ").err(),
        Some(CompileError::ParseError(ParseError::UnexpectedToken { token: "Equals".to_string(), position: 0 }))
    );
    assert_eq!(
        parse("loop 3 { x = 1 } loop 2 y").err(),
        Some(CompileError::ParseError(ParseError::UnexpectedToken { token: "Ident(\"y\")".to_string(), position: 0 }))
    );
}

#[test]
fn parse_unexpected_end() {
    assert_eq!(parse("print").err(), Some(CompileError::ParseError(ParseError::UnexpectedEof { position: 0 })));
    assert_eq!(parse("loop 3 { x = 1").err(), Some(CompileError::ParseError(ParseError::UnexpectedEof { position: 0 })));
}

#[test]
fn parse_empty_program() {
    assert_eq!(parse("  \n ").unwrap().instructions, vec![]);
}

#[test]
fn parser_object() {
    assert_eq!(SimpParser.parse("print 1").unwrap().instructions, vec![print(constant(1))]);
    assert!(SimpParser.try_parse("x = 99999999999999999999").is_none());
}

#[test]
fn emit_constant_and_variable() {
    assert_eq!(emit_instruction(&constant(-4)), Ok("-4".to_string()));
    assert_eq!(emit_instruction(&variable("abc")), Ok("abc".to_string()));
    assert_eq!(emit(&[]), Ok(String::new()));
}

#[test]
fn emit_unknown_opcode() {
    assert_eq!(
        emit_instruction(&Instruction::leaf("bf.incr")),
        Err(VerifyError::UnknownOpcode("bf.incr".to_string()))
    );
}

#[test]
fn emit_invalid_operands() {
    let bad_print = Instruction::new(op::PRINT, vec![Operand::Instruction(Box::new(print(constant(1))))]);
    assert_eq!(emit_instruction(&bad_print), Err(VerifyError::InvalidOperand { position: 0 }));
    let bad_assign = Instruction::new(
        op::ASSIGN,
        vec![Operand::Value(Value::Simp(SimpValue::Str("x".to_string()))), Operand::Instruction(Box::new(print(constant(1))))],
    );
    assert_eq!(emit_instruction(&bad_assign), Err(VerifyError::InvalidOperand { position: 1 }));
    let bad_loop = loop_of(constant(1), constant(2));
    assert_eq!(emit_instruction(&bad_loop), Err(VerifyError::InvalidOperand { position: 1 }));
}

#[test]
fn simp_language_verifies_its_instructions() {
    let lang = SimpLanguage;
    assert_eq!(lang.name(), "simp");
    assert!(lang.verify(&assign("x", add(constant(1), variable("y")))).is_ok());
    assert!(lang.verify(&body(vec![print(constant(1)), print(constant(2))])).is_ok());
    assert!(matches!(
        lang.verify(&Instruction::new(op::PRINT, vec![])),
        Err(VerifyError::ArityMismatch { expected: 1, got: 0, .. })
    ));
    assert!(matches!(
        lang.verify(&Instruction::new(op::CONSTANT, vec![Operand::Value(Value::Simp(SimpValue::Str("a".to_string())))])),
        Err(VerifyError::OperandTypeMismatch { position: 0, .. })
    ));
}

#[test]
fn simp_values() {
    assert_eq!(SimpValue::Int(-12).display(), "-12");
    assert_eq!(SimpValue::Str("n".to_string()).display(), "n");
    assert_eq!(SimpValue::Int(0).value_type().0, "int");
    assert_eq!(SimpValue::Str("n".to_string()).value_type().0, "str");
}

#[test]
fn identifiers_continue_with_unicode_letters() {
    assert_eq!(
        tokenize("xé2 = 1").unwrap(),
        vec![Token::Ident("xé2".to_string()), Token::Equals, Token::Integer(1)]
    );
    // A name cannot start with a letter outside ASCII: it is skipped.
    assert_eq!(tokenize("é").unwrap(), vec![]);
}

#[test]
fn parsed_statements_pass_the_check() {
    let module = parse(EXAMPLE).unwrap();
    let lang = SimpLanguage;
    for instr in &module.instructions {
        assert!(lang.verify(instr).is_ok());
    }
}

#[test]
fn emitted_text_parses_back_to_the_same_program() {
    let sources = [
        EXAMPLE,
        "x = a + b - 1 + 7\nloop x { loop 2 { print(y) } z = 0 }",
        "count = 10 print(count) loop count { count = count - 1 print(count) }",
        "xé2 = 1\nprint(xé2)",
        "",
    ];
    for source in sources.iter() {
        let module = parse(source).unwrap();
        let text = emit(&module.instructions).unwrap();
        let again = parse(&text).unwrap();
        assert_eq!(again.language.name, module.language.name);
        assert_eq!(again.instructions, module.instructions);
    }
}
