use lib::brainfuck::emitter::emit;
use lib::brainfuck::{self as bf, BrainfuckLanguage};
use lib::compiler::{compile, compiler_pipeline, try_compile};
use lib::errors::{CompileError, ParseError, VerifyError};
use lib::ir::Module;
use lib::pipeline::{Pass, Pipeline};
use lib::transforms::bbf_opt::BBFOptMerge;
use lib::transforms::bbf_to_bf::BBFToBF;
use lib::transforms::bf_to_bbf::BFToBBF;

const EXAMPLE: &str = "x = 2\ny = 0\nloop x {\n    y = y + 2\n}\nprint y\n";

#[test]
fn compile_print_constant() {
    assert_eq!(try_compile("print 3"), Some(Ok("[-]>[-]<+++.".to_string())));
}

#[test]
fn compile_assignment_merges_moves() {
    assert_eq!(
        compile("x = 2\nprint x"),
        Ok(">[-]>[-]>[-]<<++<[-]>[<+>>+<-]>[<+>-]<[-]>[-]<<[>+>+<<-]>>[<<+>>-]<.".to_string())
    );
}

#[test]
fn compile_subtraction() {
    assert_eq!(
        compile("x = 5 - 3\nprint x"),
        Ok(">[-]>[-]>[-]>[-]<+++++>[-]>[-]<+++>[-]<<<<[-]>>[<<+>>>>+<<-]>>[<<+>>-]<[<<<->>>-]<<<<[-]>[<+>>+<-]>[<+>-]<[-]>[-]<<[>+>+<<-]>>[<<+>>-]<."
            .to_string())
    );
}

#[test]
fn compile_language_example() {
    let expected = ">>[-]>[-]>[-]<<++<[-]>[<+>>+<-]>[<+>-]<[-]>[-]>[-]<<<<[-]>>[<<+>>>+<-]>[<+>-]<[-]>[-]>[-]<<<[>+>>+<<<-]>>>[<<<+>>>-]<<[>>[-]>[-]>[-]>[-]<<<<<<<[>>>>>>+>+<<<<<<<-]>>>>>>>[<<<<<<<+>>>>>>>-][-]>[-]<++>[-]<<[<<+>>>>+<<-]>>[<<+>>-]<[<<<+>>>>+<-]>[<+>-]<<<<<<<<[-]>>>>[<<<<+>>>>>+<-]>[<+>-]<<<-][-]>[-]<<<[>>+>+<<<-]>>>[<<<+>>>-]<.";
    assert_eq!(compile(EXAMPLE), Ok(expected.to_string()));
}

#[test]
fn compile_empty_program() {
    assert_eq!(compile(""), Ok(String::new()));
}

#[test]
fn compile_parse_error() {
    assert_eq!(
        compile("x = = 3"),
        Err(CompileError::ParseError(ParseError::UnexpectedToken { token: "Equals".to_string(), position: 1 }))
    );
}

#[test]
fn compile_undefined_variable_aborts() {
    assert_eq!(try_compile("print y"), None);
}

#[test]
fn compiler_pipeline_has_five_stages() {
    let p = compiler_pipeline();
    assert_eq!(p.len(), 5);
}

#[test]
fn empty_pipeline_gives_back_its_module() {
    let mut p = Pipeline::new();
    let m = bf::parser::parse("+[-]>.").unwrap();
    let out = p.run(m).unwrap();
    assert_eq!(out.language.name, "brainfuck");
    assert_eq!(emit(&out.instructions), Ok("+[-]>.".to_string()));
}

#[test]
fn added_transformations_run_in_order() {
    let mut p = Pipeline::new();
    p.add_transformation(Pass::BFToBBF(BFToBBF::new()));
    p.add_transformation(Pass::BBFOptMerge(BBFOptMerge::new(lib::better_brainfuck::op::ADD)));
    p.add_transformation(Pass::BBFToBF(BBFToBF::new()));
    let m = bf::parser::parse("++-+[>+-<]").unwrap();
    let out = p.run(m).unwrap();
    assert_eq!(emit(&out.instructions), Ok("++[><]".to_string()));
}

#[test]
fn pipeline_stops_at_first_error() {
    let mut p = Pipeline::from_transformations(vec![Pass::BBFToBF(BBFToBF::new()), Pass::BFToBBF(BFToBBF::new())]);
    let mut m = Module::new(BrainfuckLanguage);
    m.push(bf::incr());
    assert_eq!(
        p.run(m).err(),
        Some(CompileError::VerifyError(VerifyError::UnknownOpcode("bf.incr".to_string())))
    );
    assert_eq!(p.len(), 2);
}

#[test]
fn pipeline_abort_is_reported() {
    let mut p = Pipeline::from_transformations(vec![Pass::BFToBBF(BFToBBF::new()), Pass::BFToBBF(BFToBBF::new())]);
    let m = bf::parser::parse("+").unwrap();
    assert!(p.try_run(m).is_none());
    assert_eq!(p.len(), 2);
}

fn net_shift(text: &str) -> i64 {
    text.chars().map(|c| if c == '>' { 1 } else if c == '<' { -1 } else { 0 }).sum()
}

#[test]
fn compiled_code_ends_at_the_center() {
    assert_eq!(net_shift(&compile("print 3").unwrap()), 0);
    assert_eq!(net_shift(&compile("x = 2\nprint x").unwrap()), 1);
    assert_eq!(net_shift(&compile(EXAMPLE).unwrap()), 2);
    assert_eq!(net_shift(&compile("a = 1\nb = a\na = b + a\nprint a").unwrap()), 2);
}
