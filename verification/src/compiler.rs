//! The Simp to Brainfuck compiler: Simp text is parsed, compiled to Brainfuck,
//! translated to Better Brainfuck, where consecutive moves and then consecutive
//! additions are merged, translated back to Brainfuck and emitted as text.
use vstd::prelude::*;

use crate::better_brainfuck as bbf;
use crate::brainfuck::syntax::emit_seq;
use crate::errors::{CompileError, CompileErrorModel, VerifyErrorModel};
use crate::pipeline::{pipeline_run, Pass, PassModel, Pipeline};
use crate::simp::parser::parse_spec;
use crate::transforms::bbf_opt::{merge_name, BBFOptMerge, MergeModel};
use crate::transforms::bbf_to_bf::BBFToBF;
use crate::transforms::bf_to_bbf::BFToBBF;
use crate::transforms::simp_to_bf::{SimpState, SimpToBrainfuck};

verus! {

/// The passes of the compiler, as they start.
pub open spec fn compiler_passes() -> Seq<PassModel> {
    seq![
        PassModel::SimpToBrainfuck(SimpState { center: 0, temp: 0, vars: Seq::empty() }),
        PassModel::BFToBBF,
        PassModel::BBFOptMerge(MergeModel { name: merge_name(bbf::op::MOVE@), opcode: bbf::op::MOVE@ }),
        PassModel::BBFOptMerge(MergeModel { name: merge_name(bbf::op::ADD@), opcode: bbf::op::ADD@ }),
        PassModel::BBFToBF,
    ]
}

/// The Brainfuck text of a Simp program, or the first error: of the parser, of a
/// pass, or of the emitter (a loop that holds a value); `None` where a stage aborts.
pub open spec fn compile_spec(source: Seq<char>) -> Option<Result<Seq<char>, CompileErrorModel>> {
    match parse_spec(source) {
        None => None,
        Some(Err(e)) => Some(Err(e)),
        Some(Ok(m)) => match pipeline_run(compiler_passes(), m) {
            None => None,
            Some((_, Err(e))) => Some(Err(e)),
            Some((_, Ok(out))) => match emit_seq(out.instructions) {
                Some(t) => Some(Ok(t)),
                None => Some(
                    Err(CompileErrorModel::VerifyError(VerifyErrorModel::InvalidOperand { position: 0 })),
                ),
            },
        },
    }
}

/// The pipeline of the compiler.
pub fn compiler_pipeline() -> (r: Pipeline)
    ensures
        r@ == compiler_passes(),
{
    let mut p = Pipeline::new();
    p.add_transformation(Pass::SimpToBrainfuck(SimpToBrainfuck::new()));
    p.add_transformation(Pass::BFToBBF(BFToBBF::new()));
    p.add_transformation(Pass::BBFOptMerge(BBFOptMerge::new(bbf::op::MOVE)));
    p.add_transformation(Pass::BBFOptMerge(BBFOptMerge::new(bbf::op::ADD)));
    p.add_transformation(Pass::BBFToBF(BBFToBF::new()));
    assert(p@ =~= compiler_passes());
    p
}

/// Compiles a Simp program to Brainfuck text, as [`compile_spec`] says; `None` where
/// a stage aborts.
pub fn try_compile(source: &str) -> (r: Option<Result<String, CompileError>>)
    ensures
        match compile_spec(source@) {
            None => r is None,
            Some(Ok(t)) => r matches Some(Ok(s)) && s@ == t,
            Some(Err(e)) => r matches Some(Err(x)) && x@ == e,
        },
{
    let module = match crate::simp::parser::try_parse(source) {
        None => {
            return None;
        },
        Some(Err(e)) => {
            return Some(Err(e));
        },
        Some(Ok(m)) => m,
    };
    let mut pipeline = compiler_pipeline();
    let out = match pipeline.try_run(module) {
        None => {
            return None;
        },
        Some(Err(e)) => {
            return Some(Err(e));
        },
        Some(Ok(m)) => m,
    };
    match crate::brainfuck::emitter::emit(out.instructions.as_slice()) {
        Ok(t) => Some(Ok(t)),
        Err(e) => Some(Err(CompileError::VerifyError(e))),
    }
}

/// Compiles a Simp program on which no stage aborts to Brainfuck text.
pub fn compile(source: &str) -> (r: Result<String, CompileError>)
    requires
        compile_spec(source@) is Some,
    ensures
        match compile_spec(source@) {
            Some(Ok(t)) => r matches Ok(s) && s@ == t,
            Some(Err(e)) => r matches Err(x) && x@ == e,
            None => false,
        },
{
    match try_compile(source) {
        Some(r) => r,
        None => vstd::pervasive::unreached(),
    }
}

} // verus!
