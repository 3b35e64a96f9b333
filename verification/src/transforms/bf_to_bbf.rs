//! Brainfuck to Better Brainfuck: each pointer move and each cell change becomes a
//! move or an addition of one.
use vstd::prelude::*;

use crate::better_brainfuck as bbf;
use crate::brainfuck as bf;
use crate::errors::CompileError;
use crate::ir::{
    as_operands, instrs_model, language_model, lemma_instr_model, operands_model, InstrModel, Instruction,
    Module, ModuleModel, Operand, OperandModel,
};
use crate::pipeline::{RunOutcome, Transformation};
use crate::text::text_is;

verus! {

/// Translates Brainfuck into Better Brainfuck.
pub struct BFToBBF;

/// The translation of one Brainfuck instruction; `None` where the opcode is not
/// Brainfuck's, on which the translation aborts.
pub open spec fn bf_to_bbf_instr(i: InstrModel) -> Option<InstrModel>
    decreases i,
{
    if i.opcode == bf::op::PTR_RIGHT@ {
        Some(bbf::syntax::amount_model(bbf::op::MOVE@, 1))
    } else if i.opcode == bf::op::PTR_LEFT@ {
        Some(bbf::syntax::amount_model(bbf::op::MOVE@, -1i64))
    } else if i.opcode == bf::op::INCR@ {
        Some(bbf::syntax::amount_model(bbf::op::ADD@, 1))
    } else if i.opcode == bf::op::DECR@ {
        Some(bbf::syntax::amount_model(bbf::op::ADD@, -1i64))
    } else if i.opcode == bf::op::OUTPUT@ {
        Some(bbf::syntax::leaf_model(bbf::op::OUTPUT@))
    } else if i.opcode == bf::op::INPUT@ {
        Some(bbf::syntax::leaf_model(bbf::op::INPUT@))
    } else if i.opcode == bf::op::LOOP@ {
        match bf_to_bbf_children(i.operands) {
            Some(body) => Some(bbf::syntax::loop_model(body)),
            None => None,
        }
    } else {
        None
    }
}

/// The translation of a loop's children, left to right; operands that are values are
/// left out.
pub open spec fn bf_to_bbf_children(ops: Seq<OperandModel>) -> Option<Seq<InstrModel>>
    decreases ops,
{
    if ops.len() == 0 {
        Some(Seq::empty())
    } else {
        match bf_to_bbf_children(ops.drop_last()) {
            Some(a) => match ops.last() {
                OperandModel::Instruction(c) => match bf_to_bbf_instr(c) {
                    Some(b) => Some(a.push(b)),
                    None => None,
                },
                OperandModel::Value(_) => Some(a),
            },
            None => None,
        }
    }
}

/// The translation of a sequence of Brainfuck instructions.
pub open spec fn bf_to_bbf_program(s: Seq<InstrModel>) -> Option<Seq<InstrModel>> {
    bf_to_bbf_children(crate::ir::as_operands(s))
}

proof fn lemma_children_prefix(ops: Seq<OperandModel>, k: int)
    requires
        0 <= k <= ops.len(),
        bf_to_bbf_children(ops.take(k)) is None,
    ensures
        bf_to_bbf_children(ops) is None,
    decreases ops.len() - k,
{
    if k < ops.len() {
        assert(ops.take(k + 1).drop_last() =~= ops.take(k));
        lemma_children_prefix(ops, k + 1);
    } else {
        assert(ops.take(k) =~= ops);
    }
}

impl BFToBBF {
    /// The translation.
    pub fn new() -> (r: Self)
        ensures
            r == BFToBBF,
    {
        BFToBBF
    }

    /// Appends the translation of `instr` to `instrs`; `false` (with `instrs` left in
    /// any state) where the translation aborts.
    fn transform_instruction(&mut self, instr: &Instruction, instrs: &mut Vec<Instruction>) -> (ok:
        bool)
        ensures
            ok == (bf_to_bbf_instr(instr@) is Some),
            ok ==> instrs_model(final(instrs)@) == instrs_model(old(instrs)@).push(
                bf_to_bbf_instr(instr@)->0,
            ),
        decreases instr,
    {
        proof {
            lemma_instr_model(*instr);
        }
        let ghost start = instrs@;
        let new = if text_is(&instr.opcode, bf::op::PTR_RIGHT) {
            bbf::move_ptr(1)
        } else if text_is(&instr.opcode, bf::op::PTR_LEFT) {
            bbf::move_ptr(-1)
        } else if text_is(&instr.opcode, bf::op::INCR) {
            crate::better_brainfuck::syntax::add(1)
        } else if text_is(&instr.opcode, bf::op::DECR) {
            crate::better_brainfuck::syntax::add(-1)
        } else if text_is(&instr.opcode, bf::op::OUTPUT) {
            bbf::output()
        } else if text_is(&instr.opcode, bf::op::INPUT) {
            bbf::input()
        } else if text_is(&instr.opcode, bf::op::LOOP) {
            let mut body_instrs: Vec<Instruction> = Vec::new();
            let ghost ops = operands_model(instr.operands@);
            let n = instr.operands.len();
            let mut k: usize = 0;
            assert(ops.take(0) =~= Seq::empty());
            assert(instrs_model(body_instrs@) =~= Seq::empty());
            while k < n
                invariant
                    0 <= k <= n,
                    n == instr.operands@.len(),
                    ops == operands_model(instr.operands@),
                    instr@.operands == ops,
                    instr@.opcode == bf::op::LOOP@,
                    bf_to_bbf_children(ops.take(k as int)) == Some(instrs_model(body_instrs@)),
                decreases n - k,
            {
                assert(ops.take(k + 1).drop_last() =~= ops.take(k as int));
                assert(ops.take(k + 1).last() == ops[k as int]);
                if let Operand::Instruction(child) = &instr.operands[k] {
                    proof {
                        assert(decreases_to!(instr.operands => instr.operands@[k as int]));
                    }
                    if !self.transform_instruction(child, &mut body_instrs) {
                        proof {
                            lemma_children_prefix(ops, k + 1);
                            bf::parser::lemma_opcodes();
                        }
                        return false;
                    }
                }
                k = k + 1;
            }
            assert(ops.take(n as int) =~= ops);
            proof {
                bf::parser::lemma_opcodes();
            }
            bbf::loop_of(body_instrs)
        } else {
            return false;
        };
        instrs.push(new);
        assert(instrs_model(instrs@) =~= instrs_model(start).push(new@));
        true
    }
}

impl View for BFToBBF {
    type V = ();

    open spec fn view(&self) -> () {
        ()
    }
}

/// A run of the translation: a Better Brainfuck module of the translated
/// instructions; `None` where the translation aborts.
pub open spec fn bf_to_bbf_run(m: ModuleModel) -> RunOutcome<()> {
    match bf_to_bbf_program(m.instructions) {
        None => None,
        Some(s) => Some(
            ((), Ok(ModuleModel { language: language_model(bbf::BetterBrainfuckLanguage), instructions: s })),
        ),
    }
}

impl Transformation for BFToBBF {
    open spec fn run_spec(st: (), m: ModuleModel) -> RunOutcome<()> {
        bf_to_bbf_run(m)
    }

    fn name(&self) -> (r: &str)
        ensures
            r@ == "bf-to-bbf"@,
    {
        "bf-to-bbf"
    }

    fn try_run(&mut self, module: Module) -> (r: Option<Result<Module, CompileError>>) {
        assert(<BFToBBF as Transformation>::run_spec((), module@) == bf_to_bbf_run(module@));
        let mut new_module = Module::new(bbf::BetterBrainfuckLanguage);
        let ghost ops = as_operands(module@.instructions);
        assert(ops.take(0) =~= Seq::empty());
        let n = module.instructions.len();
        let mut k: usize = 0;
        while k < n
            invariant
                0 <= k <= n,
                n == module.instructions@.len(),
                ops == as_operands(instrs_model(module.instructions@)),
                new_module@.language == language_model(bbf::BetterBrainfuckLanguage),
                bf_to_bbf_children(ops.take(k as int)) == Some(new_module@.instructions),
            decreases n - k,
        {
            assert(ops.take(k + 1).drop_last() =~= ops.take(k as int));
            assert(ops.take(k + 1).last() == OperandModel::Instruction(module.instructions@[k as int]@));
            if !self.transform_instruction(&module.instructions[k], &mut new_module.instructions) {
                proof {
                    lemma_children_prefix(ops, k + 1);
                }
                return None;
            }
            k = k + 1;
        }
        assert(ops.take(n as int) =~= ops);
        Some(Ok(new_module))
    }
}

} // verus!
