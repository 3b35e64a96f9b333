//! Better Brainfuck to Brainfuck: a move or an addition of `n` becomes `n` single
//! steps.
use vstd::prelude::*;

use crate::better_brainfuck as bbf;
use crate::brainfuck as bf;
use crate::errors::{CompileError, CompileErrorModel, VerifyError, VerifyErrorModel};
use crate::ir::{
    as_operands, instrs_model, language_model, lemma_instr_model, operands_model, InstrModel,
    Instruction, Module, ModuleModel, Operand, OperandModel, Outcome, Value, ValueModel,
};
use crate::pipeline::{RunOutcome, Transformation};
use crate::text::text_is;

verus! {

/// Translates Better Brainfuck into Brainfuck.
pub struct BBFToBF;

/// `n` copies of an instruction.
pub open spec fn repeat_instr(i: InstrModel, n: nat) -> Seq<InstrModel> {
    Seq::new(n, |_k: int| i)
}

/// The invalid-operand error of the translation.
pub open spec fn invalid_operand() -> CompileErrorModel {
    CompileErrorModel::VerifyError(VerifyErrorModel::InvalidOperand { position: 0 })
}

/// The steps of a move or an addition: its amount of `pos` where the amount is
/// positive, else its magnitude of `neg`. The first operand must be a value; where it
/// is not a Better Brainfuck integer the translation aborts, and so it does on an
/// amount of `i64::MIN`, which has no negation.
pub open spec fn amount_steps(i: InstrModel, pos: InstrModel, neg: InstrModel) -> Outcome<
    Seq<InstrModel>,
> {
    if i.operands.len() == 0 {
        Outcome::Failed(invalid_operand())
    } else {
        match i.operands[0] {
            OperandModel::Instruction(_) => Outcome::Failed(invalid_operand()),
            OperandModel::Value(ValueModel::BetterBrainfuck(a)) => if a > 0 {
                Outcome::Done(repeat_instr(pos, a as nat))
            } else if a == i64::MIN {
                Outcome::Aborts
            } else {
                Outcome::Done(repeat_instr(neg, (-a) as nat))
            },
            OperandModel::Value(_) => Outcome::Aborts,
        }
    }
}

/// The Brainfuck instructions of one Better Brainfuck instruction.
pub open spec fn bbf_to_bf_instr(i: InstrModel) -> Outcome<Seq<InstrModel>>
    decreases i,
{
    if i.opcode == bbf::op::MOVE@ {
        amount_steps(
            i,
            bf::syntax::leaf_model(bf::op::PTR_RIGHT@),
            bf::syntax::leaf_model(bf::op::PTR_LEFT@),
        )
    } else if i.opcode == bbf::op::ADD@ {
        amount_steps(
            i,
            bf::syntax::leaf_model(bf::op::INCR@),
            bf::syntax::leaf_model(bf::op::DECR@),
        )
    } else if i.opcode == bbf::op::OUTPUT@ {
        Outcome::Done(seq![bf::syntax::leaf_model(bf::op::OUTPUT@)])
    } else if i.opcode == bbf::op::INPUT@ {
        Outcome::Done(seq![bf::syntax::leaf_model(bf::op::INPUT@)])
    } else if i.opcode == bbf::op::LOOP@ {
        match bbf_to_bf_children(i.operands) {
            Outcome::Done(body) => Outcome::Done(seq![bf::syntax::loop_model(body)]),
            other => other,
        }
    } else {
        Outcome::Failed(CompileErrorModel::VerifyError(VerifyErrorModel::UnknownOpcode(i.opcode)))
    }
}

/// The translation of a loop's children, left to right, one after the other; values
/// are left out.
pub open spec fn bbf_to_bf_children(ops: Seq<OperandModel>) -> Outcome<Seq<InstrModel>>
    decreases ops,
{
    if ops.len() == 0 {
        Outcome::Done(Seq::empty())
    } else {
        match bbf_to_bf_children(ops.drop_last()) {
            Outcome::Done(a) => match ops.last() {
                OperandModel::Instruction(c) => match bbf_to_bf_instr(c) {
                    Outcome::Done(b) => Outcome::Done(a + b),
                    other => other,
                },
                OperandModel::Value(_) => Outcome::Done(a),
            },
            other => other,
        }
    }
}

/// The translation of a sequence of Better Brainfuck instructions.
pub open spec fn bbf_to_bf_program(s: Seq<InstrModel>) -> Outcome<Seq<InstrModel>> {
    bbf_to_bf_children(crate::ir::as_operands(s))
}

/// Whether a step's result matches an outcome: on success the step's instructions
/// are appended, on an error nothing is, and `None` stands for an abort.
pub open spec fn step_matches(o: Outcome<Seq<InstrModel>>, r: Option<Result<(), CompileError>>, before: Seq<InstrModel>, after: Seq<InstrModel>) -> bool {
    match o {
        Outcome::Done(b) => r matches Some(Ok(())) && after == before + b,
        Outcome::Failed(e) => r matches Some(Err(x)) && x@ == e && after == before,
        Outcome::Aborts => r is None,
    }
}

proof fn lemma_children_prefix(ops: Seq<OperandModel>, k: int)
    requires
        0 <= k <= ops.len(),
        !(bbf_to_bf_children(ops.take(k)) is Done),
    ensures
        bbf_to_bf_children(ops) == bbf_to_bf_children(ops.take(k)),
    decreases ops.len() - k,
{
    if k < ops.len() {
        assert(ops.take(k + 1).drop_last() =~= ops.take(k));
        lemma_children_prefix(ops, k + 1);
    } else {
        assert(ops.take(k) =~= ops);
    }
}

/// Appends `n` copies of a single step to `instrs`.
pub(crate) fn push_steps(instrs: &mut Vec<Instruction>, n: u64, forward: bool, add: bool)
    ensures
        instrs_model(final(instrs)@) == instrs_model(old(instrs)@) + repeat_instr(
            step_model(forward, add),
            n as nat,
        ),
{
    let ghost start = instrs_model(instrs@);
    let mut k: u64 = 0;
    assert(start =~= start + repeat_instr(step_model(forward, add), 0));
    while k < n
        invariant
            k <= n,
            instrs_model(instrs@) == start + repeat_instr(step_model(forward, add), k as nat),
        decreases n - k,
    {
        let i = if add {
            if forward {
                bf::incr()
            } else {
                bf::decr()
            }
        } else {
            if forward {
                bf::ptr_right()
            } else {
                bf::ptr_left()
            }
        };
        let ghost before = instrs@;
        instrs.push(i);
        k = k + 1;
        assert(instrs_model(instrs@) =~= start + repeat_instr(step_model(forward, add), k as nat))
            by {
            assert(instrs_model(instrs@) =~= instrs_model(before).push(i@));
        }
    }
}

/// The single Brainfuck step of a direction and of a kind.
pub open spec fn step_model(forward: bool, add: bool) -> InstrModel {
    if add {
        if forward {
            bf::syntax::leaf_model(bf::op::INCR@)
        } else {
            bf::syntax::leaf_model(bf::op::DECR@)
        }
    } else {
        if forward {
            bf::syntax::leaf_model(bf::op::PTR_RIGHT@)
        } else {
            bf::syntax::leaf_model(bf::op::PTR_LEFT@)
        }
    }
}

impl BBFToBF {
    /// The translation.
    pub fn new() -> (r: Self)
        ensures
            r == BBFToBF,
    {
        BBFToBF
    }

    /// Appends the steps of a move or an addition.
    fn push_amount(instr: &Instruction, add: bool, instrs: &mut Vec<Instruction>) -> (r: Option<
        Result<(), CompileError>,
    >)
        ensures
            step_matches(
                amount_steps(instr@, step_model(true, add), step_model(false, add)),
                r,
                instrs_model(old(instrs)@),
                instrs_model(final(instrs)@),
            ),
    {
        proof {
            lemma_instr_model(*instr);
        }
        if instr.operands.len() == 0 {
            return Some(Err(CompileError::VerifyError(VerifyError::InvalidOperand { position: 0 })));
        }
        let value = match &instr.operands[0] {
            Operand::Value(v) => v,
            Operand::Instruction(_) => {
                return Some(
                    Err(CompileError::VerifyError(VerifyError::InvalidOperand { position: 0 })),
                );
            },
        };
        let amount = match value {
            Value::BetterBrainfuck(b) => b.0,
            _ => {
                return None;
            },
        };
        if amount > 0 {
            push_steps(instrs, amount as u64, true, add);
        } else {
            if amount == i64::MIN {
                return None;
            }
            push_steps(instrs, (-amount) as u64, false, add);
        }
        Some(Ok(()))
    }

    /// Appends the translation of `instr` to `instrs`; `None` where the translation
    /// aborts.
    fn transform_instruction(&mut self, instr: &Instruction, instrs: &mut Vec<Instruction>) -> (r:
        Option<Result<(), CompileError>>)
        ensures
            step_matches(
                bbf_to_bf_instr(instr@),
                r,
                instrs_model(old(instrs)@),
                instrs_model(final(instrs)@),
            ),
        decreases instr,
    {
        proof {
            lemma_instr_model(*instr);
            bbf::syntax::lemma_opcodes();
        }
        let ghost start = instrs_model(instrs@);
        if text_is(&instr.opcode, bbf::op::MOVE) {
            Self::push_amount(instr, false, instrs)
        } else if text_is(&instr.opcode, bbf::op::ADD) {
            Self::push_amount(instr, true, instrs)
        } else if text_is(&instr.opcode, bbf::op::OUTPUT) {
            instrs.push(bf::output());
            assert(instrs_model(instrs@) =~= start + seq![bf::syntax::leaf_model(bf::op::OUTPUT@)]);
            Some(Ok(()))
        } else if text_is(&instr.opcode, bbf::op::INPUT) {
            instrs.push(bf::input());
            assert(instrs_model(instrs@) =~= start + seq![bf::syntax::leaf_model(bf::op::INPUT@)]);
            Some(Ok(()))
        } else if text_is(&instr.opcode, bbf::op::LOOP) {
            let mut body_instrs: Vec<Instruction> = Vec::new();
            let ghost ops = operands_model(instr.operands@);
            let n = instr.operands.len();
            let mut k: usize = 0;
            assert(ops.take(0) =~= Seq::empty());
            assert(instrs_model(body_instrs@) =~= Seq::empty());
            while k < n
                invariant
                    0 <= k <= n,
                    n == instr.operands@.len(),
                    ops == operands_model(instr.operands@),
                    instr@.operands == ops,
                    instr@.opcode == bbf::op::LOOP@,
                    bbf_to_bf_children(ops.take(k as int)) == Outcome::Done(
                        instrs_model(body_instrs@),
                    ),
                decreases n - k,
            {
                assert(ops.take(k + 1).drop_last() =~= ops.take(k as int));
                assert(ops.take(k + 1).last() == ops[k as int]);
                if let Operand::Instruction(child) = &instr.operands[k] {
                    proof {
                        assert(decreases_to!(instr.operands => instr.operands@[k as int]));
                    }
                    match self.transform_instruction(child, &mut body_instrs) {
                        Some(Ok(())) => {},
                        other => {
                            proof {
                                lemma_children_prefix(ops, k + 1);
                                bbf::syntax::lemma_opcodes();
                            }
                            return other;
                        },
                    }
                }
                k = k + 1;
            }
            assert(ops.take(n as int) =~= ops);
            let l = bf::loop_of(body_instrs);
            instrs.push(l);
            assert(instrs_model(instrs@) =~= start + seq![l@]);
            Some(Ok(()))
        } else {
            Some(
                Err(CompileError::VerifyError(VerifyError::UnknownOpcode(instr.opcode.clone()))),
            )
        }
    }
}

impl View for BBFToBF {
    type V = ();

    open spec fn view(&self) -> () {
        ()
    }
}

/// A run of the translation: a Brainfuck module of the translated instructions, or
/// the first error; `None` where the translation aborts.
pub open spec fn bbf_to_bf_run(m: ModuleModel) -> RunOutcome<()> {
    match bbf_to_bf_program(m.instructions) {
        Outcome::Done(s) => Some(
            ((), Ok(ModuleModel { language: language_model(bf::BrainfuckLanguage), instructions: s })),
        ),
        Outcome::Failed(e) => Some(((), Err(e))),
        Outcome::Aborts => None,
    }
}

impl Transformation for BBFToBF {
    open spec fn run_spec(st: (), m: ModuleModel) -> RunOutcome<()> {
        bbf_to_bf_run(m)
    }

    fn name(&self) -> (r: &str)
        ensures
            r@ == "bbf-to-bf"@,
    {
        "bbf-to-bf"
    }

    fn try_run(&mut self, module: Module) -> (r: Option<Result<Module, CompileError>>) {
        assert(<BBFToBF as Transformation>::run_spec((), module@) == bbf_to_bf_run(module@));
        let mut new_module = Module::new(bf::BrainfuckLanguage);
        let ghost ops = as_operands(module@.instructions);
        assert(ops.take(0) =~= Seq::empty());
        let n = module.instructions.len();
        let mut k: usize = 0;
        while k < n
            invariant
                0 <= k <= n,
                n == module.instructions@.len(),
                ops == as_operands(instrs_model(module.instructions@)),
                new_module@.language == language_model(bf::BrainfuckLanguage),
                bbf_to_bf_children(ops.take(k as int)) == Outcome::Done(new_module@.instructions),
            decreases n - k,
        {
            assert(ops.take(k + 1).drop_last() =~= ops.take(k as int));
            assert(ops.take(k + 1).last() == OperandModel::Instruction(module.instructions@[k as int]@));
            match self.transform_instruction(&module.instructions[k], &mut new_module.instructions) {
                Some(Ok(())) => {},
                Some(Err(e)) => {
                    proof {
                        lemma_children_prefix(ops, k + 1);
                    }
                    return Some(Err(e));
                },
                None => {
                    proof {
                        lemma_children_prefix(ops, k + 1);
                    }
                    return None;
                },
            }
            k = k + 1;
        }
        assert(ops.take(n as int) =~= ops);
        Some(Ok(new_module))
    }
}

} // verus!
