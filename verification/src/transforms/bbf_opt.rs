//! Better Brainfuck optimization: consecutive instructions of one opcode (moves, or
//! additions) are merged into one whose amount is the sum of theirs; a merged amount
//! of zero leaves no instruction.
use vstd::prelude::*;

use super::bbf_to_bf::invalid_operand;
use crate::better_brainfuck as bbf;
use crate::errors::{CompileError, VerifyError};
use crate::ir::{
    as_operands, instrs_model, lemma_instr_model, operands_model, reversed, wrap_instructions,
    InstrModel, Instruction, Module, ModuleModel, Operand, OperandModel, Outcome, Value, ValueModel,
};
use crate::pipeline::{RunOutcome, Transformation};
use crate::text::{lowercase_text, text_is, to_lowercase};

verus! {

/// Merges consecutive Better Brainfuck instructions of one opcode.
pub struct BBFOptMerge {
    name: String,
    opcode: String,
}

/// Mathematical model of a [`BBFOptMerge`]: its name and the opcode it merges.
pub struct MergeModel {
    pub name: Seq<char>,
    pub opcode: Seq<char>,
}

impl View for BBFOptMerge {
    type V = MergeModel;

    closed spec fn view(&self) -> MergeModel {
        MergeModel { name: self.name@, opcode: self.opcode@ }
    }
}

/// Whether every operand is an instruction.
pub open spec fn all_instructions(ops: Seq<OperandModel>) -> bool {
    forall|k: int| 0 <= k < ops.len() ==> (#[trigger] ops[k]) is Instruction
}

/// The instructions kept so far, with the pending merged amount, once `acc` is
/// flushed: the pending amount becomes an instruction unless it is zero.
pub open spec fn flush(opcode: Seq<char>, acc: Seq<InstrModel>, pending: Option<i64>) -> Seq<
    InstrModel,
> {
    match pending {
        Some(a) => if a != 0 {
            acc.push(bbf::syntax::amount_model(opcode, a))
        } else {
            acc
        },
        None => acc,
    }
}

/// One step of merging, on an instruction that was already rewritten: an instruction
/// of the merged opcode adds its amount to the pending one (its first operand must be
/// a Better Brainfuck integer: where there is none, or it is another value, or the sum
/// overflows, the optimization aborts); any other instruction flushes the pending
/// amount and is kept.
pub open spec fn merge_step(
    opcode: Seq<char>,
    acc: Seq<InstrModel>,
    pending: Option<i64>,
    y: InstrModel,
) -> Outcome<(Seq<InstrModel>, Option<i64>)> {
    if y.opcode == opcode {
        if y.operands.len() == 0 {
            Outcome::Aborts
        } else {
            match y.operands[0] {
                OperandModel::Instruction(_) => Outcome::Failed(invalid_operand()),
                OperandModel::Value(ValueModel::BetterBrainfuck(v)) => match pending {
                    Some(c) => if i64::MIN <= c + v <= i64::MAX {
                        Outcome::Done((acc, Some((c + v) as i64)))
                    } else {
                        Outcome::Aborts
                    },
                    None => Outcome::Done((acc, Some(v))),
                },
                OperandModel::Value(_) => Outcome::Aborts,
            }
        }
    } else {
        Outcome::Done((flush(opcode, acc, pending).push(y), None))
    }
}

/// The state of merging after the operands `ops` (all instructions), left to right:
/// each is rewritten, then merged.
pub open spec fn merge_state(opcode: Seq<char>, ops: Seq<OperandModel>) -> Outcome<
    (Seq<InstrModel>, Option<i64>),
>
    decreases ops,
{
    if ops.len() == 0 {
        Outcome::Done((Seq::empty(), None))
    } else {
        match merge_state(opcode, ops.drop_last()) {
            Outcome::Done((acc, pending)) => match ops.last() {
                OperandModel::Instruction(x) => match rewrite_instr_spec(opcode, x) {
                    Outcome::Done(y) => merge_step(opcode, acc, pending, y),
                    Outcome::Failed(e) => Outcome::Failed(e),
                    Outcome::Aborts => Outcome::Aborts,
                },
                OperandModel::Value(_) => Outcome::Failed(invalid_operand()),
            },
            Outcome::Failed(e) => Outcome::Failed(e),
            Outcome::Aborts => Outcome::Aborts,
        }
    }
}

/// The rewriting of one instruction: a loop's operands must all be instructions, and
/// its body is merged; any other instruction keeps its values and has its nested
/// instructions rewritten.
pub open spec fn rewrite_instr_spec(opcode: Seq<char>, i: InstrModel) -> Outcome<InstrModel>
    decreases i,
{
    if i.opcode == bbf::op::LOOP@ {
        if all_instructions(i.operands) {
            match merge_state(opcode, i.operands) {
                Outcome::Done((acc, pending)) => Outcome::Done(
                    InstrModel { opcode: i.opcode, operands: as_operands(flush(opcode, acc, pending)) },
                ),
                Outcome::Failed(e) => Outcome::Failed(e),
                Outcome::Aborts => Outcome::Aborts,
            }
        } else {
            Outcome::Failed(invalid_operand())
        }
    } else {
        match rewrite_nested(opcode, i.operands) {
            Outcome::Done(ops) => Outcome::Done(InstrModel { opcode: i.opcode, operands: ops }),
            Outcome::Failed(e) => Outcome::Failed(e),
            Outcome::Aborts => Outcome::Aborts,
        }
    }
}

/// The operands of an instruction that is not a loop, with each nested instruction
/// rewritten, left to right.
pub open spec fn rewrite_nested(opcode: Seq<char>, ops: Seq<OperandModel>) -> Outcome<
    Seq<OperandModel>,
>
    decreases ops,
{
    if ops.len() == 0 {
        Outcome::Done(Seq::empty())
    } else {
        match rewrite_nested(opcode, ops.drop_last()) {
            Outcome::Done(a) => match ops.last() {
                OperandModel::Instruction(x) => match rewrite_instr_spec(opcode, x) {
                    Outcome::Done(y) => Outcome::Done(a.push(OperandModel::Instruction(y))),
                    Outcome::Failed(e) => Outcome::Failed(e),
                    Outcome::Aborts => Outcome::Aborts,
                },
                v => Outcome::Done(a.push(v)),
            },
            Outcome::Failed(e) => Outcome::Failed(e),
            Outcome::Aborts => Outcome::Aborts,
        }
    }
}

/// The merging of a block of instructions.
pub open spec fn rewrite_block_spec(opcode: Seq<char>, s: Seq<InstrModel>) -> Outcome<
    Seq<InstrModel>,
> {
    match merge_state(opcode, as_operands(s)) {
        Outcome::Done((acc, pending)) => Outcome::Done(flush(opcode, acc, pending)),
        Outcome::Failed(e) => Outcome::Failed(e),
        Outcome::Aborts => Outcome::Aborts,
    }
}

/// The name of the optimization that merges `opcode`.
pub open spec fn merge_name(opcode: Seq<char>) -> Seq<char> {
    "bbf-opt-merge-"@ + lowercase_text(opcode)
}

proof fn lemma_merge_prefix(opcode: Seq<char>, ops: Seq<OperandModel>, k: int)
    requires
        0 <= k <= ops.len(),
        !(merge_state(opcode, ops.take(k)) is Done),
    ensures
        merge_state(opcode, ops) == merge_state(opcode, ops.take(k)),
    decreases ops.len() - k,
{
    if k < ops.len() {
        assert(ops.take(k + 1).drop_last() =~= ops.take(k));
        lemma_merge_prefix(opcode, ops, k + 1);
    } else {
        assert(ops.take(k) =~= ops);
    }
}

proof fn lemma_nested_prefix(opcode: Seq<char>, ops: Seq<OperandModel>, k: int)
    requires
        0 <= k <= ops.len(),
        !(rewrite_nested(opcode, ops.take(k)) is Done),
    ensures
        rewrite_nested(opcode, ops) == rewrite_nested(opcode, ops.take(k)),
    decreases ops.len() - k,
{
    if k < ops.len() {
        assert(ops.take(k + 1).drop_last() =~= ops.take(k));
        lemma_nested_prefix(opcode, ops, k + 1);
    } else {
        assert(ops.take(k) =~= ops);
    }
}

impl BBFOptMerge {
    /// The optimization that merges instructions of `opcode`; its name is
    /// `bbf-opt-merge-` followed by the opcode in lower case.
    pub fn new(opcode: &str) -> (r: Self)
        ensures
            r@ == (MergeModel { name: merge_name(opcode@), opcode: opcode@ }),
    {
        let mut name = "bbf-opt-merge-".to_owned();
        let lower = to_lowercase(opcode);
        name.append(lower.as_str());
        BBFOptMerge { name, opcode: opcode.to_owned() }
    }

    /// Merges operands that are all instructions, left to right.
    fn merge_operands(&self, ops: Vec<Operand>) -> (r: Option<Result<Vec<Instruction>, CompileError>>)
        ensures
            match merge_state(self@.opcode, operands_model(ops@)) {
                Outcome::Done((acc, pending)) => r matches Some(Ok(v)) && instrs_model(v@) == flush(
                    self@.opcode,
                    acc,
                    pending,
                ),
                Outcome::Failed(e) => r matches Some(Err(x)) && x@ == e,
                Outcome::Aborts => r is None,
            },
        decreases ops,
    {
        let ghost all = operands_model(ops@);
        let ghost opc = self@.opcode;
        let mut rest = reversed(ops);
        let mut new_instrs: Vec<Instruction> = Vec::new();
        let mut current: Option<i64> = None;
        let n = rest.len();
        let mut k: usize = 0;
        assert(all.take(0) =~= Seq::empty());
        assert(instrs_model(new_instrs@) =~= Seq::empty());
        while rest.len() > 0
            invariant
                n == ops@.len(),
                k + rest@.len() == n,
                all == operands_model(ops@),
                opc == self@.opcode,
                forall|j: int| 0 <= j < rest@.len() ==> #[trigger] rest@[j] == ops@[n - 1 - j],
                merge_state(opc, all.take(k as int)) == Outcome::Done(
                    (instrs_model(new_instrs@), current),
                ),
            decreases rest.len(),
        {
            let op = rest.pop().unwrap();
            assert(op == ops@[k as int]);
            assert(all.take(k + 1).drop_last() =~= all.take(k as int));
            assert(all.take(k + 1).last() == all[k as int]);
            let x = match op {
                Operand::Instruction(b) => *b,
                Operand::Value(_) => {
                    proof {
                        lemma_merge_prefix(opc, all, k + 1);
                    }
                    return Some(Err(CompileError::VerifyError(VerifyError::InvalidOperand { position: 0 })));
                },
            };
            proof {
                assert(decreases_to!(ops => ops@[k as int]));
            }
            let y = match self.rewrite_instr(x) {
                Some(Ok(y)) => y,
                Some(Err(e)) => {
                    proof {
                        lemma_merge_prefix(opc, all, k + 1);
                    }
                    return Some(Err(e));
                },
                None => {
                    proof {
                        lemma_merge_prefix(opc, all, k + 1);
                    }
                    return None;
                },
            };
            proof {
                lemma_instr_model(y);
            }
            if y.opcode == self.opcode {
                if y.operands.len() == 0 {
                    proof {
                        lemma_merge_prefix(opc, all, k + 1);
                    }
                    return None;
                }
                let v = match &y.operands[0] {
                    Operand::Value(Value::BetterBrainfuck(b)) => b.0,
                    Operand::Instruction(_) => {
                        proof {
                            lemma_merge_prefix(opc, all, k + 1);
                        }
                        return Some(Err(CompileError::VerifyError(VerifyError::InvalidOperand { position: 0 })));
                    },
                    Operand::Value(_) => {
                        proof {
                            lemma_merge_prefix(opc, all, k + 1);
                        }
                        return None;
                    },
                };
                current = match current {
                    Some(c) => match c.checked_add(v) {
                        Some(s) => Some(s),
                        None => {
                            proof {
                                lemma_merge_prefix(opc, all, k + 1);
                            }
                            return None;
                        },
                    },
                    None => Some(v),
                };
            } else {
                let ghost before = instrs_model(new_instrs@);
                if let Some(amount) = current {
                    if amount != 0 {
                        new_instrs.push(self.merged(amount));
                    }
                }
                assert(instrs_model(new_instrs@) =~= flush(opc, before, current));
                current = None;
                let ghost mid = new_instrs@;
                new_instrs.push(y);
                assert(instrs_model(new_instrs@) =~= instrs_model(mid).push(y@));
            }
            k = k + 1;
        }
        assert(all.take(n as int) =~= all);
        let ghost before = instrs_model(new_instrs@);
        if let Some(amount) = current {
            if amount != 0 {
                new_instrs.push(self.merged(amount));
            }
        }
        assert(instrs_model(new_instrs@) =~= flush(opc, before, current));
        Some(Ok(new_instrs))
    }

    /// The instruction of the merged opcode with the given amount.
    fn merged(&self, amount: i64) -> (r: Instruction)
        ensures
            r@ == bbf::syntax::amount_model(self@.opcode, amount),
    {
        let mut operands: Vec<Operand> = Vec::new();
        operands.push(Operand::Value(Value::BetterBrainfuck(bbf::BetterBrainfuckValue(amount))));
        let r = Instruction { opcode: self.opcode.clone(), operands };
        proof {
            lemma_instr_model(r);
        }
        assert(r@.operands =~= bbf::syntax::amount_model(self@.opcode, amount).operands);
        r
    }

    /// Rewrites the nested instructions among some operands, left to right.
    fn rewrite_nested_operands(&self, ops: Vec<Operand>) -> (r: Option<Result<Vec<Operand>, CompileError>>)
        ensures
            match rewrite_nested(self@.opcode, operands_model(ops@)) {
                Outcome::Done(m) => r matches Some(Ok(v)) && operands_model(v@) == m,
                Outcome::Failed(e) => r matches Some(Err(x)) && x@ == e,
                Outcome::Aborts => r is None,
            },
        decreases ops,
    {
        let ghost all = operands_model(ops@);
        let ghost opc = self@.opcode;
        let mut rest = reversed(ops);
        let mut out: Vec<Operand> = Vec::new();
        let n = rest.len();
        let mut k: usize = 0;
        assert(all.take(0) =~= Seq::empty());
        assert(operands_model(out@) =~= Seq::empty());
        while rest.len() > 0
            invariant
                n == ops@.len(),
                k + rest@.len() == n,
                all == operands_model(ops@),
                opc == self@.opcode,
                forall|j: int| 0 <= j < rest@.len() ==> #[trigger] rest@[j] == ops@[n - 1 - j],
                rewrite_nested(opc, all.take(k as int)) == Outcome::Done(operands_model(out@)),
            decreases rest.len(),
        {
            let op = rest.pop().unwrap();
            assert(op == ops@[k as int]);
            assert(all.take(k + 1).drop_last() =~= all.take(k as int));
            assert(all.take(k + 1).last() == all[k as int]);
            let ghost before = out@;
            match op {
                Operand::Instruction(b) => {
                    proof {
                        assert(decreases_to!(ops => ops@[k as int]));
                    }
                    match self.rewrite_instr(*b) {
                        Some(Ok(y)) => {
                            out.push(Operand::Instruction(Box::new(y)));
                        },
                        Some(Err(e)) => {
                            proof {
                                lemma_nested_prefix(opc, all, k + 1);
                            }
                            return Some(Err(e));
                        },
                        None => {
                            proof {
                                lemma_nested_prefix(opc, all, k + 1);
                            }
                            return None;
                        },
                    }
                },
                v => {
                    out.push(v);
                },
            }
            assert(operands_model(out@) =~= operands_model(before).push(out@.last()@));
            k = k + 1;
        }
        assert(all.take(n as int) =~= all);
        Some(Ok(out))
    }

    /// Rewrites one instruction; `None` where the optimization aborts.
    fn rewrite_instr(&self, instr: Instruction) -> (r: Option<Result<Instruction, CompileError>>)
        ensures
            match rewrite_instr_spec(self@.opcode, instr@) {
                Outcome::Done(m) => r matches Some(Ok(y)) && y@ == m,
                Outcome::Failed(e) => r matches Some(Err(x)) && x@ == e,
                Outcome::Aborts => r is None,
            },
        decreases instr,
    {
        proof {
            lemma_instr_model(instr);
        }
        let Instruction { opcode, operands } = instr;
        if text_is(&opcode, bbf::op::LOOP) {
            let ghost ops = operands_model(operands@);
            let mut j: usize = 0;
            while j < operands.len()
                invariant
                    j <= operands@.len(),
                    ops == operands_model(operands@),
                    forall|i: int| 0 <= i < j ==> (#[trigger] ops[i]) is Instruction,
                    instr@.operands == ops,
                    instr@.opcode == bbf::op::LOOP@,
                decreases operands@.len() - j,
            {
                if let Operand::Value(_) = &operands[j] {
                    assert(ops[j as int] is Value);
                    assert(!all_instructions(ops));
                    return Some(Err(CompileError::VerifyError(VerifyError::InvalidOperand { position: 0 })));
                }
                j = j + 1;
            }
            assert(all_instructions(ops));
            let rewritten = match self.merge_operands(operands) {
                Some(Ok(v)) => v,
                Some(Err(e)) => {
                    return Some(Err(e));
                },
                None => {
                    return None;
                },
            };
            let new_operands = wrap_instructions(rewritten);
            let r = Instruction { opcode, operands: new_operands };
            proof {
                lemma_instr_model(r);
            }
            Some(Ok(r))
        } else {
            let new_operands = match self.rewrite_nested_operands(operands) {
                Some(Ok(v)) => v,
                Some(Err(e)) => {
                    return Some(Err(e));
                },
                None => {
                    return None;
                },
            };
            let r = Instruction { opcode, operands: new_operands };
            proof {
                lemma_instr_model(r);
            }
            Some(Ok(r))
        }
    }

    /// Merges a block of instructions; `None` where the optimization aborts.
    pub fn rewrite_block(&self, instrs: Vec<Instruction>) -> (r: Option<Result<Vec<Instruction>, CompileError>>)
        ensures
            match rewrite_block_spec(self@.opcode, instrs_model(instrs@)) {
                Outcome::Done(m) => r matches Some(Ok(v)) && instrs_model(v@) == m,
                Outcome::Failed(e) => r matches Some(Err(x)) && x@ == e,
                Outcome::Aborts => r is None,
            },
    {
        let ops = wrap_instructions(instrs);
        self.merge_operands(ops)
    }
}

/// A run of the optimization: the module of the same language with its instructions
/// merged, or the first error; `None` where the optimization aborts. The state does
/// not change.
pub open spec fn merge_run(st: MergeModel, m: ModuleModel) -> RunOutcome<MergeModel> {
    match rewrite_block_spec(st.opcode, m.instructions) {
        Outcome::Done(s) => Some((st, Ok(ModuleModel { language: m.language, instructions: s }))),
        Outcome::Failed(e) => Some((st, Err(e))),
        Outcome::Aborts => None,
    }
}

impl Transformation for BBFOptMerge {
    open spec fn run_spec(st: MergeModel, m: ModuleModel) -> RunOutcome<MergeModel> {
        merge_run(st, m)
    }

    fn name(&self) -> (r: &str)
        ensures
            r@ == self@.name,
    {
        self.name.as_str()
    }

    fn try_run(&mut self, module: Module) -> (r: Option<Result<Module, CompileError>>) {
        assert(<BBFOptMerge as Transformation>::run_spec(self@, module@) == merge_run(self@, module@));
        let Module { language, instructions } = module;
        match self.rewrite_block(instructions) {
            Some(Ok(v)) => Some(Ok(Module { language, instructions: v })),
            Some(Err(e)) => Some(Err(e)),
            None => None,
        }
    }
}

} // verus!
