//! The text of operands and modules: a value as its text, a nested instruction as its
//! opcode and operands in brackets, and a module as its language's name followed by
//! one indented line per instruction.
use vstd::prelude::*;

use crate::ir::{
    instrs_model, lemma_instr_model, operands_model, value_text, InstrModel, Module, ModuleModel,
    Operand, OperandModel,
};

verus! {

/// The text of an operand.
pub open spec fn operand_text(o: OperandModel) -> Seq<char>
    decreases o,
{
    match o {
        OperandModel::Value(v) => value_text(v),
        OperandModel::Instruction(i) => seq!['('] + i.opcode + seq![':', ' '] + operands_text(i.operands)
            + seq![')'],
    }
}

/// The texts of some operands, separated by a comma and a space.
pub open spec fn operands_text(ops: Seq<OperandModel>) -> Seq<char>
    decreases ops,
{
    if ops.len() == 0 {
        Seq::empty()
    } else if ops.len() == 1 {
        operand_text(ops[0])
    } else {
        operands_text(ops.drop_last()) + seq![',', ' '] + operand_text(ops.last())
    }
}

/// The lines of some instructions: each indented by two spaces, its opcode, a space
/// and its operands.
pub open spec fn lines_text(s: Seq<InstrModel>) -> Seq<char>
    decreases s.len(),
{
    if s.len() == 0 {
        Seq::empty()
    } else {
        lines_text(s.drop_last()) + seq![' ', ' '] + s.last().opcode + seq![' '] + operands_text(
            s.last().operands,
        ) + seq!['\n']
    }
}

/// The text of a module: the name of its language and a colon on a line, then its
/// instructions.
pub open spec fn module_text(m: ModuleModel) -> Seq<char> {
    m.language.name + seq![':', '\n'] + lines_text(m.instructions)
}

/// The text of some operands, as [`operands_text`] says.
fn operands_string(ops: &Vec<Operand>) -> (r: String)
    ensures
        r@ == operands_text(operands_model(ops@)),
    decreases ops,
{
    let ghost all = operands_model(ops@);
    let mut out = String::new();
    let n = ops.len();
    let mut k: usize = 0;
    assert(all.take(0) =~= Seq::empty());
    while k < n
        invariant
            k <= n,
            n == ops@.len(),
            all == operands_model(ops@),
            out@ == operands_text(all.take(k as int)),
        decreases n - k,
    {
        assert(all.take(k + 1).drop_last() =~= all.take(k as int));
        assert(all.take(k + 1).last() == ops@[k as int]@);
        proof {
            assert(decreases_to!(ops => ops@[k as int]));
        }
        let text = ops[k].to_string();
        let ghost before = out@;
        proof {
            reveal_strlit(", ");
        }
        if k > 0 {
            out.append(", ");
        } else {
            assert(all.take(1)[0] == ops@[0]@);
        }
        out.append(text.as_str());
        assert(out@ =~= operands_text(all.take(k + 1)));
        k = k + 1;
    }
    assert(all.take(n as int) =~= all);
    out
}

impl Operand {
    /// The text of the operand, as [`operand_text`] says.
    pub fn to_string(&self) -> (r: String)
        ensures
            r@ == operand_text(self@),
        decreases self,
    {
        proof {
            reveal_strlit("(");
            reveal_strlit(": ");
            reveal_strlit(")");
        }
        match self {
            Operand::Value(v) => v.display(),
            Operand::Instruction(i) => {
                proof {
                    lemma_instr_model(**i);
                }
                let mut out = String::new();
                out.append("(");
                out.append(i.opcode.as_str());
                out.append(": ");
                let ops = operands_string(&i.operands);
                out.append(ops.as_str());
                out.append(")");
                out
            },
        }
    }
}

impl Module {
    /// The text of the module, as [`module_text`] says.
    pub fn to_string(&self) -> (r: String)
        ensures
            r@ == module_text(self@),
    {
        proof {
            reveal_strlit(":\n");
        }
        let ghost s = instrs_model(self.instructions@);
        let mut out = String::new();
        out.append(self.language.name.as_str());
        out.append(":\n");
        let ghost head = out@;
        let n = self.instructions.len();
        let mut k: usize = 0;
        assert(s.take(0) =~= Seq::empty());
        while k < n
            invariant
                k <= n,
                n == self.instructions@.len(),
                s == instrs_model(self.instructions@),
                out@ == head + lines_text(s.take(k as int)),
            decreases n - k,
        {
            assert(s.take(k + 1).drop_last() =~= s.take(k as int));
            let instr = &self.instructions[k];
            proof {
                lemma_instr_model(*instr);
            }
            assert(s.take(k + 1).last() == instr@);
            proof {
                reveal_strlit("  ");
                reveal_strlit(" ");
                reveal_strlit("\n");
            }
            out.append("  ");
            out.append(instr.opcode.as_str());
            out.append(" ");
            let ops = operands_string(&instr.operands);
            out.append(ops.as_str());
            out.append("\n");
            assert(out@ =~= head + lines_text(s.take(k + 1)));
            k = k + 1;
        }
        assert(s.take(n as int) =~= s);
        out
    }
}

} // verus!
