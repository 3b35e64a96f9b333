//! Better Brainfuck text from Better Brainfuck instructions: one instruction per
//! step, amounts written after their sign, loops on lines of their own and indented.
use vstd::prelude::*;

use super::op;
use super::syntax::{amount_of, lemma_opcodes};
use crate::errors::{CompileError, CompileErrorModel, VerifyError, VerifyErrorModel};
use crate::ir::{
    instrs_model, lemma_instr_model, operands_model, InstrModel, Instruction, Module, Operand,
    OperandModel, Value,
};
use crate::text::{decimal, push_decimal, push_repeated, repeat_text, text_is};

verus! {

/// Emits Better Brainfuck text.
pub struct BetterBrainfuckEmitter;

/// What emitting gives: a text, an invalid operand, or nothing because the emitter
/// aborts (an amount of `i64::MIN` has no negation, or the indentation is too long
/// to allocate).
pub enum Emission {
    Text(Seq<char>),
    Invalid,
    Aborts,
}

/// The indentation of a nesting level: two spaces per level.
pub open spec fn indent(spaces: nat) -> Seq<char> {
    repeat_text("  "@, spaces)
}

/// The text of an amount: its sign and its magnitude, then a space; `plus` where it
/// is positive and `minus` otherwise.
pub open spec fn amount_text(plus: char, minus: char, a: int) -> Seq<char> {
    if a > 0 {
        seq![plus] + decimal(a) + seq![' ']
    } else {
        seq![minus] + decimal(-a) + seq![' ']
    }
}

/// The text of a move or an addition.
pub open spec fn amount_emission(i: InstrModel, spaces: nat, plus: char, minus: char) -> Emission {
    match amount_of(i) {
        None => Emission::Invalid,
        Some(a) => if a == i64::MIN {
            Emission::Aborts
        } else {
            Emission::Text(indent(spaces) + amount_text(plus, minus, a as int))
        },
    }
}

/// The text of an instruction at a nesting level.
pub open spec fn instr_emission(i: InstrModel, spaces: nat) -> Emission
    decreases i,
{
    if spaces * 2 > usize::MAX {
        Emission::Aborts
    } else if i.opcode == op::OUTPUT@ {
        Emission::Text(indent(spaces) + seq!['.'])
    } else if i.opcode == op::INPUT@ {
        Emission::Text(indent(spaces) + seq![','])
    } else if i.opcode == op::ADD@ {
        amount_emission(i, spaces, '+', '-')
    } else if i.opcode == op::MOVE@ {
        amount_emission(i, spaces, '>', '<')
    } else if i.opcode == op::LOOP@ {
        match children_emission(i.operands, (spaces + 1) as nat) {
            Emission::Text(body) => Emission::Text(
                indent(spaces) + seq!['\n'] + indent(spaces) + seq!['[', '\n'] + body + seq!['\n']
                    + indent(spaces) + seq![']', '\n'],
            ),
            other => other,
        }
    } else {
        Emission::Text(indent(spaces))
    }
}

/// The text of a loop's children, each followed by a space, left to right: the
/// first child that is not an instruction or cannot be emitted decides.
pub open spec fn children_emission(ops: Seq<OperandModel>, spaces: nat) -> Emission
    decreases ops,
{
    if ops.len() == 0 {
        Emission::Text(Seq::empty())
    } else {
        match children_emission(ops.drop_last(), spaces) {
            Emission::Text(a) => match ops.last() {
                OperandModel::Instruction(c) => match instr_emission(c, spaces) {
                    Emission::Text(b) => Emission::Text(a + b + seq![' ']),
                    other => other,
                },
                OperandModel::Value(_) => Emission::Invalid,
            },
            other => other,
        }
    }
}

/// The text of a sequence of top-level instructions, one after the other.
pub open spec fn program_emission(s: Seq<InstrModel>) -> Emission
    decreases s.len(),
{
    if s.len() == 0 {
        Emission::Text(Seq::empty())
    } else {
        match program_emission(s.drop_last()) {
            Emission::Text(a) => match instr_emission(s.last(), 0) {
                Emission::Text(b) => Emission::Text(a + b),
                other => other,
            },
            other => other,
        }
    }
}

/// The result of an emission as the emitter returns it: `None` where it aborts.
pub open spec fn emission_matches(e: Emission, r: Option<Result<String, VerifyError>>) -> bool {
    match e {
        Emission::Text(t) => r matches Some(Ok(s)) && s@ == t,
        Emission::Invalid => r matches Some(Err(x)) && x@ == VerifyErrorModel::InvalidOperand {
            position: 0,
        },
        Emission::Aborts => r is None,
    }
}

fn push_amount(out: &mut String, instruction: &Instruction, plus: &str, minus: &str) -> (r: Option<
    Result<(), VerifyError>,
>)
    requires
        plus@.len() == 1,
        minus@.len() == 1,
    ensures
        match amount_of(instruction@) {
            None => r matches Some(Err(x)) && x@ == VerifyErrorModel::InvalidOperand {
                position: 0,
            },
            Some(a) => if a == i64::MIN {
                r is None
            } else {
                r matches Some(Ok(())) && final(out)@ == old(out)@ + amount_text(
                    plus@[0],
                    minus@[0],
                    a as int,
                )
            },
        },
{
    proof {
        lemma_instr_model(*instruction);
        reveal_strlit(" ");
    }
    if instruction.operands.len() == 0 {
        return Some(Err(VerifyError::InvalidOperand { position: 0 }));
    }
    let amount = match &instruction.operands[0] {
        Operand::Value(Value::BetterBrainfuck(v)) => v.0,
        _ => {
            return Some(Err(VerifyError::InvalidOperand { position: 0 }));
        },
    };
    if amount == i64::MIN {
        return None;
    }
    if amount > 0 {
        out.append(plus);
        push_decimal(out, amount as i128);
    } else {
        out.append(minus);
        push_decimal(out, -(amount as i128));
    }
    out.append(" ");
    proof {
        assert(plus@ =~= seq![plus@[0]]);
        assert(minus@ =~= seq![minus@[0]]);
        assert(final(out)@ =~= old(out)@ + amount_text(plus@[0], minus@[0], amount as int));
    }
    Some(Ok(()))
}

/// The text of one instruction at a nesting level; `None` where the emitter aborts.
fn try_emit_instruction(instruction: &Instruction, spaces: usize) -> (r: Option<
    Result<String, VerifyError>,
>)
    ensures
        emission_matches(instr_emission(instruction@, spaces as nat), r),
    decreases instruction,
{
    proof {
        lemma_instr_model(*instruction);
        lemma_opcodes();
        reveal_strlit("  ");
        reveal_strlit(".");
        reveal_strlit(",");
        reveal_strlit("+");
        reveal_strlit("-");
        reveal_strlit(">");
        reveal_strlit("<");
        reveal_strlit("\n");
        reveal_strlit("[");
        reveal_strlit("]");
        reveal_strlit(" ");
    }
    if spaces > usize::MAX / 2 {
        return None;
    }
    let mut out = String::new();
    push_repeated(&mut out, "  ", spaces);
    let ghost ind = indent(spaces as nat);
    assert(out@ =~= ind);
    if text_is(&instruction.opcode, op::OUTPUT) {
        out.append(".");
        assert(out@ =~= ind + seq!['.']);
    } else if text_is(&instruction.opcode, op::INPUT) {
        out.append(",");
        assert(out@ =~= ind + seq![',']);
    } else if text_is(&instruction.opcode, op::ADD) {
        match push_amount(&mut out, instruction, "+", "-") {
            None => {
                return None;
            },
            Some(Err(e)) => {
                return Some(Err(e));
            },
            Some(Ok(())) => {},
        }
    } else if text_is(&instruction.opcode, op::MOVE) {
        match push_amount(&mut out, instruction, ">", "<") {
            None => {
                return None;
            },
            Some(Err(e)) => {
                return Some(Err(e));
            },
            Some(Ok(())) => {},
        }
    } else if text_is(&instruction.opcode, op::LOOP) {
        out.append("\n");
        push_repeated(&mut out, "  ", spaces);
        out.append("[");
        out.append("\n");
        let ghost head = out@;
        assert(head =~= ind + seq!['\n'] + ind + seq!['[', '\n']);
        let ghost ops = operands_model(instruction.operands@);
        let n = instruction.operands.len();
        let mut k: usize = 0;
        assert(ops.take(0) =~= Seq::empty());
        while k < n
            invariant
                0 <= k <= n,
                n == instruction.operands@.len(),
                ops == operands_model(instruction.operands@),
                instruction@.operands == ops,
                instruction@.opcode == op::LOOP@,
                spaces <= usize::MAX / 2,
                children_emission(ops.take(k as int), (spaces + 1) as nat) matches Emission::Text(t) && out@
                    == head + t,
            decreases n - k,
        {
            assert(ops.take(k + 1).drop_last() =~= ops.take(k as int));
            let child = match &instruction.operands[k] {
                Operand::Instruction(c) => c,
                Operand::Value(_) => {
                    assert(children_emission(ops.take(k + 1), (spaces + 1) as nat) is Invalid);
                    proof {
                        lemma_opcodes();
                        lemma_children_prefix(ops, k + 1, (spaces + 1) as nat);
                    }
                    return Some(Err(VerifyError::InvalidOperand { position: 0 }));
                },
            };
            proof {
                assert(decreases_to!(instruction.operands => instruction.operands@[k as int]));
            }
            let text = match try_emit_instruction(child, spaces + 1) {
                Some(Ok(t)) => t,
                other => {
                    proof {
                        lemma_opcodes();
                        lemma_children_prefix(ops, k + 1, (spaces + 1) as nat);
                    }
                    return other;
                },
            };
            proof {
                reveal_strlit(" ");
                assert(ops[k as int] == OperandModel::Instruction(child@));
                assert(ops.take(k + 1).last() == ops[k as int]);
            }
            out.append(text.as_str());
            out.append(" ");
            k = k + 1;
            assert(out@ =~= head + children_emission(ops.take(k as int), (spaces + 1) as nat)->Text_0);
        }
        assert(ops.take(n as int) =~= ops);
        out.append("\n");
        push_repeated(&mut out, "  ", spaces);
        out.append("]");
        out.append("\n");
        let ghost body = children_emission(ops, (spaces + 1) as nat)->Text_0;
        assert(out@ =~= ind + seq!['\n'] + ind + seq!['[', '\n'] + body + seq!['\n'] + ind + seq![']', '\n']);
    } else {
        assert(out@ =~= ind);
    }
    assert(emission_matches(instr_emission(instruction@, spaces as nat), Some(Ok(out))));
    Some(Ok(out))
}

/// Once a prefix of a loop's children fails, all of them fail the same way.
proof fn lemma_children_prefix(ops: Seq<OperandModel>, k: int, spaces: nat)
    requires
        0 <= k <= ops.len(),
        !(children_emission(ops.take(k), spaces) is Text),
    ensures
        children_emission(ops, spaces) == children_emission(ops.take(k), spaces),
    decreases ops.len() - k,
{
    if k < ops.len() {
        assert(ops.take(k + 1).drop_last() =~= ops.take(k));
        lemma_children_prefix(ops, k + 1, spaces);
    } else {
        assert(ops.take(k) =~= ops);
    }
}

/// Once a prefix of a program fails, the whole fails the same way.
proof fn lemma_program_prefix(s: Seq<InstrModel>, k: int)
    requires
        0 <= k <= s.len(),
        !(program_emission(s.take(k)) is Text),
    ensures
        program_emission(s) == program_emission(s.take(k)),
    decreases s.len() - k,
{
    if k < s.len() {
        assert(s.take(k + 1).drop_last() =~= s.take(k));
        lemma_program_prefix(s, k + 1);
    } else {
        assert(s.take(k) =~= s);
    }
}

/// The Better Brainfuck text of a sequence of instructions; `None` where emitting
/// aborts.
pub fn try_emit(instructions: &[Instruction]) -> (r: Option<Result<String, VerifyError>>)
    ensures
        emission_matches(program_emission(instrs_model(instructions@)), r),
{
    let ghost s = instrs_model(instructions@);
    let mut out = String::new();
    let n = instructions.len();
    let mut k: usize = 0;
    assert(s.take(0) =~= Seq::empty());
    while k < n
        invariant
            0 <= k <= n,
            n == instructions@.len(),
            s == instrs_model(instructions@),
            program_emission(s.take(k as int)) matches Emission::Text(t) && out@ == t,
        decreases n - k,
    {
        assert(s.take(k + 1).drop_last() =~= s.take(k as int));
        let text = match try_emit_instruction(&instructions[k], 0) {
            Some(Ok(t)) => t,
            other => {
                proof {
                    lemma_program_prefix(s, k + 1);
                }
                return other;
            },
        };
        out.append(text.as_str());
        k = k + 1;
    }
    assert(s.take(n as int) =~= s);
    Some(Ok(out))
}

impl BetterBrainfuckEmitter {
    /// The Better Brainfuck text of a module, as [`program_emission`] says; `None`
    /// where the emitter aborts.
    pub fn try_emit(&self, module: &Module) -> (r: Option<Result<String, CompileError>>)
        ensures
            match program_emission(module@.instructions) {
                Emission::Text(t) => r matches Some(Ok(s)) && s@ == t,
                Emission::Invalid => r matches Some(Err(x)) && x@ == CompileErrorModel::VerifyError(
                    VerifyErrorModel::InvalidOperand { position: 0 },
                ),
                Emission::Aborts => r is None,
            },
    {
        match try_emit(module.instructions.as_slice()) {
            Some(Ok(t)) => Some(Ok(t)),
            Some(Err(e)) => Some(Err(CompileError::from(e))),
            None => None,
        }
    }

    /// The Better Brainfuck text of a module on which the emitter does not abort.
    pub fn emit(&self, module: &Module) -> (r: Result<String, CompileError>)
        requires
            !(program_emission(module@.instructions) is Aborts),
        ensures
            match program_emission(module@.instructions) {
                Emission::Text(t) => r matches Ok(s) && s@ == t,
                _ => r matches Err(x) && x@ == CompileErrorModel::VerifyError(
                    VerifyErrorModel::InvalidOperand { position: 0 },
                ),
            },
    {
        match self.try_emit(module) {
            Some(r) => r,
            None => vstd::pervasive::unreached(),
        }
    }
}

/// Law: the text of an amount is its sign (`plus` where the amount is positive,
/// `minus` otherwise), then a numeral of digits whose value is the amount's magnitude,
/// then a space; so reading the numeral back gives the magnitude, whatever its size.
pub proof fn law_amount_text_reads_back(plus: char, minus: char, a: int)
    ensures
        ({
            let t = amount_text(plus, minus, a);
            let numeral = t.subrange(1, t.len() - 1);
            &&& t.len() >= 3
            &&& t[0] == (if a > 0 { plus } else { minus })
            &&& t[t.len() - 1] == ' '
            &&& forall|k: int| 0 <= k < numeral.len() ==> crate::simp::tokens::is_digit(#[trigger] numeral[k])
            &&& crate::simp::tokens::digits_value(numeral) == (if a > 0 { a } else { -a })
        }),
{
    let m: nat = (if a > 0 { a } else { -a }) as nat;
    crate::simp::roundtrip::lemma_digits_facts(m);
    let sign = if a > 0 { plus } else { minus };
    let t = amount_text(plus, minus, a);
    assert(crate::text::decimal(m as int) == crate::text::digits(m));
    assert(t == seq![sign] + crate::text::digits(m) + seq![' ']);
    assert(t.subrange(1, t.len() - 1) =~= crate::text::digits(m));
}

} // verus!
