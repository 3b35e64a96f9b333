//! Simp text from Simp instructions.
use vstd::prelude::*;

use super::op;
use crate::errors::{VerifyError, VerifyErrorModel};
use crate::ir::{
    instrs_model, lemma_instr_model, operands_model, value_text, InstrModel, Instruction, Operand,
    OperandModel,
};
use crate::text::text_is;

verus! {

/// What emitting gives: a text, an error, or nothing because the emitter aborts (an
/// instruction lacks an operand that the emitter reads).
pub enum Emitted {
    Text(Seq<char>),
    Error(VerifyErrorModel),
    Aborts,
}

/// Whether an opcode is that of an expression.
pub open spec fn is_expression_opcode(opcode: Seq<char>) -> bool {
    opcode == op::ADD@ || opcode == op::SUB@ || opcode == op::CONSTANT@ || opcode == op::VARIABLE@
}

/// The text of an operand that stands for an expression: an expression instruction,
/// or a value; any other instruction is an invalid operand at `position`.
pub open spec fn operand_text(o: OperandModel, position: nat) -> Emitted
    decreases o,
{
    match o {
        OperandModel::Instruction(i) => if is_expression_opcode(i.opcode) {
            instr_text(i)
        } else {
            Emitted::Error(VerifyErrorModel::InvalidOperand { position })
        },
        OperandModel::Value(v) => Emitted::Text(value_text(v)),
    }
}

/// The text of the statements of a loop body, each on its own line, left to right.
pub open spec fn statements_text(ops: Seq<OperandModel>) -> Emitted
    decreases ops,
{
    if ops.len() == 0 {
        Emitted::Text(Seq::empty())
    } else {
        match statements_text(ops.drop_last()) {
            Emitted::Text(a) => match ops.last() {
                OperandModel::Instruction(s) => match instr_text(s) {
                    Emitted::Text(b) => Emitted::Text(a + b + seq!['\n']),
                    other => other,
                },
                OperandModel::Value(_) => Emitted::Error(
                    VerifyErrorModel::InvalidOperand { position: 1 },
                ),
            },
            other => other,
        }
    }
}

/// The text of one instruction.
pub open spec fn instr_text(i: InstrModel) -> Emitted
    decreases i,
{
    let ops = i.operands;
    if i.opcode == op::CONSTANT@ || i.opcode == op::VARIABLE@ {
        if ops.len() == 0 {
            Emitted::Aborts
        } else {
            match ops[0] {
                OperandModel::Value(v) => Emitted::Text(value_text(v)),
                _ => Emitted::Error(VerifyErrorModel::InvalidOperand { position: 0 }),
            }
        }
    } else if i.opcode == op::ADD@ || i.opcode == op::SUB@ {
        if ops.len() == 0 {
            Emitted::Aborts
        } else {
            match operand_text(ops[0], 0) {
                Emitted::Text(l) => if ops.len() < 2 {
                    Emitted::Aborts
                } else {
                    match operand_text(ops[1], 1) {
                        Emitted::Text(r) => Emitted::Text(
                            "("@ + l + (if i.opcode == op::ADD@ {
                                " + "@
                            } else {
                                " - "@
                            }) + r + ")"@,
                        ),
                        other => other,
                    }
                },
                other => other,
            }
        }
    } else if i.opcode == op::PRINT@ {
        if ops.len() == 0 {
            Emitted::Aborts
        } else {
            match operand_text(ops[0], 0) {
                Emitted::Text(x) => Emitted::Text("print("@ + x + ")"@),
                other => other,
            }
        }
    } else if i.opcode == op::ASSIGN@ {
        if ops.len() == 0 {
            Emitted::Aborts
        } else {
            match ops[0] {
                OperandModel::Value(v) => if ops.len() < 2 {
                    Emitted::Aborts
                } else {
                    match operand_text(ops[1], 1) {
                        Emitted::Text(e) => Emitted::Text(value_text(v) + " = "@ + e),
                        other => other,
                    }
                },
                _ => Emitted::Error(VerifyErrorModel::InvalidOperand { position: 0 }),
            }
        }
    } else if i.opcode == op::LOOP@ {
        if ops.len() == 0 {
            Emitted::Aborts
        } else {
            match operand_text(ops[0], 0) {
                Emitted::Text(c) => if ops.len() < 2 {
                    Emitted::Aborts
                } else {
                    match ops[1] {
                        OperandModel::Instruction(b) => if b.opcode == op::BODY@ {
                            match statements_text(b.operands) {
                                Emitted::Text(t) => Emitted::Text(
                                    "loop "@ + c + " {\n"@ + t + "}"@,
                                ),
                                other => other,
                            }
                        } else {
                            Emitted::Error(VerifyErrorModel::InvalidOperand { position: 1 })
                        },
                        _ => Emitted::Error(VerifyErrorModel::InvalidOperand { position: 1 }),
                    }
                },
                other => other,
            }
        }
    } else {
        Emitted::Error(VerifyErrorModel::UnknownOpcode(i.opcode))
    }
}

/// The text of a program: each instruction on its own line, left to right.
pub open spec fn program_text(s: Seq<InstrModel>) -> Emitted
    decreases s.len(),
{
    if s.len() == 0 {
        Emitted::Text(Seq::empty())
    } else {
        match program_text(s.drop_last()) {
            Emitted::Text(a) => match instr_text(s.last()) {
                Emitted::Text(b) => Emitted::Text(a + b + seq!['\n']),
                other => other,
            },
            other => other,
        }
    }
}

/// Whether an exec result matches what emitting gives (`None` for an abort).
pub open spec fn emitted_matches(e: Emitted, r: Option<Result<String, VerifyError>>) -> bool {
    match e {
        Emitted::Text(t) => r matches Some(Ok(s)) && s@ == t,
        Emitted::Error(x) => r matches Some(Err(y)) && y@ == x,
        Emitted::Aborts => r is None,
    }
}

/// The opcodes of Simp are distinct.
pub proof fn lemma_opcodes()
    ensures
        op::ASSIGN@ != op::ADD@,
        op::ASSIGN@ != op::SUB@,
        op::ASSIGN@ != op::LOOP@,
        op::ASSIGN@ != op::BODY@,
        op::ASSIGN@ != op::PRINT@,
        op::ASSIGN@ != op::CONSTANT@,
        op::ASSIGN@ != op::VARIABLE@,
        op::ADD@ != op::SUB@,
        op::ADD@ != op::LOOP@,
        op::ADD@ != op::BODY@,
        op::ADD@ != op::PRINT@,
        op::ADD@ != op::CONSTANT@,
        op::ADD@ != op::VARIABLE@,
        op::SUB@ != op::LOOP@,
        op::SUB@ != op::BODY@,
        op::SUB@ != op::PRINT@,
        op::SUB@ != op::CONSTANT@,
        op::SUB@ != op::VARIABLE@,
        op::LOOP@ != op::BODY@,
        op::LOOP@ != op::PRINT@,
        op::LOOP@ != op::CONSTANT@,
        op::LOOP@ != op::VARIABLE@,
        op::BODY@ != op::PRINT@,
        op::BODY@ != op::CONSTANT@,
        op::BODY@ != op::VARIABLE@,
        op::PRINT@ != op::CONSTANT@,
        op::PRINT@ != op::VARIABLE@,
        op::CONSTANT@ != op::VARIABLE@,
{
    reveal_strlit("simp.assign");
    reveal_strlit("simp.add");
    reveal_strlit("simp.sub");
    reveal_strlit("simp.loop");
    reveal_strlit("simp.body");
    reveal_strlit("simp.print");
    reveal_strlit("simp.const");
    reveal_strlit("simp.var");
    assert(op::ASSIGN@.len() == 11 && op::ASSIGN@[6] == 's');
    assert(op::ADD@.len() == 8 && op::ADD@[5] == 'a');
    assert(op::SUB@.len() == 8 && op::SUB@[5] == 's');
    assert(op::LOOP@.len() == 9 && op::LOOP@[5] == 'l');
    assert(op::BODY@.len() == 9 && op::BODY@[5] == 'b');
    assert(op::PRINT@.len() == 10 && op::PRINT@[5] == 'p');
    assert(op::CONSTANT@.len() == 10 && op::CONSTANT@[5] == 'c');
    assert(op::VARIABLE@.len() == 8 && op::VARIABLE@[5] == 'v');
}

fn is_expression(opcode: &String) -> (r: bool)
    ensures
        r == is_expression_opcode(opcode@),
{
    text_is(opcode, op::ADD) || text_is(opcode, op::SUB) || text_is(opcode, op::CONSTANT)
        || text_is(opcode, op::VARIABLE)
}

/// The text of an operand that stands for an expression.
fn try_operand_text(operand: &Operand, position: usize) -> (r: Option<Result<String, VerifyError>>)
    ensures
        emitted_matches(operand_text(operand@, position as nat), r),
    decreases operand,
{
    match operand {
        Operand::Instruction(i) => {
            if is_expression(&i.opcode) {
                try_emit_instruction(i)
            } else {
                Some(Err(VerifyError::InvalidOperand { position }))
            }
        },
        Operand::Value(v) => Some(Ok(v.display())),
    }
}

proof fn lemma_statements_prefix(ops: Seq<OperandModel>, k: int)
    requires
        0 <= k <= ops.len(),
        !(statements_text(ops.take(k)) is Text),
    ensures
        statements_text(ops) == statements_text(ops.take(k)),
    decreases ops.len() - k,
{
    if k < ops.len() {
        assert(ops.take(k + 1).drop_last() =~= ops.take(k));
        lemma_statements_prefix(ops, k + 1);
    } else {
        assert(ops.take(k) =~= ops);
    }
}

/// The text of the statements of a loop body.
fn try_statements_text(body: &Instruction) -> (r: Option<Result<String, VerifyError>>)
    ensures
        emitted_matches(statements_text(body@.operands), r),
    decreases body, 0nat,
{
    proof {
        lemma_instr_model(*body);
        reveal_strlit("\n");
    }
    let ghost ops = operands_model(body.operands@);
    let mut out = String::new();
    let n = body.operands.len();
    let mut k: usize = 0;
    assert(ops.take(0) =~= Seq::empty());
    while k < n
        invariant
            0 <= k <= n,
            n == body.operands@.len(),
            ops == operands_model(body.operands@),
            body@.operands == ops,
            statements_text(ops.take(k as int)) matches Emitted::Text(t) && out@ == t,
        decreases n - k,
    {
        assert(ops.take(k + 1).drop_last() =~= ops.take(k as int));
        assert(ops.take(k + 1).last() == ops[k as int]);
        match &body.operands[k] {
            Operand::Instruction(stmt) => {
                proof {
                    assert(decreases_to!(body.operands => body.operands@[k as int]));
                }
                match try_emit_instruction(stmt) {
                    Some(Ok(t)) => {
                        proof {
                            reveal_strlit("\n");
                        }
                        out.append(t.as_str());
                        out.append("\n");
                    },
                    other => {
                        proof {
                            lemma_statements_prefix(ops, k + 1);
                        }
                        return other;
                    },
                }
            },
            Operand::Value(_) => {
                proof {
                    lemma_statements_prefix(ops, k + 1);
                }
                return Some(Err(VerifyError::InvalidOperand { position: 1 }));
            },
        }
        k = k + 1;
    }
    assert(ops.take(n as int) =~= ops);
    Some(Ok(out))
}

/// The Simp text of one instruction; `None` where emitting aborts.
pub fn try_emit_instruction(instr: &Instruction) -> (r: Option<Result<String, VerifyError>>)
    ensures
        emitted_matches(instr_text(instr@), r),
    decreases instr, 1nat,
{
    proof {
        lemma_instr_model(*instr);
        lemma_opcodes();
        reveal_strlit("(");
        reveal_strlit(")");
        reveal_strlit(" + ");
        reveal_strlit(" - ");
        reveal_strlit("print(");
        reveal_strlit(" = ");
        reveal_strlit("loop ");
        reveal_strlit(" {\n");
        reveal_strlit("}");
    }
    let ops = &instr.operands;
    if text_is(&instr.opcode, op::CONSTANT) || text_is(&instr.opcode, op::VARIABLE) {
        if ops.len() == 0 {
            return None;
        }
        match &ops[0] {
            Operand::Value(v) => Some(Ok(v.display())),
            _ => Some(Err(VerifyError::InvalidOperand { position: 0 })),
        }
    } else if text_is(&instr.opcode, op::ADD) || text_is(&instr.opcode, op::SUB) {
        if ops.len() == 0 {
            return None;
        }
        proof {
            assert(decreases_to!(instr.operands => instr.operands@[0]));
        }
        let lhs = match try_operand_text(&ops[0], 0) {
            Some(Ok(t)) => t,
            other => {
                return other;
            },
        };
        if ops.len() < 2 {
            return None;
        }
        proof {
            assert(decreases_to!(instr.operands => instr.operands@[1]));
        }
        let rhs = match try_operand_text(&ops[1], 1) {
            Some(Ok(t)) => t,
            other => {
                return other;
            },
        };
        let mut out = String::new();
        out.append("(");
        out.append(lhs.as_str());
        if text_is(&instr.opcode, op::ADD) {
            out.append(" + ");
        } else {
            out.append(" - ");
        }
        out.append(rhs.as_str());
        out.append(")");
        Some(Ok(out))
    } else if text_is(&instr.opcode, op::PRINT) {
        if ops.len() == 0 {
            return None;
        }
        proof {
            assert(decreases_to!(instr.operands => instr.operands@[0]));
        }
        let x = match try_operand_text(&ops[0], 0) {
            Some(Ok(t)) => t,
            other => {
                return other;
            },
        };
        let mut out = String::new();
        out.append("print(");
        out.append(x.as_str());
        out.append(")");
        Some(Ok(out))
    } else if text_is(&instr.opcode, op::ASSIGN) {
        if ops.len() == 0 {
            return None;
        }
        let name = match &ops[0] {
            Operand::Value(v) => v.display(),
            _ => {
                return Some(Err(VerifyError::InvalidOperand { position: 0 }));
            },
        };
        if ops.len() < 2 {
            return None;
        }
        proof {
            assert(decreases_to!(instr.operands => instr.operands@[1]));
        }
        let e = match try_operand_text(&ops[1], 1) {
            Some(Ok(t)) => t,
            other => {
                return other;
            },
        };
        let mut out = String::new();
        out.append(name.as_str());
        out.append(" = ");
        out.append(e.as_str());
        Some(Ok(out))
    } else if text_is(&instr.opcode, op::LOOP) {
        if ops.len() == 0 {
            return None;
        }
        proof {
            assert(decreases_to!(instr.operands => instr.operands@[0]));
        }
        let count = match try_operand_text(&ops[0], 0) {
            Some(Ok(t)) => t,
            other => {
                return other;
            },
        };
        if ops.len() < 2 {
            return None;
        }
        let body = match &ops[1] {
            Operand::Instruction(b) => {
                if text_is(&b.opcode, op::BODY) {
                    proof {
                        assert(decreases_to!(instr.operands => instr.operands@[1]));
                    }
                    match try_statements_text(b) {
                        Some(Ok(t)) => t,
                        other => {
                            return other;
                        },
                    }
                } else {
                    return Some(Err(VerifyError::InvalidOperand { position: 1 }));
                }
            },
            _ => {
                return Some(Err(VerifyError::InvalidOperand { position: 1 }));
            },
        };
        let mut out = String::new();
        out.append("loop ");
        out.append(count.as_str());
        out.append(" {\n");
        out.append(body.as_str());
        out.append("}");
        Some(Ok(out))
    } else {
        Some(Err(VerifyError::UnknownOpcode(instr.opcode.clone())))
    }
}

/// The Simp text of one instruction: an expression with each addition and subtraction
/// in parentheses, `print(..)`, `name = ..`, or `loop .. { .. }` with one statement per
/// line.
pub fn emit_instruction(instr: &Instruction) -> (r: Result<String, VerifyError>)
    requires
        !(instr_text(instr@) is Aborts),
    ensures
        emitted_matches(instr_text(instr@), Some(r)),
{
    match try_emit_instruction(instr) {
        Some(r) => r,
        None => Err(VerifyError::InvalidOperand { position: 0 }),
    }
}

proof fn lemma_program_prefix(s: Seq<InstrModel>, k: int)
    requires
        0 <= k <= s.len(),
        !(program_text(s.take(k)) is Text),
    ensures
        program_text(s) == program_text(s.take(k)),
    decreases s.len() - k,
{
    if k < s.len() {
        assert(s.take(k + 1).drop_last() =~= s.take(k));
        lemma_program_prefix(s, k + 1);
    } else {
        assert(s.take(k) =~= s);
    }
}

/// The Simp text of a program; `None` where emitting aborts.
pub fn try_emit(instructions: &[Instruction]) -> (r: Option<Result<String, VerifyError>>)
    ensures
        emitted_matches(program_text(instrs_model(instructions@)), r),
{
    proof {
        reveal_strlit("\n");
    }
    let ghost s = instrs_model(instructions@);
    let mut out = String::new();
    let n = instructions.len();
    let mut k: usize = 0;
    assert(s.take(0) =~= Seq::empty());
    while k < n
        invariant
            0 <= k <= n,
            n == instructions@.len(),
            s == instrs_model(instructions@),
            program_text(s.take(k as int)) matches Emitted::Text(t) && out@ == t,
        decreases n - k,
    {
        assert(s.take(k + 1).drop_last() =~= s.take(k as int));
        match try_emit_instruction(&instructions[k]) {
            Some(Ok(t)) => {
                proof {
                    reveal_strlit("\n");
                }
                out.append(t.as_str());
                out.append("\n");
            },
            other => {
                proof {
                    lemma_program_prefix(s, k + 1);
                }
                return other;
            },
        }
        k = k + 1;
    }
    assert(s.take(n as int) =~= s);
    Some(Ok(out))
}

/// The Simp text of a program: each instruction's text on its own line.
pub fn emit(instructions: &[Instruction]) -> (r: Result<String, VerifyError>)
    requires
        !(program_text(instrs_model(instructions@)) is Aborts),
    ensures
        emitted_matches(program_text(instrs_model(instructions@)), Some(r)),
{
    match try_emit(instructions) {
        Some(r) => r,
        None => Err(VerifyError::InvalidOperand { position: 0 }),
    }
}

} // verus!
