//! Laws of Brainfuck text: the text of a well-formed program is balanced, it
//! determines the program, and parsing it gives the program back.
use vstd::prelude::*;

use super::op;
use super::parser::{
    bracket_delta, closes_matched, commands, depth, is_command_char, lemma_opcodes,
    parse_result_ok, unmatched_close_at,
};
use super::syntax::{
    bf_defs, command_char, emit_instr, emit_operands, emit_seq, leaf_model, loop_model, wf_instr,
    wf_operands, wf_program,
};
use crate::ir::{as_operands, verify_spec, InstrModel, OperandModel};

verus! {

/// Concatenation of two optional texts.
pub open spec fn opt_cat(a: Option<Seq<char>>, b: Option<Seq<char>>) -> Option<Seq<char>> {
    match (a, b) {
        (Some(x), Some(y)) => Some(x + y),
        _ => None,
    }
}

/// Whether every prefix of `t` closes no more brackets than it opens, and `t` closes
/// all it opens.
pub open spec fn balanced(t: Seq<char>) -> bool {
    &&& depth(t) == 0
    &&& forall|k: int| 0 <= k <= t.len() ==> depth(#[trigger] t.take(k)) >= 0
}

/// The text of operands put one after the other is the texts one after the other, and
/// they are well formed exactly when both parts are.
pub proof fn lemma_emit_operands_concat(a: Seq<OperandModel>, b: Seq<OperandModel>)
    ensures
        emit_operands(a + b) == opt_cat(emit_operands(a), emit_operands(b)),
        wf_operands(a + b) == (wf_operands(a) && wf_operands(b)),
    decreases b.len(),
{
    if b.len() == 0 {
        assert(a + b =~= a);
        assert(emit_operands(b) == Some(Seq::<char>::empty()));
        if let Some(x) = emit_operands(a) {
            assert(x + Seq::<char>::empty() =~= x);
        }
    } else {
        let c = b.drop_last();
        assert((a + b).drop_last() =~= a + c);
        assert((a + b).last() == b.last());
        lemma_emit_operands_concat(a, c);
        if let (Some(x), Some(y)) = (emit_operands(a), emit_operands(c)) {
            if let OperandModel::Instruction(i) = b.last() {
                if let Some(z) = emit_instr(i) {
                    assert(x + y + z =~= x + (y + z));
                }
            }
        }
    }
}

/// The depth of two texts put together is the sum of their depths.
pub proof fn lemma_depth_concat(s: Seq<char>, t: Seq<char>)
    ensures
        depth(s + t) == depth(s) + depth(t),
    decreases t.len(),
{
    if t.len() == 0 {
        assert(s + t =~= s);
    } else {
        assert((s + t).drop_last() =~= s + t.drop_last());
        lemma_depth_concat(s, t.drop_last());
    }
}

/// The depth of a single character.
pub proof fn lemma_depth_single(c: char)
    ensures
        depth(seq![c]) == bracket_delta(c),
{
    assert(seq![c].drop_last() =~= Seq::<char>::empty());
    assert(depth(Seq::<char>::empty()) == 0);
}

/// Two balanced texts put together are balanced.
pub proof fn lemma_balanced_concat(s: Seq<char>, t: Seq<char>)
    requires
        balanced(s),
        balanced(t),
    ensures
        balanced(s + t),
{
    lemma_depth_concat(s, t);
    assert forall|k: int| 0 <= k <= (s + t).len() implies depth(#[trigger] (s + t).take(k)) >= 0 by {
        if k <= s.len() {
            assert((s + t).take(k) =~= s.take(k));
        } else {
            assert((s + t).take(k) =~= s + t.take(k - s.len()));
            lemma_depth_concat(s, t.take(k - s.len()));
        }
    }
}

/// A balanced text between brackets is balanced, and every prefix of it that is not
/// empty and does not reach the closing bracket is deeper than zero.
pub proof fn lemma_balanced_wrap(x: Seq<char>)
    requires
        balanced(x),
    ensures
        balanced(seq!['['] + x + seq![']']),
        forall|k: int|
            1 <= k <= x.len() + 1 ==> depth(#[trigger] (seq!['['] + x + seq![']']).take(k))
                >= 1,
{
    let w = seq!['['] + x + seq![']'];
    lemma_depth_single('[');
    lemma_depth_single(']');
    lemma_depth_concat(seq!['['], x);
    lemma_depth_concat(seq!['['] + x, seq![']']);
    assert forall|k: int| 1 <= k <= x.len() + 1 implies depth(#[trigger] w.take(k)) >= 1 by {
        assert(w.take(k) =~= seq!['['] + x.take(k - 1));
        lemma_depth_concat(seq!['['], x.take(k - 1));
    }
    assert forall|k: int| 0 <= k <= w.len() implies depth(#[trigger] w.take(k)) >= 0 by {
        if k == 0 {
            assert(w.take(0) =~= Seq::<char>::empty());
        } else if k == w.len() {
            assert(w.take(k) =~= w);
        }
    }
}

/// The text of one operand.
pub open spec fn emit_operand(o: OperandModel) -> Option<Seq<char>> {
    match o {
        OperandModel::Instruction(i) => emit_instr(i),
        OperandModel::Value(_) => None,
    }
}

/// Whether one operand is a well-formed instruction.
pub open spec fn wf_operand(o: OperandModel) -> bool {
    match o {
        OperandModel::Instruction(i) => wf_instr(i),
        OperandModel::Value(_) => false,
    }
}

/// The text of operands is the text of the first one followed by that of the rest.
pub proof fn lemma_emit_operands_front(ops: Seq<OperandModel>)
    requires
        ops.len() > 0,
    ensures
        emit_operands(ops) == opt_cat(emit_operand(ops[0]), emit_operands(ops.drop_first())),
        wf_operands(ops) == (wf_operand(ops[0]) && wf_operands(ops.drop_first())),
{
    let one = seq![ops[0]];
    assert(ops =~= one + ops.drop_first());
    lemma_emit_operands_concat(one, ops.drop_first());
    assert(one.drop_last() =~= Seq::<OperandModel>::empty());
    assert(one.last() == ops[0]);
    assert(emit_operands(Seq::<OperandModel>::empty()) == Some(Seq::<char>::empty()));
    assert(wf_operands(Seq::<OperandModel>::empty()));
    if let Some(t) = emit_operand(ops[0]) {
        assert(Seq::<char>::empty() + t =~= t);
    }
}

/// Well-formed operands have a balanced text of Brainfuck commands that is empty only
/// where there are no operands.
pub proof fn lemma_wf_balanced(ops: Seq<OperandModel>)
    requires
        wf_operands(ops),
    ensures
        emit_operands(ops) matches Some(t) && balanced(t) && (t.len() == 0 <==> ops.len() == 0)
            && forall|k: int| 0 <= k < t.len() ==> is_command_char(#[trigger] t[k]),
    decreases ops,
{
    if ops.len() == 0 {
        assert(balanced(Seq::<char>::empty())) by {
            assert forall|k: int| 0 <= k <= 0 implies depth(
                #[trigger] Seq::<char>::empty().take(k),
            ) >= 0 by {
                assert(Seq::<char>::empty().take(k) =~= Seq::<char>::empty());
            }
        }
    } else {
        let rest = ops.drop_last();
        lemma_wf_balanced(rest);
        let a = emit_operands(rest)->0;
        if let OperandModel::Instruction(i) = ops.last() {
            assert(wf_instr(i));
            let b = if i.opcode == op::LOOP@ {
                assert(wf_operands(i.operands));
                lemma_wf_balanced(i.operands);
                let x = emit_operands(i.operands)->0;
                lemma_balanced_wrap(x);
                seq!['['] + x + seq![']']
            } else {
                let c = command_char(i.opcode)->0;
                assert(depth(seq![c]) == 0) by {
                    lemma_depth_single(c);
                    lemma_opcodes();
                }
                assert(balanced(seq![c])) by {
                    assert forall|k: int| 0 <= k <= 1 implies depth(#[trigger] seq![c].take(k))
                        >= 0 by {
                        if k == 0 {
                            assert(seq![c].take(0) =~= Seq::<char>::empty());
                        } else {
                            assert(seq![c].take(1) =~= seq![c]);
                        }
                    }
                }
                lemma_opcodes();
                seq![c]
            };
            assert(emit_instr(i) == Some(b));
            lemma_balanced_concat(a, b);
            assert forall|k: int| 0 <= k < (a + b).len() implies is_command_char(
                #[trigger] (a + b)[k],
            ) by {
                if k >= a.len() && i.opcode == op::LOOP@ {
                    let x = emit_operands(i.operands)->0;
                    if k > a.len() && k < a.len() + 1 + x.len() {
                        assert((a + b)[k] == x[k - a.len() - 1]);
                    }
                }
            }
        }
    }
}

/// A text that starts with a balanced text between brackets determines that text and
/// what follows it.
pub proof fn lemma_wrapped_prefix_unique(
    bx: Seq<char>,
    rx: Seq<char>,
    by: Seq<char>,
    ry: Seq<char>,
)
    requires
        balanced(bx),
        balanced(by),
        seq!['['] + bx + seq![']'] + rx == seq!['['] + by + seq![']'] + ry,
    ensures
        bx == by,
        rx == ry,
{
    let t = seq!['['] + bx + seq![']'] + rx;
    lemma_balanced_wrap(bx);
    lemma_balanced_wrap(by);
    assert(bx.len() == by.len()) by {
        if bx.len() < by.len() {
            let k: int = bx.len() as int + 2;
            assert(t.take(k) =~= seq!['['] + bx + seq![']']);
            assert(t.take(k) =~= (seq!['['] + by + seq![']']).take(k));
        } else if by.len() < bx.len() {
            let k: int = by.len() as int + 2;
            assert(t.take(k) =~= seq!['['] + by + seq![']']);
            assert(t.take(k) =~= (seq!['['] + bx + seq![']']).take(k));
        }
    }
    assert(bx =~= t.subrange(1, bx.len() + 1 as int));
    assert(by =~= t.subrange(1, by.len() + 1 as int));
    assert(rx =~= t.skip(bx.len() + 2 as int));
    assert(ry =~= t.skip(by.len() + 2 as int));
}

/// The text of the first of several well-formed operands, and the text of the rest.
proof fn lemma_split_first(p: Seq<OperandModel>)
    requires
        wf_operands(p),
        p.len() > 0,
    ensures
        wf_operand(p[0]),
        wf_operands(p.drop_first()),
        emit_operand(p[0]) is Some,
        emit_operands(p.drop_first()) is Some,
        emit_operands(p) == Some(emit_operand(p[0])->0 + emit_operands(p.drop_first())->0),
{
    lemma_emit_operands_front(p);
    lemma_wf_balanced(p.drop_first());
    lemma_emit_operands_front(seq![p[0]]);
    assert(seq![p[0]].drop_first() =~= Seq::<OperandModel>::empty());
    assert(wf_operands(Seq::<OperandModel>::empty()));
    lemma_wf_balanced(seq![p[0]]);
}

/// Brainfuck text determines its operands: two sequences of well-formed instructions
/// with the same text are the same.
pub proof fn lemma_emit_operands_injective(p: Seq<OperandModel>, q: Seq<OperandModel>)
    requires
        wf_operands(p),
        wf_operands(q),
        emit_operands(p) == emit_operands(q),
    ensures
        p == q,
    decreases p,
{
    lemma_wf_balanced(p);
    lemma_wf_balanced(q);
    if p.len() == 0 {
        assert(p =~= q);
    } else {
        lemma_split_first(p);
        lemma_split_first(q);
        let xi = p[0]->Instruction_0;
        let yi = q[0]->Instruction_0;
        let t = emit_operands(p)->0;
        let rx = emit_operands(p.drop_first())->0;
        let ry = emit_operands(q.drop_first())->0;
        if xi.opcode == op::LOOP@ {
            assert(wf_operands(xi.operands));
            lemma_wf_balanced(xi.operands);
            let bx = emit_operands(xi.operands)->0;
            assert(t[0] == '[');
            assert(yi.opcode == op::LOOP@) by {
                lemma_opcodes();
            }
            assert(wf_operands(yi.operands));
            lemma_wf_balanced(yi.operands);
            let by = emit_operands(yi.operands)->0;
            lemma_wrapped_prefix_unique(bx, rx, by, ry);
            lemma_emit_operands_injective(xi.operands, yi.operands);
            lemma_emit_operands_injective(p.drop_first(), q.drop_first());
        } else {
            let c = command_char(xi.opcode)->0;
            assert(t[0] == c);
            assert(yi.opcode == xi.opcode) by {
                lemma_opcodes();
            }
            assert(xi.operands =~= yi.operands);
            assert(rx =~= t.skip(1));
            assert(ry =~= t.skip(1));
            lemma_emit_operands_injective(p.drop_first(), q.drop_first());
        }
        assert(p =~= seq![p[0]] + p.drop_first());
        assert(q =~= seq![q[0]] + q.drop_first());
    }
}

/// Brainfuck text determines its program: two well-formed programs with the same
/// text are the same program.
pub proof fn lemma_emit_injective(p: Seq<InstrModel>, q: Seq<InstrModel>)
    requires
        wf_program(p),
        wf_program(q),
        emit_seq(p) == emit_seq(q),
    ensures
        p == q,
{
    lemma_emit_operands_injective(as_operands(p), as_operands(q));
    assert(p.len() == q.len());
    assert forall|k: int| 0 <= k < p.len() implies p[k] == q[k] by {
        assert(as_operands(p)[k] == as_operands(q)[k]);
    }
    assert(p =~= q);
}


/// A text made only of Brainfuck commands is its own commands.
pub proof fn lemma_commands_of_commands(t: Seq<char>)
    requires
        forall|k: int| 0 <= k < t.len() ==> is_command_char(#[trigger] t[k]),
    ensures
        commands(t) == t,
    decreases t.len(),
{
    if t.len() > 0 {
        lemma_commands_of_commands(t.drop_last());
        assert(t.drop_last().push(t.last()) =~= t);
    }
}

/// A balanced text has no `]` that closes nothing.
pub proof fn lemma_balanced_closes_matched(t: Seq<char>)
    requires
        balanced(t),
    ensures
        closes_matched(t),
{
    assert forall|j: int| !unmatched_close_at(t, j) by {
        if unmatched_close_at(t, j) {
            assert(t.take(j + 1) =~= t.take(j).push(t[j]));
            assert(t.take(j + 1).drop_last() =~= t.take(j));
            assert(depth(t.take(j + 1)) == -1);
        }
    }
}

/// Parsing the text of a well-formed Brainfuck program succeeds and gives the
/// program back: the text has balanced brackets (so `parse` returns `Ok`), and the
/// instructions of every result that parsing may give for it are `p`.
pub proof fn law_parse_emit_roundtrip(p: Seq<InstrModel>, m: crate::ir::ModuleModel)
    requires
        wf_program(p),
        parse_result_ok(emit_seq(p)->0, m),
    ensures
        emit_seq(p) matches Some(t) && closes_matched(t) && depth(t) == 0,
        m.instructions == p,
{
    lemma_wf_balanced(as_operands(p));
    let t = emit_seq(p)->0;
    lemma_balanced_closes_matched(t);
    lemma_commands_of_commands(t);
    lemma_emit_injective(m.instructions, p);
}

/// Every text of well-formed Brainfuck has a result of parsing.
pub proof fn law_wf_text_parses(p: Seq<InstrModel>)
    requires
        wf_program(p),
    ensures
        emit_seq(p) matches Some(t) && closes_matched(t) && depth(t) == 0 && parse_result_ok(
            t,
            crate::ir::ModuleModel {
                language: crate::ir::language_model(super::syntax::BrainfuckLanguage),
                instructions: p,
            },
        ),
{
    lemma_wf_balanced(as_operands(p));
    let t = emit_seq(p)->0;
    lemma_balanced_closes_matched(t);
    lemma_commands_of_commands(t);
}

/// Law: the instructions that the Brainfuck constructors build pass the language's
/// check: each of the six commands, and a loop over any instructions.
pub proof fn law_constructors_verify(body: Seq<InstrModel>)
    ensures
        verify_spec(bf_defs(), leaf_model(op::PTR_RIGHT@)) == Ok::<(), crate::errors::VerifyErrorModel>(()),
        verify_spec(bf_defs(), leaf_model(op::PTR_LEFT@)) == Ok::<(), crate::errors::VerifyErrorModel>(()),
        verify_spec(bf_defs(), leaf_model(op::INCR@)) == Ok::<(), crate::errors::VerifyErrorModel>(()),
        verify_spec(bf_defs(), leaf_model(op::DECR@)) == Ok::<(), crate::errors::VerifyErrorModel>(()),
        verify_spec(bf_defs(), leaf_model(op::OUTPUT@)) == Ok::<(), crate::errors::VerifyErrorModel>(()),
        verify_spec(bf_defs(), leaf_model(op::INPUT@)) == Ok::<(), crate::errors::VerifyErrorModel>(()),
        verify_spec(bf_defs(), loop_model(body)) == Ok::<(), crate::errors::VerifyErrorModel>(()),
{
    lemma_opcodes();
    reveal_with_fuel(crate::ir::find_def, 8);
    let ops = as_operands(body);
    crate::ir::lemma_instructions_match(ops, 0);
}

/// The operands of a well-formed loop are all instructions.
proof fn lemma_wf_all_instructions(ops: Seq<OperandModel>)
    requires
        wf_operands(ops),
    ensures
        forall|k: int| 0 <= k < ops.len() ==> (#[trigger] ops[k]) is Instruction,
    decreases ops.len(),
{
    if ops.len() > 0 {
        lemma_wf_all_instructions(ops.drop_last());
        assert forall|k: int| 0 <= k < ops.len() implies (#[trigger] ops[k]) is Instruction by {
            if k < ops.len() - 1 {
                assert(ops[k] == ops.drop_last()[k]);
            }
        }
    }
}

/// A well-formed instruction passes the Brainfuck check all through.
proof fn lemma_wf_instr_verifies(i: InstrModel)
    requires
        wf_instr(i),
    ensures
        crate::ir::deep_verified(bf_defs(), i),
    decreases i,
{
    if i.opcode == op::LOOP@ {
        lemma_wf_operands_verify(i.operands);
        lemma_wf_all_instructions(i.operands);
        lemma_opcodes();
        reveal_with_fuel(crate::ir::find_def, 8);
        crate::ir::lemma_instructions_match(i.operands, 0);
    } else {
        assert(i.operands =~= Seq::<OperandModel>::empty());
        assert(i == leaf_model(i.opcode));
        law_constructors_verify(Seq::empty());
        assert(crate::ir::deep_verified_ops(bf_defs(), i.operands));
    }
}

proof fn lemma_wf_operands_verify(ops: Seq<OperandModel>)
    requires
        wf_operands(ops),
    ensures
        crate::ir::deep_verified_ops(bf_defs(), ops),
    decreases ops,
{
    if ops.len() > 0 {
        lemma_wf_operands_verify(ops.drop_last());
        if let OperandModel::Instruction(x) = ops.last() {
            lemma_wf_instr_verifies(x);
        }
    }
}

/// Law: every instruction of a well-formed Brainfuck program, such as the ones that
/// parsing gives, passes the language's check, and so does every instruction nested
/// in it.
pub proof fn law_wf_program_verifies(p: Seq<InstrModel>)
    requires
        wf_program(p),
    ensures
        crate::ir::deep_verified_ops(bf_defs(), as_operands(p)),
{
    lemma_wf_operands_verify(as_operands(p));
}

} // verus!
