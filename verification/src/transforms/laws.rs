//! Laws of the translations between Brainfuck and Better Brainfuck.
use vstd::prelude::*;

use super::bbf_to_bf::{bbf_to_bf_children, bbf_to_bf_instr, bbf_to_bf_program};
use super::bf_to_bbf::{bf_to_bbf_children, bf_to_bbf_instr, bf_to_bbf_program};
use crate::better_brainfuck as bbf;
use crate::brainfuck as bf;
use crate::brainfuck::syntax::{wf_instr, wf_operands, wf_program};
use super::simp_semantics::{
    cell, lemma_repeat_decr, lemma_repeat_incr, lemma_repeat_move, lemma_run_one, wrap,
};
use crate::better_brainfuck::semantics::Machine;
use crate::ir::{as_operands, InstrModel, OperandModel, Outcome};

verus! {

/// The instructions among some operands (what a well-formed loop's operands are).
pub open spec fn instrs_of(ops: Seq<OperandModel>) -> Seq<InstrModel> {
    ops.map_values(
        |o: OperandModel|
            match o {
                OperandModel::Instruction(i) => i,
                OperandModel::Value(_) => InstrModel { opcode: Seq::empty(), operands: Seq::empty() },
            },
    )
}

proof fn lemma_roundtrip_instr(i: InstrModel)
    requires
        wf_instr(i),
    ensures
        bf_to_bbf_instr(i) matches Some(t) && bbf_to_bf_instr(t) == Outcome::Done(seq![i]),
    decreases i,
{
    bf::parser::lemma_opcodes();
    bbf::syntax::lemma_opcodes();
    if i.opcode == bf::op::LOOP@ {
        lemma_roundtrip_operands(i.operands);
        let b = bf_to_bbf_children(i.operands)->0;
        let t = bbf::syntax::loop_model(b);
        assert(as_operands(instrs_of(i.operands)) =~= i.operands) by {
            lemma_wf_operands_are_instructions(i.operands);
        }
        assert(bf::syntax::loop_model(instrs_of(i.operands)) == i);
    } else {
        assert(i.operands =~= Seq::<OperandModel>::empty());
        let t = bf_to_bbf_instr(i)->0;
        if i.opcode == bf::op::PTR_RIGHT@ || i.opcode == bf::op::INCR@ {
            assert(t.operands[0] == OperandModel::Value(crate::ir::ValueModel::BetterBrainfuck(1)));
        } else if i.opcode == bf::op::PTR_LEFT@ || i.opcode == bf::op::DECR@ {
            assert(t.operands[0] == OperandModel::Value(
                crate::ir::ValueModel::BetterBrainfuck(-1i64),
            ));
        }
        let r = bbf_to_bf_instr(t)->Done_0;
        assert(r =~= seq![i]);
    }
}

/// The operands of a well-formed loop are all instructions.
proof fn lemma_wf_operands_are_instructions(ops: Seq<OperandModel>)
    requires
        wf_operands(ops),
    ensures
        forall|k: int| 0 <= k < ops.len() ==> (#[trigger] ops[k]) is Instruction,
    decreases ops.len(),
{
    if ops.len() > 0 {
        lemma_wf_operands_are_instructions(ops.drop_last());
        assert forall|k: int| 0 <= k < ops.len() implies (#[trigger] ops[k]) is Instruction by {
            if k < ops.len() - 1 {
                assert(ops[k] == ops.drop_last()[k]);
            }
        }
    }
}

proof fn lemma_roundtrip_operands(ops: Seq<OperandModel>)
    requires
        wf_operands(ops),
    ensures
        bf_to_bbf_children(ops) matches Some(b) && bbf_to_bf_children(as_operands(b))
            == Outcome::Done(instrs_of(ops)),
    decreases ops,
{
    if ops.len() == 0 {
        assert(as_operands(Seq::<InstrModel>::empty()) =~= Seq::empty());
        assert(instrs_of(ops) =~= Seq::empty());
    } else {
        let rest = ops.drop_last();
        let i = ops.last()->Instruction_0;
        lemma_roundtrip_operands(rest);
        lemma_roundtrip_instr(i);
        let b = bf_to_bbf_children(rest)->0;
        let t = bf_to_bbf_instr(i)->0;
        assert(bf_to_bbf_children(ops) == Some(b.push(t)));
        assert(as_operands(b.push(t)) =~= as_operands(b).push(OperandModel::Instruction(t)));
        assert(as_operands(b.push(t)).drop_last() =~= as_operands(b));
        assert(instrs_of(ops) =~= instrs_of(rest) + seq![i]);
    }
}

/// Translating a well-formed Brainfuck program into Better Brainfuck and back gives
/// the program: both translations succeed, and the second returns the first's input.
pub proof fn law_bf_bbf_roundtrip(p: Seq<InstrModel>)
    requires
        wf_program(p),
    ensures
        bf_to_bbf_program(p) matches Some(q) && bbf_to_bf_program(q) == Outcome::Done(p),
{
    lemma_roundtrip_operands(as_operands(p));
    assert(instrs_of(as_operands(p)) =~= p);
}

/// Law: an instruction of Better Brainfuck other than a loop and its Brainfuck
/// translation do the same on every machine: the single steps of a move or an
/// addition shift the pointer, or change the cell under it, by the whole amount
/// (modulo 256 for a cell), where the pointer does not go below the machine's floor;
/// output and input are kept.
pub proof fn law_step_translation_runs_alike(i: InstrModel, m: Machine, fuel: nat)
    requires
        i.opcode != bbf::op::LOOP@,
        bbf_to_bf_instr(i) is Done,
        i.opcode == bbf::op::MOVE@ ==> (bbf::syntax::amount_of(i) matches Some(a) && m.ptr - (if a < 0 { -a } else { a as int }) >= m.floor),
    ensures
        bbf_to_bf_instr(i) matches Outcome::Done(q) && bf::semantics::run_program(q, m, fuel)
            == bbf::semantics::run_instr(i, m, fuel),
{
    bbf::syntax::lemma_opcodes();
    let a = bbf::syntax::amount_of(i)->0;
    let q = bbf_to_bf_instr(i)->Done_0;
    if i.opcode == bbf::op::OUTPUT@ || i.opcode == bbf::op::INPUT@ {
        super::simp_semantics::lemma_opcodes();
        lemma_run_one(q[0], m, fuel);
        assert(q =~= seq![q[0]]);
    } else if i.opcode == bbf::op::MOVE@ {
        if a > 0 {
            lemma_repeat_move(a as nat, true, m, fuel);
        } else {
            lemma_repeat_move((-a) as nat, false, m, fuel);
        }
    } else {
        if a > 0 {
            lemma_repeat_incr(a as nat, m, fuel);
        } else {
            lemma_repeat_decr((-a) as nat, m, fuel);
        }
        assert(bbf::semantics::added(m, a as int) =~= super::simp_semantics::set(m, m.ptr, wrap(cell(m, m.ptr) + a)));
    }
}

} // verus!
