//! Laws of merging in Better Brainfuck: what it gives is merged all through,
//! merging that again changes nothing, and a merged program does what the program
//! did.
use vstd::prelude::*;

use super::bbf_opt::{
    all_instructions, flush, merge_step, merge_state, rewrite_block_spec, rewrite_instr_spec, rewrite_nested,
};
use super::laws::instrs_of;
use crate::better_brainfuck as bbf;
use crate::better_brainfuck::semantics::{added, run_instr, run_ops, run_program, shifted, with_cell, Machine};
use crate::ir::{as_operands, InstrModel, OperandModel, Outcome};

verus! {

// # Merging

/// Whether a block is merged for `opcode`: no two instructions of that opcode follow
/// each other, and each of them is a single amount other than zero.
pub open spec fn merged_block(opcode: Seq<char>, s: Seq<InstrModel>) -> bool {
    &&& forall|k: int| 0 <= k < s.len() - 1 ==> !(#[trigger] s[k].opcode == opcode && s[k + 1].opcode == opcode)
    &&& forall|k: int|
        0 <= k < s.len() && (#[trigger] s[k]).opcode == opcode ==> exists|a: i64|
            a != 0 && s[k] == bbf::syntax::amount_model(opcode, a)
}

/// What merging keeps between steps: the instructions kept so far are merged, and
/// the last of them is not of the merged opcode.
spec fn merge_invariant(opcode: Seq<char>, acc: Seq<InstrModel>) -> bool {
    &&& merged_block(opcode, acc)
    &&& acc.len() == 0 || acc.last().opcode != opcode
}

proof fn lemma_rewrite_keeps_opcode(opcode: Seq<char>, x: InstrModel)
    ensures
        rewrite_instr_spec(opcode, x) matches Outcome::Done(y) ==> y.opcode == x.opcode,
        rewrite_instr_spec(opcode, x) matches Outcome::Done(y) ==> (y.opcode == bbf::op::LOOP@
            ==> all_instructions(y.operands)),
{
}

/// Merging for the loop opcode never has an amount pending: a loop has no amount.
proof fn lemma_loop_opcode_pends_nothing(opcode: Seq<char>, ops: Seq<OperandModel>)
    requires
        opcode == bbf::op::LOOP@,
    ensures
        merge_state(opcode, ops) matches Outcome::Done((_, pending)) ==> pending is None,
    decreases ops.len(),
{
    if ops.len() > 0 {
        lemma_loop_opcode_pends_nothing(opcode, ops.drop_last());
        if let OperandModel::Instruction(x) = ops.last() {
            lemma_rewrite_keeps_opcode(opcode, x);
            if let Outcome::Done(y) = rewrite_instr_spec(opcode, x) {
                if y.opcode == opcode && y.operands.len() > 0 {
                    assert(y.operands[0] is Instruction);
                }
            }
        }
    }
}

proof fn lemma_merge_state_invariant(opcode: Seq<char>, ops: Seq<OperandModel>)
    ensures
        merge_state(opcode, ops) matches Outcome::Done((acc, _)) ==> merge_invariant(opcode, acc),
    decreases ops.len(),
{
    if ops.len() > 0 {
        lemma_merge_state_invariant(opcode, ops.drop_last());
        if let Outcome::Done((acc, pending)) = merge_state(opcode, ops.drop_last()) {
            if let OperandModel::Instruction(x) = ops.last() {
                lemma_rewrite_keeps_opcode(opcode, x);
                if let Outcome::Done(y) = rewrite_instr_spec(opcode, x) {
                    if y.opcode != opcode {
                        let f = flush(opcode, acc, pending);
                        lemma_flush_merged(opcode, acc, pending);
                        let acc2 = f.push(y);
                        assert forall|k: int| 0 <= k < acc2.len() - 1 implies !(#[trigger] acc2[k].opcode == opcode
                            && acc2[k + 1].opcode == opcode) by {
                            if k < f.len() - 1 {
                                assert(acc2[k] == f[k] && acc2[k + 1] == f[k + 1]);
                            }
                        }
                        assert forall|k: int|
                            0 <= k < acc2.len() && (#[trigger] acc2[k]).opcode == opcode implies exists|a: i64|
                                a != 0 && acc2[k] == bbf::syntax::amount_model(opcode, a) by {
                            assert(acc2[k] == f[k]);
                        }
                    }
                }
            }
        }
    }
}

proof fn lemma_flush_merged(opcode: Seq<char>, acc: Seq<InstrModel>, pending: Option<i64>)
    requires
        merge_invariant(opcode, acc),
    ensures
        merged_block(opcode, flush(opcode, acc, pending)),
{
    if let Some(a) = pending {
        if a != 0 {
            let f = acc.push(bbf::syntax::amount_model(opcode, a));
            assert forall|k: int| 0 <= k < f.len() - 1 implies !(#[trigger] f[k].opcode == opcode && f[k + 1].opcode
                == opcode) by {
                if k < acc.len() - 1 {
                    assert(f[k] == acc[k] && f[k + 1] == acc[k + 1]);
                } else {
                    assert(f[k] == acc.last());
                }
            }
            assert forall|k: int|
                0 <= k < f.len() && (#[trigger] f[k]).opcode == opcode implies exists|b: i64|
                    b != 0 && f[k] == bbf::syntax::amount_model(opcode, b) by {
                if k < acc.len() {
                    assert(f[k] == acc[k]);
                } else {
                    assert(f[k] == bbf::syntax::amount_model(opcode, a));
                }
            }
        }
    }
}

/// Law: a block that the optimization merges for `opcode` comes out merged: no two
/// instructions of that opcode follow each other, and none of them has an amount of
/// zero.
pub proof fn law_merge_leaves_merged_block(opcode: Seq<char>, s: Seq<InstrModel>)
    ensures
        rewrite_block_spec(opcode, s) matches Outcome::Done(out) ==> merged_block(opcode, out),
{
    lemma_merge_state_invariant(opcode, as_operands(s));
    if let Outcome::Done((acc, pending)) = merge_state(opcode, as_operands(s)) {
        lemma_flush_merged(opcode, acc, pending);
    }
}

// # Merging everywhere

/// Whether an instruction is merged for `opcode` all through: a loop holds only
/// instructions, which form a merged block; and every nested instruction is merged.
pub open spec fn merged_instr(opcode: Seq<char>, i: InstrModel) -> bool
    decreases i,
{
    if i.opcode == bbf::op::LOOP@ {
        &&& all_instructions(i.operands)
        &&& merged_block(opcode, instrs_of(i.operands))
        &&& merged_operands(opcode, i.operands)
    } else {
        merged_operands(opcode, i.operands)
    }
}

/// Whether every instruction among some operands is merged all through.
pub open spec fn merged_operands(opcode: Seq<char>, ops: Seq<OperandModel>) -> bool
    decreases ops,
{
    if ops.len() == 0 {
        true
    } else {
        &&& merged_operands(opcode, ops.drop_last())
        &&& (ops.last() matches OperandModel::Instruction(x) ==> merged_instr(opcode, x))
    }
}

/// Whether a block is merged for `opcode` all through.
pub open spec fn fully_merged(opcode: Seq<char>, s: Seq<InstrModel>) -> bool {
    merged_block(opcode, s) && merged_operands(opcode, as_operands(s))
}

/// Whether every instruction of a sequence is merged all through.
spec fn each_merged(opcode: Seq<char>, s: Seq<InstrModel>) -> bool {
    forall|k: int| 0 <= k < s.len() ==> merged_instr(opcode, #[trigger] s[k])
}

proof fn lemma_each_merged_operands(opcode: Seq<char>, s: Seq<InstrModel>)
    requires
        each_merged(opcode, s),
    ensures
        merged_operands(opcode, as_operands(s)),
    decreases s.len(),
{
    if s.len() > 0 {
        assert(as_operands(s).drop_last() =~= as_operands(s.drop_last()));
        assert(each_merged(opcode, s.drop_last())) by {
            assert forall|k: int| 0 <= k < s.drop_last().len() implies merged_instr(opcode, #[trigger] s.drop_last()[k]) by {
                assert(s.drop_last()[k] == s[k]);
            }
        }
        lemma_each_merged_operands(opcode, s.drop_last());
        assert(as_operands(s).last() == OperandModel::Instruction(s.last()));
        assert(merged_instr(opcode, s[s.len() - 1]));
    } else {
        assert(as_operands(s) =~= Seq::<OperandModel>::empty());
    }
}

proof fn lemma_amount_merged(opcode: Seq<char>, a: i64)
    requires
        opcode != bbf::op::LOOP@,
    ensures
        merged_instr(opcode, bbf::syntax::amount_model(opcode, a)),
{
    let i = bbf::syntax::amount_model(opcode, a);
    assert(i.operands.drop_last() =~= Seq::<OperandModel>::empty());
    assert(merged_operands(opcode, Seq::<OperandModel>::empty()));
}

proof fn lemma_flush_each_merged(opcode: Seq<char>, acc: Seq<InstrModel>, pending: Option<i64>)
    requires
        opcode != bbf::op::LOOP@ || pending is None,
        each_merged(opcode, acc),
    ensures
        each_merged(opcode, flush(opcode, acc, pending)),
{
    if let Some(a) = pending {
        if a != 0 {
            lemma_amount_merged(opcode, a);
            let f = acc.push(bbf::syntax::amount_model(opcode, a));
            assert forall|k: int| 0 <= k < f.len() implies merged_instr(opcode, #[trigger] f[k]) by {
                if k < acc.len() {
                    assert(f[k] == acc[k]);
                }
            }
        }
    }
}

/// What the optimization gives for one instruction is merged all through.
proof fn lemma_rewrite_merged(opcode: Seq<char>, i: InstrModel)
    ensures
        rewrite_instr_spec(opcode, i) matches Outcome::Done(y) ==> merged_instr(opcode, y),
    decreases i, 2nat,
{
    if i.opcode == bbf::op::LOOP@ {
        if all_instructions(i.operands) {
            lemma_merge_state_each_merged(opcode, i.operands);
            lemma_merge_state_invariant(opcode, i.operands);
            if let Outcome::Done((acc, pending)) = merge_state(opcode, i.operands) {
                let f = flush(opcode, acc, pending);
                if opcode == bbf::op::LOOP@ {
                    lemma_loop_opcode_pends_nothing(opcode, i.operands);
                }
                lemma_flush_each_merged(opcode, acc, pending);
                lemma_flush_merged(opcode, acc, pending);
                lemma_each_merged_operands(opcode, f);
                assert(instrs_of(as_operands(f)) =~= f);
            }
        }
    } else {
        lemma_nested_merged(opcode, i.operands);
    }
}

proof fn lemma_merge_state_each_merged(opcode: Seq<char>, ops: Seq<OperandModel>)
    ensures
        merge_state(opcode, ops) matches Outcome::Done((acc, _)) ==> each_merged(opcode, acc),
    decreases ops, 1nat,
{
    if ops.len() > 0 {
        lemma_merge_state_each_merged(opcode, ops.drop_last());
        if let Outcome::Done((acc, pending)) = merge_state(opcode, ops.drop_last()) {
            if let OperandModel::Instruction(x) = ops.last() {
                assert(decreases_to!(ops => ops[ops.len() - 1]));
                lemma_rewrite_merged(opcode, x);
                if let Outcome::Done(y) = rewrite_instr_spec(opcode, x) {
                    if y.opcode != opcode {
                        if opcode == bbf::op::LOOP@ {
                            lemma_loop_opcode_pends_nothing(opcode, ops.drop_last());
                        }
                        lemma_flush_each_merged(opcode, acc, pending);
                        let f = flush(opcode, acc, pending);
                        let acc2 = f.push(y);
                        assert forall|k: int| 0 <= k < acc2.len() implies merged_instr(opcode, #[trigger] acc2[k]) by {
                            if k < f.len() {
                                assert(acc2[k] == f[k]);
                            }
                        }
                    }
                }
            }
        }
    }
}

proof fn lemma_nested_merged(opcode: Seq<char>, ops: Seq<OperandModel>)
    ensures
        rewrite_nested(opcode, ops) matches Outcome::Done(r) ==> merged_operands(opcode, r),
    decreases ops, 1nat,
{
    if ops.len() > 0 {
        lemma_nested_merged(opcode, ops.drop_last());
        if let Outcome::Done(a) = rewrite_nested(opcode, ops.drop_last()) {
            if let OperandModel::Instruction(x) = ops.last() {
                assert(decreases_to!(ops => ops[ops.len() - 1]));
                lemma_rewrite_merged(opcode, x);
                if let Outcome::Done(y) = rewrite_instr_spec(opcode, x) {
                    assert(a.push(OperandModel::Instruction(y)).drop_last() =~= a);
                }
            } else {
                assert(a.push(ops.last()).drop_last() =~= a);
            }
        }
    } else {
        assert(merged_operands(opcode, Seq::<OperandModel>::empty()));
    }
}

/// Law: a block that the optimization merges for `opcode` comes out merged all
/// through: at its top, and in every loop and nested instruction.
pub proof fn law_merge_leaves_fully_merged(opcode: Seq<char>, s: Seq<InstrModel>)
    ensures
        rewrite_block_spec(opcode, s) matches Outcome::Done(out) ==> fully_merged(opcode, out),
{
    law_merge_leaves_merged_block(opcode, s);
    lemma_merge_state_each_merged(opcode, as_operands(s));
    if let Outcome::Done((acc, pending)) = merge_state(opcode, as_operands(s)) {
        if opcode == bbf::op::LOOP@ {
            lemma_loop_opcode_pends_nothing(opcode, as_operands(s));
        }
        lemma_flush_each_merged(opcode, acc, pending);
        lemma_each_merged_operands(opcode, flush(opcode, acc, pending));
    }
}

// # Merging what is merged

/// The state that merging has after a merged block: the block without its last
/// instruction and that instruction's amount pending, where it has the merged
/// opcode; else the block and nothing pending.
spec fn merge_split(opcode: Seq<char>, t: Seq<InstrModel>) -> (Seq<InstrModel>, Option<i64>) {
    if t.len() > 0 && t.last().opcode == opcode {
        (t.drop_last(), bbf::syntax::amount_of(t.last()))
    } else {
        (t, None)
    }
}

proof fn lemma_merged_operands_at(opcode: Seq<char>, ops: Seq<OperandModel>, j: int)
    requires
        merged_operands(opcode, ops),
        0 <= j < ops.len(),
    ensures
        ops[j] matches OperandModel::Instruction(x) ==> merged_instr(opcode, x),
    decreases ops.len(),
{
    if j < ops.len() - 1 {
        lemma_merged_operands_at(opcode, ops.drop_last(), j);
        assert(ops.drop_last()[j] == ops[j]);
    }
}

/// Flushing the state after a merged block gives the block back.
proof fn lemma_flush_split(opcode: Seq<char>, t: Seq<InstrModel>)
    requires
        merged_block(opcode, t),
    ensures
        flush(opcode, merge_split(opcode, t).0, merge_split(opcode, t).1) == t,
{
    if t.len() > 0 && t.last().opcode == opcode {
        let k = t.len() - 1;
        assert(t[k].opcode == opcode);
        let a = choose|a: i64| a != 0 && t[k] == bbf::syntax::amount_model(opcode, a);
        assert(t.drop_last().push(t.last()) =~= t);
    }
}

/// The optimization gives back an instruction that is merged all through.
proof fn lemma_rewrite_identity(opcode: Seq<char>, i: InstrModel)
    requires
        merged_instr(opcode, i),
    ensures
        rewrite_instr_spec(opcode, i) == Outcome::Done(i),
    decreases i, 0nat,
{
    if i.opcode == bbf::op::LOOP@ {
        let ops = i.operands;
        lemma_merge_prefix_identity(opcode, ops, ops.len());
        assert(ops.take(ops.len() as int) =~= ops);
        let t = instrs_of(ops);
        lemma_flush_split(opcode, t);
        assert(as_operands(t) =~= ops);
    } else {
        lemma_nested_identity(opcode, i.operands);
    }
}

proof fn lemma_nested_identity(opcode: Seq<char>, ops: Seq<OperandModel>)
    requires
        merged_operands(opcode, ops),
    ensures
        rewrite_nested(opcode, ops) == Outcome::Done(ops),
    decreases ops, 0nat,
{
    if ops.len() > 0 {
        lemma_nested_identity(opcode, ops.drop_last());
        if let OperandModel::Instruction(x) = ops.last() {
            assert(decreases_to!(ops => ops[ops.len() - 1]));
            lemma_rewrite_identity(opcode, x);
        }
        assert(ops.drop_last().push(ops.last()) =~= ops);
    } else {
        assert(ops =~= Seq::<OperandModel>::empty());
    }
}

/// Merging the first `k` operands of a loop that is merged all through gives the
/// state after them.
proof fn lemma_merge_prefix_identity(opcode: Seq<char>, ops: Seq<OperandModel>, k: nat)
    requires
        all_instructions(ops),
        merged_block(opcode, instrs_of(ops)),
        merged_operands(opcode, ops),
        k <= ops.len(),
    ensures
        merge_state(opcode, ops.take(k as int)) == Outcome::Done(merge_split(opcode, instrs_of(ops.take(k as int)))),
    decreases ops, k,
{
    let all = instrs_of(ops);
    if k == 0 {
        assert(ops.take(0) =~= Seq::<OperandModel>::empty());
        assert(instrs_of(ops.take(0)) =~= Seq::<InstrModel>::empty());
    } else {
        let j = k - 1;
        lemma_merge_prefix_identity(opcode, ops, j as nat);
        let p = ops.take(k as int);
        assert(p.drop_last() =~= ops.take(j));
        assert(ops[j] is Instruction);
        let x = ops[j]->Instruction_0;
        assert(p.last() == OperandModel::Instruction(x));
        assert(decreases_to!(ops => ops[j]));
        lemma_merged_operands_at(opcode, ops, j);
        lemma_rewrite_identity(opcode, x);
        let t = instrs_of(ops.take(j));
        assert(t =~= all.take(j));
        assert(instrs_of(p) =~= t.push(x));
        assert(all[j] == x);
        if x.opcode == opcode {
            assert(all[j].opcode == opcode);
            let a = choose|a: i64| a != 0 && all[j] == bbf::syntax::amount_model(opcode, a);
            if j > 0 {
                assert(all[j - 1] == t.last());
                assert(!(all[j - 1].opcode == opcode && all[j].opcode == opcode));
            }
            assert(t.push(x).drop_last() =~= t);
        } else {
            assert(merged_block(opcode, t)) by {
                assert forall|m: int| 0 <= m < t.len() - 1 implies !(#[trigger] t[m].opcode == opcode
                    && t[m + 1].opcode == opcode) by {
                    assert(t[m] == all[m] && t[m + 1] == all[m + 1]);
                }
                assert forall|m: int|
                    0 <= m < t.len() && (#[trigger] t[m]).opcode == opcode implies exists|b: i64|
                        b != 0 && t[m] == bbf::syntax::amount_model(opcode, b) by {
                    assert(t[m] == all[m]);
                }
            }
            lemma_flush_split(opcode, t);
        }
    }
}

/// Law: merging again, for the same opcode, a block that merging gave gives it back
/// unchanged.
pub proof fn law_merge_is_idempotent(opcode: Seq<char>, s: Seq<InstrModel>)
    ensures
        rewrite_block_spec(opcode, s) matches Outcome::Done(out) ==> rewrite_block_spec(opcode, out)
            == Outcome::Done(out),
{
    law_merge_leaves_fully_merged(opcode, s);
    if let Outcome::Done(out) = rewrite_block_spec(opcode, s) {
        let ops = as_operands(out);
        assert(instrs_of(ops) =~= out);
        assert(all_instructions(ops));
        lemma_merge_prefix_identity(opcode, ops, ops.len());
        assert(ops.take(ops.len() as int) =~= ops);
        lemma_flush_split(opcode, out);
    }
}

// # What merged code does

/// A pending amount of a move or an addition, applied to a machine.
spec fn apply_pending(opcode: Seq<char>, m: Machine, pending: Option<i64>) -> Machine {
    match pending {
        None => m,
        Some(a) => if opcode == bbf::op::MOVE@ {
            shifted(m, a as int)
        } else {
            added(m, a as int)
        },
    }
}

proof fn lemma_run_push(s: Seq<InstrModel>, z: InstrModel, m: Machine, f: nat)
    ensures
        run_ops(as_operands(s.push(z)), m, f) == match run_ops(as_operands(s), m, f) {
            None => None,
            Some(m1) => run_instr(z, m1, f),
        },
{
    assert(as_operands(s.push(z)).drop_last() =~= as_operands(s));
    assert(as_operands(s.push(z)).last() == OperandModel::Instruction(z));
}

proof fn lemma_amount_run(opcode: Seq<char>, a: i64, m: Machine, f: nat)
    requires
        opcode == bbf::op::MOVE@ || opcode == bbf::op::ADD@,
    ensures
        run_instr(bbf::syntax::amount_model(opcode, a), m, f) == Some(apply_pending(opcode, m, Some(a))),
{
    bbf::syntax::lemma_opcodes();
}

proof fn lemma_apply_compose(opcode: Seq<char>, m: Machine, a: i64, b: i64)
    requires
        i64::MIN <= a + b <= i64::MAX,
    ensures
        apply_pending(opcode, apply_pending(opcode, m, Some(a)), Some(b)) == apply_pending(
            opcode,
            m,
            Some((a + b) as i64),
        ),
{
    if opcode != bbf::op::MOVE@ {
        let c = (m.tape)(m.ptr) as int;
        vstd::arithmetic::div_mod::lemma_add_mod_noop_right(b as int, c + a, 256);
        let m1 = added(m, a as int);
        let m2 = added(m1, b as int);
        let m3 = added(m, (a + b) as int);
        assert(((c + a) % 256 + b) % 256 == (c + a + b) % 256);
        assert(m2.tape =~= m3.tape);
        assert(m2 =~= m3);
    } else {
        assert(shifted(shifted(m, a as int), b as int) =~= shifted(m, (a + b) as int));
    }
}

proof fn lemma_apply_zero(opcode: Seq<char>, m: Machine)
    ensures
        apply_pending(opcode, m, Some(0)) == m,
{
    if opcode != bbf::op::MOVE@ {
        let v = (m.tape)(m.ptr);
        assert((v as int + 0) % 256 == v as int);
        assert(added(m, 0).tape =~= m.tape);
        assert(added(m, 0) =~= m);
    } else {
        assert(shifted(m, 0) =~= m);
    }
}

/// Flushing a pending amount does to a machine what applying it does.
proof fn lemma_flush_run(opcode: Seq<char>, acc: Seq<InstrModel>, pending: Option<i64>, m: Machine, f: nat)
    requires
        opcode == bbf::op::MOVE@ || opcode == bbf::op::ADD@,
    ensures
        run_ops(as_operands(acc), m, f) matches Some(m1) ==> run_ops(
            as_operands(flush(opcode, acc, pending)),
            m,
            f,
        ) == Some(apply_pending(opcode, m1, pending)),
{
    if let Some(m1) = run_ops(as_operands(acc), m, f) {
        if let Some(a) = pending {
            if a != 0 {
                let z = bbf::syntax::amount_model(opcode, a);
                lemma_run_push(acc, z, m, f);
                lemma_amount_run(opcode, a, m1, f);
            } else {
                lemma_apply_zero(opcode, m1);
            }
        }
    }
}

/// The operands that rewriting an instruction other than a loop gives: as many, with
/// the same values, and instructions where there were instructions.
proof fn lemma_nested_shape(opcode: Seq<char>, ops: Seq<OperandModel>)
    ensures
        rewrite_nested(opcode, ops) matches Outcome::Done(r) ==> {
            &&& r.len() == ops.len()
            &&& forall|k: int| 0 <= k < ops.len() ==> (#[trigger] ops[k] is Value ==> r[k] == ops[k])
            &&& forall|k: int| 0 <= k < ops.len() ==> (#[trigger] ops[k] is Instruction ==> r[k] is Instruction)
        },
    decreases ops.len(),
{
    if ops.len() > 0 {
        lemma_nested_shape(opcode, ops.drop_last());
        if let Outcome::Done(r) = rewrite_nested(opcode, ops) {
            let a = rewrite_nested(opcode, ops.drop_last())->Done_0;
            assert forall|k: int| 0 <= k < ops.len() - 1 implies ops[k] == ops.drop_last()[k] by {}
            assert forall|k: int| 0 <= k < ops.len() - 1 implies r[k] == a[k] by {}
        }
    }
}

/// Rewriting an instruction keeps what it does.
proof fn lemma_rewrite_runs(opcode: Seq<char>, x: InstrModel, m: Machine, f: nat)
    requires
        opcode == bbf::op::MOVE@ || opcode == bbf::op::ADD@,
    ensures
        rewrite_instr_spec(opcode, x) matches Outcome::Done(y) ==> (run_instr(x, m, f) matches Some(m2)
            ==> run_instr(y, m, f) == Some(m2)),
    decreases f, x,
{
    bbf::syntax::lemma_opcodes();
    if let Outcome::Done(y) = rewrite_instr_spec(opcode, x) {
        if let Some(m2) = run_instr(x, m, f) {
            if x.opcode == bbf::op::LOOP@ {
                if (m.tape)(m.ptr) != 0 {
                    let ma = run_ops(x.operands, m, f)->0;
                    lemma_merge_runs(opcode, x.operands, m, f);
                    let (acc, pending) = merge_state(opcode, x.operands)->Done_0;
                    lemma_flush_run(opcode, acc, pending, m, f);
                    lemma_rewrite_runs(opcode, x, ma, (f - 1) as nat);
                }
            } else {
                lemma_nested_shape(opcode, x.operands);
                assert(bbf::syntax::amount_of(y) == bbf::syntax::amount_of(x));
            }
        }
    }
}

/// Merging a prefix of operands leaves instructions and a pending amount that
/// together do what the operands did.
proof fn lemma_merge_runs(opcode: Seq<char>, ops: Seq<OperandModel>, m: Machine, f: nat)
    requires
        opcode == bbf::op::MOVE@ || opcode == bbf::op::ADD@,
    ensures
        merge_state(opcode, ops) matches Outcome::Done((acc, pending)) ==> (run_ops(ops, m, f) matches Some(
            m2,
        ) ==> (run_ops(as_operands(acc), m, f) matches Some(m1) && apply_pending(opcode, m1, pending)
            == m2)),
    decreases f, ops,
{
    if ops.len() == 0 {
        assert(as_operands(Seq::<InstrModel>::empty()) =~= Seq::<OperandModel>::empty());
    } else if let Outcome::Done((acc, pending)) = merge_state(opcode, ops) {
        if let Some(m2) = run_ops(ops, m, f) {
            let ops0 = ops.drop_last();
            lemma_merge_runs(opcode, ops0, m, f);
            let (acc0, p0) = merge_state(opcode, ops0)->Done_0;
            let mid = run_ops(ops0, m, f)->0;
            let m1 = run_ops(as_operands(acc0), m, f)->0;
            let x = ops.last()->Instruction_0;
            assert(decreases_to!(ops => ops[ops.len() - 1]));
            lemma_rewrite_runs(opcode, x, mid, f);
            let y = rewrite_instr_spec(opcode, x)->Done_0;
            lemma_rewrite_keeps_opcode(opcode, x);
            bbf::syntax::lemma_opcodes();
            if y.opcode == opcode {
                let v = y.operands[0]->Value_0->BetterBrainfuck_0;
                assert(run_instr(y, mid, f) == Some(apply_pending(opcode, mid, Some(v))));
                if let Some(c) = p0 {
                    lemma_apply_compose(opcode, m1, c, v);
                }
            } else {
                lemma_flush_run(opcode, acc0, p0, m, f);
                lemma_run_push(flush(opcode, acc0, p0), y, m, f);
            }
        }
    }
}

/// Law: merging consecutive moves, or consecutive additions, keeps what a program
/// does: where the program runs to an end within some fuel, the merged program runs
/// to the same machine, output and input included, within the same fuel.
pub proof fn law_merge_keeps_behaviour(opcode: Seq<char>, s: Seq<InstrModel>, m: Machine, fuel: nat)
    requires
        opcode == bbf::op::MOVE@ || opcode == bbf::op::ADD@,
    ensures
        rewrite_block_spec(opcode, s) matches Outcome::Done(out) ==> (run_program(s, m, fuel) matches Some(
            m2,
        ) ==> run_program(out, m, fuel) == Some(m2)),
{
    lemma_merge_runs(opcode, as_operands(s), m, fuel);
    if let Outcome::Done((acc, pending)) = merge_state(opcode, as_operands(s)) {
        lemma_flush_run(opcode, acc, pending, m, fuel);
    }
}

} // verus!
