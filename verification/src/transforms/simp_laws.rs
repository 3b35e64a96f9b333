//! Laws of the Simp compiler: the Brainfuck it gives is well formed, and the code of
//! every statement, and the body of every loop, leaves the data pointer where it
//! found it.
use vstd::prelude::*;

use super::bbf_to_bf::{bbf_to_bf_program, repeat_instr};
use super::bf_to_bbf::bf_to_bbf_program;
use super::laws::law_bf_bbf_roundtrip;
use super::simp_to_bf::{
    cat, clear_cell_code, compile, compile_arith, compile_assign, compile_body, compile_constant,
    compile_loop, compile_module, compile_print, compile_variable, copy_cell_code, instr_operand,
    loop_over, move_between, moves, one, push_temp_spec, SimpState,
};
use crate::brainfuck as bf;
use crate::brainfuck::syntax::{leaf_model, loop_model, wf_instr, wf_operands, wf_program};
use crate::ir::{as_operands, InstrModel, ModuleModel, OperandModel, Outcome};
use crate::simp;

verus! {

// # The Brainfuck of the Simp compiler

/// Whether a piece of code, where there is one, is well-formed Brainfuck.
pub open spec fn wf_code(c: Option<Seq<InstrModel>>) -> bool {
    c matches Some(s) ==> wf_program(s)
}

proof fn lemma_wf_concat(a: Seq<InstrModel>, b: Seq<InstrModel>)
    requires
        wf_program(a),
        wf_program(b),
    ensures
        wf_program(a + b),
    decreases b.len(),
{
    if b.len() == 0 {
        assert(a + b =~= a);
    } else {
        assert(as_operands(b).drop_last() =~= as_operands(b.drop_last()));
        lemma_wf_concat(a, b.drop_last());
        assert(as_operands(a + b).drop_last() =~= as_operands(a + b.drop_last()));
        assert(as_operands(a + b).last() == as_operands(b).last());
    }
}

proof fn lemma_wf_repeat(i: InstrModel, n: nat)
    requires
        wf_instr(i),
    ensures
        wf_program(repeat_instr(i, n)),
    decreases n,
{
    if n > 0 {
        lemma_wf_repeat(i, (n - 1) as nat);
        assert(as_operands(repeat_instr(i, n)).drop_last() =~= as_operands(repeat_instr(i, (n - 1) as nat)));
    } else {
        assert(as_operands(repeat_instr(i, n)) =~= Seq::<OperandModel>::empty());
    }
}

proof fn lemma_wf_one(i: InstrModel)
    requires
        wf_instr(i),
    ensures
        wf_program(seq![i]),
{
    assert(as_operands(seq![i]).drop_last() =~= Seq::<OperandModel>::empty());
    assert(as_operands(seq![i]).last() == OperandModel::Instruction(i));
    assert(wf_operands(Seq::<OperandModel>::empty()));
}

proof fn lemma_wf_cat(a: Option<Seq<InstrModel>>, b: Option<Seq<InstrModel>>)
    requires
        wf_code(a),
        wf_code(b),
    ensures
        wf_code(cat(a, b)),
{
    if let (Some(x), Some(y)) = (a, b) {
        lemma_wf_concat(x, y);
    }
}

proof fn lemma_wf_move_between(from: i32, to: i32)
    ensures
        wf_code(move_between(from, to)),
{
    bf::parser::lemma_opcodes();
    if i32::MIN <= to - from <= i32::MAX {
        let x = (to - from) as i32;
        if x > 0 {
            lemma_wf_repeat(leaf_model(bf::op::PTR_RIGHT@), x as nat);
        } else if x != i32::MIN {
            lemma_wf_repeat(leaf_model(bf::op::PTR_LEFT@), (-x) as nat);
        }
    }
}

proof fn lemma_wf_loop_over(b: Option<Seq<InstrModel>>)
    requires
        wf_code(b),
    ensures
        wf_code(loop_over(b)),
{
    if let Some(x) = b {
        lemma_wf_one(loop_model(x));
    }
}

proof fn lemma_wf_commands()
    ensures
        wf_code(one(leaf_model(bf::op::INCR@))),
        wf_code(one(leaf_model(bf::op::DECR@))),
        wf_code(one(leaf_model(bf::op::OUTPUT@))),
{
    bf::parser::lemma_opcodes();
    lemma_wf_one(leaf_model(bf::op::INCR@));
    lemma_wf_one(leaf_model(bf::op::DECR@));
    lemma_wf_one(leaf_model(bf::op::OUTPUT@));
}

proof fn lemma_wf_clear(center: i32, cell: i32)
    ensures
        wf_code(clear_cell_code(center, cell)),
{
    lemma_wf_commands();
    lemma_wf_move_between(center, cell);
    lemma_wf_move_between(cell, center);
    lemma_wf_loop_over(one(leaf_model(bf::op::DECR@)));
    lemma_wf_cat(move_between(center, cell), loop_over(one(leaf_model(bf::op::DECR@))));
    lemma_wf_cat(
        cat(move_between(center, cell), loop_over(one(leaf_model(bf::op::DECR@)))),
        move_between(cell, center),
    );
}

proof fn lemma_wf_copy(center: i32, from: i32, temp: i32, to: i32)
    ensures
        wf_code(copy_cell_code(center, from, temp, to)),
{
    lemma_wf_commands();
    let incr = one(leaf_model(bf::op::INCR@));
    let decr = one(leaf_model(bf::op::DECR@));
    lemma_wf_move_between(from, to);
    lemma_wf_move_between(to, temp);
    lemma_wf_move_between(temp, from);
    lemma_wf_move_between(from, temp);
    lemma_wf_move_between(center, from);
    lemma_wf_move_between(temp, center);
    let f1 = cat(move_between(from, to), incr);
    lemma_wf_cat(move_between(from, to), incr);
    let f2 = cat(f1, move_between(to, temp));
    lemma_wf_cat(f1, move_between(to, temp));
    let f3 = cat(f2, incr);
    lemma_wf_cat(f2, incr);
    let f4 = cat(f3, move_between(temp, from));
    lemma_wf_cat(f3, move_between(temp, from));
    let first = cat(f4, decr);
    lemma_wf_cat(f4, decr);
    let s1 = cat(move_between(temp, from), incr);
    lemma_wf_cat(move_between(temp, from), incr);
    let s2 = cat(s1, move_between(from, temp));
    lemma_wf_cat(s1, move_between(from, temp));
    let second = cat(s2, decr);
    lemma_wf_cat(s2, decr);
    lemma_wf_loop_over(first);
    lemma_wf_loop_over(second);
    let o1 = cat(move_between(center, from), loop_over(first));
    lemma_wf_cat(move_between(center, from), loop_over(first));
    let o2 = cat(o1, move_between(from, temp));
    lemma_wf_cat(o1, move_between(from, temp));
    let o3 = cat(o2, loop_over(second));
    lemma_wf_cat(o2, loop_over(second));
    lemma_wf_cat(o3, move_between(temp, center));
}

proof fn lemma_wf_int(center: i32, value: i64, target: i32)
    ensures
        wf_code(super::simp_to_bf::int_value_code(center, value, target)),
{
    bf::parser::lemma_opcodes();
    let n: nat = if value > 0 {
        value as nat
    } else {
        0
    };
    lemma_wf_repeat(leaf_model(bf::op::INCR@), n);
    lemma_wf_move_between(center, target);
    lemma_wf_move_between(target, center);
    let ups = Some(repeat_instr(leaf_model(bf::op::INCR@), n));
    lemma_wf_cat(move_between(center, target), ups);
    lemma_wf_cat(cat(move_between(center, target), ups), move_between(target, center));
}

proof fn lemma_wf_add_cells(center: i32, first: i32, second: i32, temp: i32, target: i32)
    ensures
        wf_code(super::simp_to_bf::add_cells_code(center, first, second, temp, target)),
{
    lemma_wf_copy(center, first, temp, target);
    lemma_wf_copy(center, second, temp, target);
    lemma_wf_cat(copy_cell_code(center, first, temp, target), copy_cell_code(center, second, temp, target));
}

proof fn lemma_wf_subtract(center: i32, first: i32, second: i32, temp: i32, target: i32)
    ensures
        wf_code(super::simp_to_bf::subtract_code(center, first, second, temp, target)),
{
    lemma_wf_commands();
    let decr = one(leaf_model(bf::op::DECR@));
    lemma_wf_move_between(first, target);
    lemma_wf_move_between(target, first);
    lemma_wf_move_between(center, first);
    lemma_wf_move_between(first, center);
    let b1 = cat(move_between(first, target), decr);
    lemma_wf_cat(move_between(first, target), decr);
    let b2 = cat(b1, move_between(target, first));
    lemma_wf_cat(b1, move_between(target, first));
    let body = cat(b2, decr);
    lemma_wf_cat(b2, decr);
    lemma_wf_loop_over(body);
    lemma_wf_clear(center, target);
    lemma_wf_copy(center, second, temp, target);
    let c1 = cat(clear_cell_code(center, target), copy_cell_code(center, second, temp, target));
    lemma_wf_cat(clear_cell_code(center, target), copy_cell_code(center, second, temp, target));
    let c2 = cat(c1, move_between(center, first));
    lemma_wf_cat(c1, move_between(center, first));
    let c3 = cat(c2, loop_over(body));
    lemma_wf_cat(c2, loop_over(body));
    lemma_wf_cat(c3, move_between(first, center));
}

/// Law: the code that the Simp compiler gives for a statement is well-formed
/// Brainfuck.
pub proof fn law_compiled_statement_is_wf(st: SimpState, i: InstrModel, target: i32)
    ensures
        compile(st, i, target) matches Some((_, c)) ==> wf_program(c),
    decreases i, 1nat,
{
    if i.opcode == simp::op::ASSIGN@ {
        lemma_assign_wf(st, i, target);
    } else if i.opcode == simp::op::CONSTANT@ {
        lemma_constant_wf(st, i, target);
    } else if i.opcode == simp::op::VARIABLE@ {
        lemma_variable_wf(st, i, target);
    } else if i.opcode == simp::op::ADD@ || i.opcode == simp::op::SUB@ {
        lemma_arith_wf(st, i, target, true);
        lemma_arith_wf(st, i, target, false);
    } else if i.opcode == simp::op::PRINT@ {
        lemma_print_wf(st, i, target);
    } else if i.opcode == simp::op::LOOP@ {
        lemma_loop_wf(st, i, target);
    } else if i.opcode == simp::op::BODY@ {
        lemma_body_wf(st, i.operands, target);
    }
}

proof fn lemma_constant_wf(st: SimpState, i: InstrModel, target: i32)
    ensures
        compile_constant(st, i, target) matches Some((_, c)) ==> wf_program(c),
{
    if let Some(crate::ir::ValueModel::SimpInt(n)) = super::simp_to_bf::value_operand(i.operands, 0) {
        if let Some((st1, t)) = push_temp_spec(st) {
            lemma_wf_clear(st.center, t);
            lemma_wf_int(st.center, n, target);
            lemma_wf_cat(clear_cell_code(st.center, t), super::simp_to_bf::int_value_code(st.center, n, target));
        }
    }
}

proof fn lemma_variable_wf(st: SimpState, i: InstrModel, target: i32)
    ensures
        compile_variable(st, i, target) matches Some((_, c)) ==> wf_program(c),
{
    if let Some(v) = super::simp_to_bf::value_operand(i.operands, 0) {
        if let Some((st1, t)) = push_temp_spec(st) {
            if let Some(var) = super::simp_to_bf::get_var_spec(st1, crate::ir::value_text(v)) {
                lemma_wf_clear(st.center, t);
                lemma_wf_copy(st.center, var, t, target);
                lemma_wf_cat(clear_cell_code(st.center, t), copy_cell_code(st.center, var, t, target));
            }
        }
    }
}

proof fn lemma_print_wf(st: SimpState, i: InstrModel, target: i32)
    ensures
        compile_print(st, i, target) matches Some((_, c)) ==> wf_program(c),
    decreases i, 0nat,
{
    if let Some(value) = instr_operand(i.operands, 0) {
        if let Some((st1, t)) = push_temp_spec(st) {
            law_compiled_statement_is_wf(st1, value, t);
            if let Some((st2, c)) = compile(st1, value, t) {
                lemma_wf_commands();
                lemma_wf_clear(st.center, t);
                lemma_wf_move_between(st.center, t);
                lemma_wf_move_between(t, st.center);
                let p1 = cat(clear_cell_code(st.center, t), Some(c));
                lemma_wf_cat(clear_cell_code(st.center, t), Some(c));
                let p2 = cat(p1, move_between(st.center, t));
                lemma_wf_cat(p1, move_between(st.center, t));
                let p3 = cat(p2, one(leaf_model(bf::op::OUTPUT@)));
                lemma_wf_cat(p2, one(leaf_model(bf::op::OUTPUT@)));
                lemma_wf_cat(p3, move_between(t, st.center));
            }
        }
    }
}

proof fn lemma_assign_wf(st: SimpState, i: InstrModel, target: i32)
    ensures
        compile_assign(st, i, target) matches Some((_, c)) ==> wf_program(c),
    decreases i, 0nat,
{
    if let Some(v) = super::simp_to_bf::value_operand(i.operands, 0) {
        if let Some((st1, t1)) = push_temp_spec(st) {
            if let Some((st2, t2)) = push_temp_spec(st1) {
                if let Some((st3, var)) = super::simp_to_bf::push_or_get_var_spec(st2, crate::ir::value_text(v)) {
                    if let Some(value) = instr_operand(i.operands, 1) {
                        law_compiled_statement_is_wf(st3, value, t1);
                        if let Some((st4, code)) = compile(st3, value, t1) {
                            lemma_wf_clear(st.center, t1);
                            lemma_wf_clear(st.center, t2);
                            lemma_wf_clear(st.center, var);
                            lemma_wf_copy(st.center, t1, t2, var);
                            let a1 = cat(clear_cell_code(st.center, t1), clear_cell_code(st.center, t2));
                            lemma_wf_cat(clear_cell_code(st.center, t1), clear_cell_code(st.center, t2));
                            let a2 = cat(a1, Some(code));
                            lemma_wf_cat(a1, Some(code));
                            let a3 = cat(a2, clear_cell_code(st.center, var));
                            lemma_wf_cat(a2, clear_cell_code(st.center, var));
                            lemma_wf_cat(a3, copy_cell_code(st.center, t1, t2, var));
                        }
                    }
                }
            }
        }
    }
}

proof fn lemma_arith_wf(st: SimpState, i: InstrModel, target: i32, is_add: bool)
    ensures
        compile_arith(st, i, target, is_add) matches Some((_, c)) ==> wf_program(c),
    decreases i, 0nat,
{
    if let (Some(first), Some(second)) = (instr_operand(i.operands, 0), instr_operand(i.operands, 1)) {
        if let Some((st1, t1)) = push_temp_spec(st) {
            law_compiled_statement_is_wf(st1, first, t1);
            if let Some((st2, c1)) = compile(st1, first, t1) {
                if let Some((st3, t2)) = push_temp_spec(st2) {
                    law_compiled_statement_is_wf(st3, second, t2);
                    if let Some((st4, c2)) = compile(st3, second, t2) {
                        if let Some((st5, t3)) = push_temp_spec(st4) {
                            let combine = if is_add {
                                super::simp_to_bf::add_cells_code(st.center, t1, t2, t3, target)
                            } else {
                                super::simp_to_bf::subtract_code(st.center, t2, t1, t3, target)
                            };
                            lemma_wf_add_cells(st.center, t1, t2, t3, target);
                            lemma_wf_subtract(st.center, t2, t1, t3, target);
                            lemma_wf_clear(st.center, t1);
                            lemma_wf_clear(st.center, t2);
                            lemma_wf_clear(st.center, t3);
                            let a1 = cat(clear_cell_code(st.center, t1), Some(c1));
                            lemma_wf_cat(clear_cell_code(st.center, t1), Some(c1));
                            let a2 = cat(a1, clear_cell_code(st.center, t2));
                            lemma_wf_cat(a1, clear_cell_code(st.center, t2));
                            let a3 = cat(a2, Some(c2));
                            lemma_wf_cat(a2, Some(c2));
                            let a4 = cat(a3, clear_cell_code(st.center, t3));
                            lemma_wf_cat(a3, clear_cell_code(st.center, t3));
                            lemma_wf_cat(a4, combine);
                        }
                    }
                }
            }
        }
    }
}

proof fn lemma_loop_wf(st: SimpState, i: InstrModel, target: i32)
    ensures
        compile_loop(st, i, target) matches Some((_, c)) ==> wf_program(c),
    decreases i, 0nat,
{
    if let (Some(count), Some(body)) = (instr_operand(i.operands, 0), instr_operand(i.operands, 1)) {
        if let Some((st1, t1)) = push_temp_spec(st) {
            if let Some((st2, t2)) = push_temp_spec(st1) {
                law_compiled_statement_is_wf(st2, count, t1);
                if let Some((st3, c)) = compile(st2, count, t1) {
                    law_compiled_statement_is_wf(st3, body, t2);
                    if let Some((st4, b)) = compile(st3, body, t2) {
                        lemma_wf_commands();
                        lemma_wf_move_between(st.center, t1);
                        lemma_wf_move_between(t1, st.center);
                        let l1 = cat(Some(b), move_between(st.center, t1));
                        lemma_wf_cat(Some(b), move_between(st.center, t1));
                        let l2 = cat(l1, one(leaf_model(bf::op::DECR@)));
                        lemma_wf_cat(l1, one(leaf_model(bf::op::DECR@)));
                        let lb = cat(l2, move_between(t1, st.center));
                        lemma_wf_cat(l2, move_between(t1, st.center));
                        if let Some(loop_body) = lb {
                            lemma_wf_one(loop_model(loop_body));
                            lemma_wf_clear(st.center, t1);
                            lemma_wf_clear(st.center, t2);
                            let h1 = cat(clear_cell_code(st.center, t1), clear_cell_code(st.center, t2));
                            lemma_wf_cat(clear_cell_code(st.center, t1), clear_cell_code(st.center, t2));
                            let h2 = cat(h1, Some(c));
                            lemma_wf_cat(h1, Some(c));
                            lemma_wf_cat(h2, one(loop_model(loop_body)));
                        }
                    }
                }
            }
        }
    }
}

proof fn lemma_body_wf(st: SimpState, ops: Seq<OperandModel>, target: i32)
    ensures
        compile_body(st, ops, target) matches Some((_, c)) ==> wf_program(c),
    decreases ops,
{
    if ops.len() > 0 {
        lemma_body_wf(st, ops.drop_last(), target);
        if let Some((st1, a)) = compile_body(st, ops.drop_last(), target) {
            if let OperandModel::Instruction(x) = ops.last() {
                law_compiled_statement_is_wf(st1, x, target);
                if let Some((st2, b)) = compile(st1, x, target) {
                    lemma_wf_concat(a, b);
                }
            }
        }
    } else {
        assert(wf_operands(as_operands(Seq::<InstrModel>::empty())));
    }
}

/// Law: the Brainfuck module that the Simp compiler gives is well formed, so that its
/// translation to Better Brainfuck succeeds and translating that back gives it again.
pub proof fn law_compiled_module_translates(st: SimpState, m: ModuleModel)
    ensures
        compile_module(st, m) matches Some((_, out)) ==> {
            &&& wf_program(out.instructions)
            &&& bf_to_bbf_program(out.instructions) matches Some(q)
            &&& bbf_to_bf_program(q) == Outcome::Done(out.instructions)
        },
{
    if let Some((_, out)) = compile_module(st, m) {
        let names = super::simp_to_bf::assigned_names(m.instructions)->0;
        let center = (names.len() as usize) as i32;
        let st1 = SimpState { center, temp: center, vars: st.vars };
        lemma_body_wf(st1, as_operands(m.instructions), 0);
        bf::parser::lemma_opcodes();
        if center > 0 {
            lemma_wf_repeat(leaf_model(bf::op::PTR_RIGHT@), center as nat);
        } else {
            lemma_wf_repeat(leaf_model(bf::op::PTR_LEFT@), (-center) as nat);
        }
        let pre = moves(center)->0;
        let code = (compile_body(st1, as_operands(m.instructions), 0)->0).1;
        lemma_wf_concat(pre, code);
        law_bf_bbf_roundtrip(out.instructions);
    }
}

// # Where the data pointer goes

/// How far an instruction moves the data pointer by itself (a loop moves it by
/// nothing when its body leaves it in place).
pub open spec fn step_shift(i: InstrModel) -> int {
    if i.opcode == bf::op::PTR_RIGHT@ {
        1
    } else if i.opcode == bf::op::PTR_LEFT@ {
        -1
    } else {
        0
    }
}

/// How far some operands move the data pointer, one after the other.
pub open spec fn ops_shift(ops: Seq<OperandModel>) -> int
    decreases ops,
{
    if ops.len() == 0 {
        0
    } else {
        ops_shift(ops.drop_last()) + match ops.last() {
            OperandModel::Instruction(i) => step_shift(i),
            OperandModel::Value(_) => 0,
        }
    }
}

/// Whether every loop among some operands, nested or not, has a body that leaves the
/// data pointer where it found it.
pub open spec fn ops_loops_in_place(ops: Seq<OperandModel>) -> bool
    decreases ops,
{
    if ops.len() == 0 {
        true
    } else {
        &&& ops_loops_in_place(ops.drop_last())
        &&& (ops.last() matches OperandModel::Instruction(i) ==> instr_in_place(i))
    }
}

/// Whether an instruction that is a loop has a body that leaves the data pointer in
/// place, and so do the loops nested in it.
pub open spec fn instr_in_place(i: InstrModel) -> bool
    decreases i,
{
    i.opcode == bf::op::LOOP@ ==> ops_shift(i.operands) == 0 && ops_loops_in_place(i.operands)
}

/// Whether a piece of code, where there is one, moves the data pointer by `d`, and
/// every loop in it leaves the pointer in place.
pub open spec fn shifts_by(c: Option<Seq<InstrModel>>, d: int) -> bool {
    c matches Some(s) ==> ops_shift(as_operands(s)) == d && ops_loops_in_place(as_operands(s))
}

/// Whether a sequence of instructions leaves the data pointer where it found it, and
/// so does every loop in it.
pub open spec fn keeps_pointer(s: Seq<InstrModel>) -> bool {
    shifts_by(Some(s), 0)
}

proof fn lemma_shift_concat(a: Seq<InstrModel>, b: Seq<InstrModel>)
    ensures
        ops_shift(as_operands(a + b)) == ops_shift(as_operands(a)) + ops_shift(as_operands(b)),
        ops_loops_in_place(as_operands(a + b)) == (ops_loops_in_place(as_operands(a))
            && ops_loops_in_place(as_operands(b))),
    decreases b.len(),
{
    if b.len() == 0 {
        assert(a + b =~= a);
        assert(as_operands(b) =~= Seq::<OperandModel>::empty());
    } else {
        assert(as_operands(b).drop_last() =~= as_operands(b.drop_last()));
        lemma_shift_concat(a, b.drop_last());
        assert(as_operands(a + b).drop_last() =~= as_operands(a + b.drop_last()));
        assert(as_operands(a + b).last() == as_operands(b).last());
    }
}

proof fn lemma_shift_cat(a: Option<Seq<InstrModel>>, b: Option<Seq<InstrModel>>, x: int, y: int)
    requires
        shifts_by(a, x),
        shifts_by(b, y),
    ensures
        shifts_by(cat(a, b), x + y),
{
    if let (Some(p), Some(q)) = (a, b) {
        lemma_shift_concat(p, q);
    }
}

proof fn lemma_shift_repeat(i: InstrModel, n: nat)
    requires
        i.opcode != bf::op::LOOP@,
    ensures
        shifts_by(Some(repeat_instr(i, n)), n * step_shift(i)),
    decreases n,
{
    if n > 0 {
        lemma_shift_repeat(i, (n - 1) as nat);
        assert(as_operands(repeat_instr(i, n)).drop_last() =~= as_operands(repeat_instr(i, (n - 1) as nat)));
        assert(as_operands(repeat_instr(i, n)).last() == OperandModel::Instruction(i));
        assert(instr_in_place(i));
        assert(n * step_shift(i) == (n - 1) * step_shift(i) + step_shift(i)) by (nonlinear_arith);
    } else {
        assert(as_operands(repeat_instr(i, n)) =~= Seq::<OperandModel>::empty());
        assert(ops_shift(Seq::<OperandModel>::empty()) == 0);
        assert(ops_loops_in_place(Seq::<OperandModel>::empty()));
    }
}

proof fn lemma_shift_one(i: InstrModel)
    requires
        i.opcode != bf::op::LOOP@ || (ops_shift(i.operands) == 0 && ops_loops_in_place(i.operands)),
    ensures
        shifts_by(one(i), step_shift(i)),
{
    assert(as_operands(seq![i]).drop_last() =~= Seq::<OperandModel>::empty());
    assert(as_operands(seq![i]).last() == OperandModel::Instruction(i));
    assert(instr_in_place(i));
    assert(ops_shift(Seq::<OperandModel>::empty()) == 0);
    assert(ops_loops_in_place(Seq::<OperandModel>::empty()));
}

proof fn lemma_shift_move_between(from: i32, to: i32)
    ensures
        shifts_by(move_between(from, to), to - from),
{
    bf::parser::lemma_opcodes();
    if i32::MIN <= to - from <= i32::MAX {
        let x = (to - from) as i32;
        if x > 0 {
            lemma_shift_repeat(leaf_model(bf::op::PTR_RIGHT@), x as nat);
        } else if x != i32::MIN {
            lemma_shift_repeat(leaf_model(bf::op::PTR_LEFT@), (-x) as nat);
        }
    }
}

proof fn lemma_shift_loop_over(b: Option<Seq<InstrModel>>)
    requires
        shifts_by(b, 0),
    ensures
        shifts_by(loop_over(b), 0),
{
    bf::parser::lemma_opcodes();
    if let Some(x) = b {
        lemma_shift_one(loop_model(x));
    }
}

proof fn lemma_shift_commands()
    ensures
        shifts_by(one(leaf_model(bf::op::INCR@)), 0),
        shifts_by(one(leaf_model(bf::op::DECR@)), 0),
        shifts_by(one(leaf_model(bf::op::OUTPUT@)), 0),
{
    bf::parser::lemma_opcodes();
    lemma_shift_one(leaf_model(bf::op::INCR@));
    lemma_shift_one(leaf_model(bf::op::DECR@));
    lemma_shift_one(leaf_model(bf::op::OUTPUT@));
}

proof fn lemma_shift_clear(center: i32, cell: i32)
    ensures
        shifts_by(clear_cell_code(center, cell), 0),
{
    lemma_shift_commands();
    lemma_shift_move_between(center, cell);
    lemma_shift_move_between(cell, center);
    lemma_shift_loop_over(one(leaf_model(bf::op::DECR@)));
    let a = cat(move_between(center, cell), loop_over(one(leaf_model(bf::op::DECR@))));
    lemma_shift_cat(move_between(center, cell), loop_over(one(leaf_model(bf::op::DECR@))), cell - center, 0);
    lemma_shift_cat(a, move_between(cell, center), cell - center, center - cell);
}

proof fn lemma_shift_copy(center: i32, from: i32, temp: i32, to: i32)
    ensures
        shifts_by(copy_cell_code(center, from, temp, to), 0),
{
    lemma_shift_commands();
    let incr = one(leaf_model(bf::op::INCR@));
    let decr = one(leaf_model(bf::op::DECR@));
    lemma_shift_move_between(from, to);
    lemma_shift_move_between(to, temp);
    lemma_shift_move_between(temp, from);
    lemma_shift_move_between(from, temp);
    lemma_shift_move_between(center, from);
    lemma_shift_move_between(temp, center);
    let f1 = cat(move_between(from, to), incr);
    lemma_shift_cat(move_between(from, to), incr, to - from, 0);
    let f2 = cat(f1, move_between(to, temp));
    lemma_shift_cat(f1, move_between(to, temp), to - from, temp - to);
    let f3 = cat(f2, incr);
    lemma_shift_cat(f2, incr, temp - from, 0);
    let f4 = cat(f3, move_between(temp, from));
    lemma_shift_cat(f3, move_between(temp, from), temp - from, from - temp);
    let first = cat(f4, decr);
    lemma_shift_cat(f4, decr, 0, 0);
    let s1 = cat(move_between(temp, from), incr);
    lemma_shift_cat(move_between(temp, from), incr, from - temp, 0);
    let s2 = cat(s1, move_between(from, temp));
    lemma_shift_cat(s1, move_between(from, temp), from - temp, temp - from);
    let second = cat(s2, decr);
    lemma_shift_cat(s2, decr, 0, 0);
    lemma_shift_loop_over(first);
    lemma_shift_loop_over(second);
    let o1 = cat(move_between(center, from), loop_over(first));
    lemma_shift_cat(move_between(center, from), loop_over(first), from - center, 0);
    let o2 = cat(o1, move_between(from, temp));
    lemma_shift_cat(o1, move_between(from, temp), from - center, temp - from);
    let o3 = cat(o2, loop_over(second));
    lemma_shift_cat(o2, loop_over(second), temp - center, 0);
    lemma_shift_cat(o3, move_between(temp, center), temp - center, center - temp);
}

proof fn lemma_shift_int(center: i32, value: i64, target: i32)
    ensures
        shifts_by(super::simp_to_bf::int_value_code(center, value, target), 0),
{
    bf::parser::lemma_opcodes();
    let n: nat = if value > 0 {
        value as nat
    } else {
        0
    };
    lemma_shift_repeat(leaf_model(bf::op::INCR@), n);
    assert(n * step_shift(leaf_model(bf::op::INCR@)) == 0);
    lemma_shift_move_between(center, target);
    lemma_shift_move_between(target, center);
    let ups = Some(repeat_instr(leaf_model(bf::op::INCR@), n));
    lemma_shift_cat(move_between(center, target), ups, target - center, 0);
    lemma_shift_cat(cat(move_between(center, target), ups), move_between(target, center), target - center, center - target);
}

proof fn lemma_shift_add_cells(center: i32, first: i32, second: i32, temp: i32, target: i32)
    ensures
        shifts_by(super::simp_to_bf::add_cells_code(center, first, second, temp, target), 0),
{
    lemma_shift_copy(center, first, temp, target);
    lemma_shift_copy(center, second, temp, target);
    lemma_shift_cat(copy_cell_code(center, first, temp, target), copy_cell_code(center, second, temp, target), 0, 0);
}

proof fn lemma_shift_subtract(center: i32, first: i32, second: i32, temp: i32, target: i32)
    ensures
        shifts_by(super::simp_to_bf::subtract_code(center, first, second, temp, target), 0),
{
    lemma_shift_commands();
    let decr = one(leaf_model(bf::op::DECR@));
    lemma_shift_move_between(first, target);
    lemma_shift_move_between(target, first);
    lemma_shift_move_between(center, first);
    lemma_shift_move_between(first, center);
    let b1 = cat(move_between(first, target), decr);
    lemma_shift_cat(move_between(first, target), decr, target - first, 0);
    let b2 = cat(b1, move_between(target, first));
    lemma_shift_cat(b1, move_between(target, first), target - first, first - target);
    let body = cat(b2, decr);
    lemma_shift_cat(b2, decr, 0, 0);
    lemma_shift_loop_over(body);
    lemma_shift_clear(center, target);
    lemma_shift_copy(center, second, temp, target);
    let c1 = cat(clear_cell_code(center, target), copy_cell_code(center, second, temp, target));
    lemma_shift_cat(clear_cell_code(center, target), copy_cell_code(center, second, temp, target), 0, 0);
    let c2 = cat(c1, move_between(center, first));
    lemma_shift_cat(c1, move_between(center, first), 0, first - center);
    let c3 = cat(c2, loop_over(body));
    lemma_shift_cat(c2, loop_over(body), first - center, 0);
    lemma_shift_cat(c3, move_between(first, center), first - center, center - first);
}

/// Law: the code that the Simp compiler gives for a statement leaves the data pointer
/// where it found it (the center), and so does the body of every loop in that code.
pub proof fn law_compiled_statement_keeps_pointer(st: SimpState, i: InstrModel, target: i32)
    ensures
        compile(st, i, target) matches Some((_, c)) ==> keeps_pointer(c),
    decreases i, 1nat,
{
    if i.opcode == simp::op::ASSIGN@ {
        lemma_assign_shift(st, i, target);
    } else if i.opcode == simp::op::CONSTANT@ {
        lemma_constant_shift(st, i, target);
    } else if i.opcode == simp::op::VARIABLE@ {
        lemma_variable_shift(st, i, target);
    } else if i.opcode == simp::op::ADD@ || i.opcode == simp::op::SUB@ {
        lemma_arith_shift(st, i, target, true);
        lemma_arith_shift(st, i, target, false);
    } else if i.opcode == simp::op::PRINT@ {
        lemma_print_shift(st, i, target);
    } else if i.opcode == simp::op::LOOP@ {
        lemma_loop_shift(st, i, target);
    } else if i.opcode == simp::op::BODY@ {
        lemma_body_shift(st, i.operands, target);
    }
}

proof fn lemma_constant_shift(st: SimpState, i: InstrModel, target: i32)
    ensures
        compile_constant(st, i, target) matches Some((_, c)) ==> keeps_pointer(c),
{
    if let Some(crate::ir::ValueModel::SimpInt(n)) = super::simp_to_bf::value_operand(i.operands, 0) {
        if let Some((st1, t)) = push_temp_spec(st) {
            lemma_shift_clear(st.center, t);
            lemma_shift_int(st.center, n, target);
            lemma_shift_cat(clear_cell_code(st.center, t), super::simp_to_bf::int_value_code(st.center, n, target), 0, 0);
        }
    }
}

proof fn lemma_variable_shift(st: SimpState, i: InstrModel, target: i32)
    ensures
        compile_variable(st, i, target) matches Some((_, c)) ==> keeps_pointer(c),
{
    if let Some(v) = super::simp_to_bf::value_operand(i.operands, 0) {
        if let Some((st1, t)) = push_temp_spec(st) {
            if let Some(var) = super::simp_to_bf::get_var_spec(st1, crate::ir::value_text(v)) {
                lemma_shift_clear(st.center, t);
                lemma_shift_copy(st.center, var, t, target);
                lemma_shift_cat(clear_cell_code(st.center, t), copy_cell_code(st.center, var, t, target), 0, 0);
            }
        }
    }
}

proof fn lemma_print_shift(st: SimpState, i: InstrModel, target: i32)
    ensures
        compile_print(st, i, target) matches Some((_, c)) ==> keeps_pointer(c),
    decreases i, 0nat,
{
    if let Some(value) = instr_operand(i.operands, 0) {
        if let Some((st1, t)) = push_temp_spec(st) {
            law_compiled_statement_keeps_pointer(st1, value, t);
            if let Some((st2, c)) = compile(st1, value, t) {
                lemma_shift_commands();
                lemma_shift_clear(st.center, t);
                lemma_shift_move_between(st.center, t);
                lemma_shift_move_between(t, st.center);
                let p1 = cat(clear_cell_code(st.center, t), Some(c));
                lemma_shift_cat(clear_cell_code(st.center, t), Some(c), 0, 0);
                let p2 = cat(p1, move_between(st.center, t));
                lemma_shift_cat(p1, move_between(st.center, t), 0, t - st.center);
                let p3 = cat(p2, one(leaf_model(bf::op::OUTPUT@)));
                lemma_shift_cat(p2, one(leaf_model(bf::op::OUTPUT@)), t - st.center, 0);
                lemma_shift_cat(p3, move_between(t, st.center), t - st.center, st.center - t);
            }
        }
    }
}

proof fn lemma_assign_shift(st: SimpState, i: InstrModel, target: i32)
    ensures
        compile_assign(st, i, target) matches Some((_, c)) ==> keeps_pointer(c),
    decreases i, 0nat,
{
    if let Some(v) = super::simp_to_bf::value_operand(i.operands, 0) {
        if let Some((st1, t1)) = push_temp_spec(st) {
            if let Some((st2, t2)) = push_temp_spec(st1) {
                if let Some((st3, var)) = super::simp_to_bf::push_or_get_var_spec(st2, crate::ir::value_text(v)) {
                    if let Some(value) = instr_operand(i.operands, 1) {
                        law_compiled_statement_keeps_pointer(st3, value, t1);
                        if let Some((st4, code)) = compile(st3, value, t1) {
                            lemma_shift_clear(st.center, t1);
                            lemma_shift_clear(st.center, t2);
                            lemma_shift_clear(st.center, var);
                            lemma_shift_copy(st.center, t1, t2, var);
                            let a1 = cat(clear_cell_code(st.center, t1), clear_cell_code(st.center, t2));
                            lemma_shift_cat(clear_cell_code(st.center, t1), clear_cell_code(st.center, t2), 0, 0);
                            let a2 = cat(a1, Some(code));
                            lemma_shift_cat(a1, Some(code), 0, 0);
                            let a3 = cat(a2, clear_cell_code(st.center, var));
                            lemma_shift_cat(a2, clear_cell_code(st.center, var), 0, 0);
                            lemma_shift_cat(a3, copy_cell_code(st.center, t1, t2, var), 0, 0);
                        }
                    }
                }
            }
        }
    }
}

proof fn lemma_arith_shift(st: SimpState, i: InstrModel, target: i32, is_add: bool)
    ensures
        compile_arith(st, i, target, is_add) matches Some((_, c)) ==> keeps_pointer(c),
    decreases i, 0nat,
{
    if let (Some(first), Some(second)) = (instr_operand(i.operands, 0), instr_operand(i.operands, 1)) {
        if let Some((st1, t1)) = push_temp_spec(st) {
            law_compiled_statement_keeps_pointer(st1, first, t1);
            if let Some((st2, c1)) = compile(st1, first, t1) {
                if let Some((st3, t2)) = push_temp_spec(st2) {
                    law_compiled_statement_keeps_pointer(st3, second, t2);
                    if let Some((st4, c2)) = compile(st3, second, t2) {
                        if let Some((st5, t3)) = push_temp_spec(st4) {
                            let combine = if is_add {
                                super::simp_to_bf::add_cells_code(st.center, t1, t2, t3, target)
                            } else {
                                super::simp_to_bf::subtract_code(st.center, t2, t1, t3, target)
                            };
                            lemma_shift_add_cells(st.center, t1, t2, t3, target);
                            lemma_shift_subtract(st.center, t2, t1, t3, target);
                            lemma_shift_clear(st.center, t1);
                            lemma_shift_clear(st.center, t2);
                            lemma_shift_clear(st.center, t3);
                            let a1 = cat(clear_cell_code(st.center, t1), Some(c1));
                            lemma_shift_cat(clear_cell_code(st.center, t1), Some(c1), 0, 0);
                            let a2 = cat(a1, clear_cell_code(st.center, t2));
                            lemma_shift_cat(a1, clear_cell_code(st.center, t2), 0, 0);
                            let a3 = cat(a2, Some(c2));
                            lemma_shift_cat(a2, Some(c2), 0, 0);
                            let a4 = cat(a3, clear_cell_code(st.center, t3));
                            lemma_shift_cat(a3, clear_cell_code(st.center, t3), 0, 0);
                            lemma_shift_cat(a4, combine, 0, 0);
                        }
                    }
                }
            }
        }
    }
}

proof fn lemma_loop_shift(st: SimpState, i: InstrModel, target: i32)
    ensures
        compile_loop(st, i, target) matches Some((_, c)) ==> keeps_pointer(c),
    decreases i, 0nat,
{
    if let (Some(count), Some(body)) = (instr_operand(i.operands, 0), instr_operand(i.operands, 1)) {
        if let Some((st1, t1)) = push_temp_spec(st) {
            if let Some((st2, t2)) = push_temp_spec(st1) {
                law_compiled_statement_keeps_pointer(st2, count, t1);
                if let Some((st3, c)) = compile(st2, count, t1) {
                    law_compiled_statement_keeps_pointer(st3, body, t2);
                    if let Some((st4, b)) = compile(st3, body, t2) {
                        lemma_shift_commands();
                        lemma_shift_move_between(st.center, t1);
                        lemma_shift_move_between(t1, st.center);
                        let l1 = cat(Some(b), move_between(st.center, t1));
                        lemma_shift_cat(Some(b), move_between(st.center, t1), 0, t1 - st.center);
                        let l2 = cat(l1, one(leaf_model(bf::op::DECR@)));
                        lemma_shift_cat(l1, one(leaf_model(bf::op::DECR@)), t1 - st.center, 0);
                        let lb = cat(l2, move_between(t1, st.center));
                        lemma_shift_cat(l2, move_between(t1, st.center), t1 - st.center, st.center - t1);
                        if let Some(loop_body) = lb {
                            bf::parser::lemma_opcodes();
                            lemma_shift_one(loop_model(loop_body));
                            lemma_shift_clear(st.center, t1);
                            lemma_shift_clear(st.center, t2);
                            let h1 = cat(clear_cell_code(st.center, t1), clear_cell_code(st.center, t2));
                            lemma_shift_cat(clear_cell_code(st.center, t1), clear_cell_code(st.center, t2), 0, 0);
                            let h2 = cat(h1, Some(c));
                            lemma_shift_cat(h1, Some(c), 0, 0);
                            lemma_shift_cat(h2, one(loop_model(loop_body)), 0, 0);
                        }
                    }
                }
            }
        }
    }
}

proof fn lemma_body_shift(st: SimpState, ops: Seq<OperandModel>, target: i32)
    ensures
        compile_body(st, ops, target) matches Some((_, c)) ==> keeps_pointer(c),
    decreases ops,
{
    if ops.len() > 0 {
        lemma_body_shift(st, ops.drop_last(), target);
        if let Some((st1, a)) = compile_body(st, ops.drop_last(), target) {
            if let OperandModel::Instruction(x) = ops.last() {
                law_compiled_statement_keeps_pointer(st1, x, target);
                if let Some((st2, b)) = compile(st1, x, target) {
                    lemma_shift_concat(a, b);
                }
            }
        }
    } else {
        assert(as_operands(Seq::<InstrModel>::empty()) =~= Seq::<OperandModel>::empty());
    }
}

/// Law: the Brainfuck module that the Simp compiler gives moves the data pointer to
/// the center, one cell per variable assigned at the top level, and leaves it there:
/// the code of every statement, and every loop, leaves it in place.
pub proof fn law_compiled_module_ends_at_center(st: SimpState, m: ModuleModel)
    ensures
        compile_module(st, m) matches Some((_, out)) ==> shifts_by(
            Some(out.instructions),
            ((super::simp_to_bf::assigned_names(m.instructions)->0.len() as usize) as i32) as int,
        ),
{
    if let Some((_, out)) = compile_module(st, m) {
        let names = super::simp_to_bf::assigned_names(m.instructions)->0;
        let center = (names.len() as usize) as i32;
        let st1 = SimpState { center, temp: center, vars: st.vars };
        lemma_body_shift(st1, as_operands(m.instructions), 0);
        lemma_shift_move_between(0, center);
        assert(move_between(0, center) == moves(center));
        let pre = moves(center)->0;
        let code = (compile_body(st1, as_operands(m.instructions), 0)->0).1;
        lemma_shift_concat(pre, code);
    }
}

} // verus!
