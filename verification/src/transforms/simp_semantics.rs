//! What the code of the Simp compiler does when the Brainfuck runs: each piece of
//! code (clearing, copying, adding, subtracting a cell), the code of each expression
//! and statement, and at last the whole program, which prints what the Simp program
//! prints.
use vstd::prelude::*;

use super::bbf_to_bf::repeat_instr;
use super::simp_to_bf::{
    add_cells_code, cat, clear_cell_code, compile, compile_arith, compile_assign, compile_body,
    compile_constant, compile_loop, compile_module, compile_print, compile_program,
    compile_variable, copy_cell_code, get_var_spec, index_of, instr_operand, int_value_code,
    law_compile_keeps_frame, loop_over, move_between, moves, one, pop_temp_spec,
    push_or_get_var_spec, push_temp_spec, subtract_code, value_operand, SimpState,
};
use crate::simp;
use crate::simp::semantics::{
    assigned, byte, eval, exec, exec_all, pure_expr, repeat, SimpRun,
};
use crate::better_brainfuck::semantics::{added, shifted, Machine};
use crate::brainfuck as bf;
use crate::brainfuck::semantics::{lemma_run_concat, run_instr, run_ops, run_program};
use crate::brainfuck::syntax::{leaf_model, loop_model};
use crate::ir::{as_operands, InstrModel, OperandModel, ValueModel};

verus! {

/// The value of cell `q`.
pub open spec fn cell(m: Machine, q: int) -> u8 {
    (m.tape)(q)
}

/// The machine with cell `q` set to `v`.
pub open spec fn set(m: Machine, q: int, v: u8) -> Machine {
    Machine { tape: |p: int| if p == q { v } else { (m.tape)(p) }, ..m }
}

/// An integer modulo 256, as a byte.
pub open spec fn wrap(v: int) -> u8 {
    (v % 256) as u8
}

/// What running a piece of code gives, where there is one.
pub open spec fn runs(c: Option<Seq<InstrModel>>, m: Machine, fuel: nat) -> Option<Machine> {
    match c {
        Some(s) => run_program(s, m, fuel),
        None => None,
    }
}

/// Running two pieces of code one after the other.
pub proof fn lemma_runs_cat(a: Option<Seq<InstrModel>>, b: Option<Seq<InstrModel>>, m: Machine, fuel: nat)
    ensures
        runs(cat(a, b), m, fuel) == (match runs(a, m, fuel) {
            Some(m1) => runs(b, m1, fuel),
            None => None,
        }),
{
    if let (Some(x), Some(y)) = (a, b) {
        lemma_run_concat(x, y, m, fuel);
    }
}

pub(crate) proof fn lemma_run_one(i: InstrModel, m: Machine, fuel: nat)
    ensures
        run_program(seq![i], m, fuel) == run_instr(i, m, fuel),
{
    let ops = as_operands(seq![i]);
    assert(ops.len() == 1);
    assert(ops.drop_last() =~= Seq::<OperandModel>::empty());
    assert(run_ops(ops.drop_last(), m, fuel) == Some(m));
    assert(ops.last() == OperandModel::Instruction(i));
}

pub(crate) proof fn lemma_opcodes()
    ensures
        bf::op::PTR_RIGHT@ != bf::op::PTR_LEFT@,
        bf::op::PTR_RIGHT@ != bf::op::INCR@,
        bf::op::PTR_RIGHT@ != bf::op::DECR@,
        bf::op::PTR_RIGHT@ != bf::op::OUTPUT@,
        bf::op::PTR_RIGHT@ != bf::op::LOOP@,
        bf::op::PTR_LEFT@ != bf::op::INCR@,
        bf::op::PTR_LEFT@ != bf::op::DECR@,
        bf::op::PTR_LEFT@ != bf::op::OUTPUT@,
        bf::op::PTR_LEFT@ != bf::op::LOOP@,
        bf::op::INCR@ != bf::op::DECR@,
        bf::op::INCR@ != bf::op::OUTPUT@,
        bf::op::INCR@ != bf::op::LOOP@,
        bf::op::DECR@ != bf::op::OUTPUT@,
        bf::op::DECR@ != bf::op::LOOP@,
        bf::op::OUTPUT@ != bf::op::LOOP@,
        bf::op::INPUT@ != bf::op::LOOP@,
        bf::op::INPUT@ != bf::op::OUTPUT@,
        bf::op::INPUT@ != bf::op::DECR@,
        bf::op::INPUT@ != bf::op::INCR@,
        bf::op::INPUT@ != bf::op::PTR_LEFT@,
        bf::op::INPUT@ != bf::op::PTR_RIGHT@,
{
    reveal_strlit("bf.input");
    reveal_strlit("bf.right");
    reveal_strlit("bf.left");
    reveal_strlit("bf.incr");
    reveal_strlit("bf.decr");
    reveal_strlit("bf.output");
    reveal_strlit("bf.loop");
    assert(bf::op::PTR_RIGHT@[3] == 'r');
    assert(bf::op::PTR_LEFT@[3] == 'l');
    assert(bf::op::INCR@[3] == 'i');
    assert(bf::op::DECR@[3] == 'd');
    assert(bf::op::OUTPUT@[3] == 'o');
    assert(bf::op::LOOP@[3] == 'l' && bf::op::LOOP@[4] == 'o');
    assert(bf::op::PTR_LEFT@[4] == 'e');
    assert(bf::op::INPUT@[3] == 'i' && bf::op::INPUT@[5] == 'p');
    assert(bf::op::INCR@[5] == 'c');
}

pub(crate) proof fn lemma_repeat_push(i: InstrModel, n: nat)
    requires
        n > 0,
    ensures
        repeat_instr(i, n) == repeat_instr(i, (n - 1) as nat) + seq![i],
{
    assert(repeat_instr(i, n) =~= repeat_instr(i, (n - 1) as nat) + seq![i]);
}

pub(crate) proof fn lemma_repeat_move(n: nat, right: bool, m: Machine, fuel: nat)
    requires
        right || m.ptr - n >= m.floor,
    ensures
        run_program(
            repeat_instr(leaf_model(if right { bf::op::PTR_RIGHT@ } else { bf::op::PTR_LEFT@ }), n),
            m,
            fuel,
        ) == Some(shifted(m, if right { n as int } else { -n })),
    decreases n,
{
    lemma_opcodes();
    let i = leaf_model(if right { bf::op::PTR_RIGHT@ } else { bf::op::PTR_LEFT@ });
    if n == 0 {
        assert(as_operands(repeat_instr(i, n)) =~= Seq::<OperandModel>::empty());
        assert(shifted(m, 0) =~= m);
    } else {
        lemma_repeat_push(i, n);
        lemma_repeat_move((n - 1) as nat, right, m, fuel);
        lemma_run_concat(repeat_instr(i, (n - 1) as nat), seq![i], m, fuel);
        let m1 = shifted(m, if right { (n - 1) as int } else { -(n - 1) });
        lemma_run_one(i, m1, fuel);
        assert(shifted(m1, if right { 1int } else { -1 }) =~= shifted(m, if right { n as int } else { -n }));
    }
}

/// The moves between two cells shift the pointer by their distance.
pub proof fn lemma_move_between(from: i32, to: i32, m: Machine, fuel: nat)
    requires
        move_between(from, to) is Some,
        m.ptr + (to - from) >= m.floor,
    ensures
        runs(move_between(from, to), m, fuel) == Some(shifted(m, to - from)),
{
    let x = (to - from) as i32;
    if x > 0 {
        lemma_repeat_move(x as nat, true, m, fuel);
    } else {
        lemma_repeat_move((-x) as nat, false, m, fuel);
    }
}

proof fn lemma_clear_loop(m: Machine, fuel: nat)
    requires
        fuel >= cell(m, m.ptr),
    ensures
        run_instr(loop_model(seq![leaf_model(bf::op::DECR@)]), m, fuel) == Some(set(m, m.ptr, 0)),
    decreases cell(m, m.ptr),
{
    lemma_opcodes();
    let d = leaf_model(bf::op::DECR@);
    let l = loop_model(seq![d]);
    if cell(m, m.ptr) == 0 {
        assert(set(m, m.ptr, 0) =~= m);
    } else {
        let m1 = added(m, -1);
        lemma_run_one(d, m, fuel);
        assert(run_ops(l.operands, m, fuel) == Some(m1));
        assert(cell(m1, m1.ptr) == cell(m, m.ptr) - 1);
        lemma_clear_loop(m1, (fuel - 1) as nat);
        assert(set(m1, m1.ptr, 0) =~= set(m, m.ptr, 0));
    }
}

/// Clearing a cell sets it to zero and leaves the pointer on the center.
pub proof fn lemma_clear(center: i32, q: i32, m: Machine, fuel: nat)
    requires
        clear_cell_code(center, q) is Some,
        m.ptr == center,
        center >= m.floor && q >= m.floor,
        fuel >= 256,
    ensures
        runs(clear_cell_code(center, q), m, fuel) == Some(set(m, q as int, 0)),
{
    let d = leaf_model(bf::op::DECR@);
    let a = move_between(center, q);
    let b = loop_over(one(d));
    let c = move_between(q, center);
    lemma_runs_cat(cat(a, b), c, m, fuel);
    lemma_runs_cat(a, b, m, fuel);
    lemma_move_between(center, q, m, fuel);
    let m1 = shifted(m, q - center);
    lemma_run_one(loop_model(seq![d]), m1, fuel);
    lemma_clear_loop(m1, fuel);
    let m2 = set(m1, q as int, 0);
    lemma_move_between(q, center, m2, fuel);
    assert(shifted(m2, center - q) =~= set(m, q as int, 0));
}

pub(crate) proof fn lemma_wrap_add(x: int, y: int)
    ensures
        wrap(wrap(x) as int + y) == wrap(x + y),
{
    vstd::arithmetic::div_mod::lemma_add_mod_noop_right(y, x, 256);
    assert(0 <= x % 256 < 256);
}

pub(crate) proof fn lemma_step(i: InstrModel, m: Machine, fuel: nat)
    requires
        i == leaf_model(bf::op::INCR@) || i == leaf_model(bf::op::DECR@),
    ensures
        runs(one(i), m, fuel) == Some(set(
            m,
            m.ptr,
            wrap(cell(m, m.ptr) + if i == leaf_model(bf::op::INCR@) { 1int } else { -1 }),
        )),
{
    lemma_opcodes();
    lemma_run_one(i, m, fuel);
    let d: int = if i == leaf_model(bf::op::INCR@) { 1int } else { -1 };
    assert(added(m, d) =~= set(m, m.ptr, wrap(cell(m, m.ptr) + d)));
}

/// The body of the first loop of a copy: one from `from` to `to` and `temp`.
pub open spec fn copy_first(from: i32, temp: i32, to: i32) -> Option<Seq<InstrModel>> {
    cat(
        cat(
            cat(
                cat(
                    cat(move_between(from, to), one(leaf_model(bf::op::INCR@))),
                    move_between(to, temp),
                ),
                one(leaf_model(bf::op::INCR@)),
            ),
            move_between(temp, from),
        ),
        one(leaf_model(bf::op::DECR@)),
    )
}

/// The body of the second loop of a copy: one from `temp` back to `from`.
pub open spec fn copy_second(from: i32, temp: i32) -> Option<Seq<InstrModel>> {
    cat(
        cat(
            cat(move_between(temp, from), one(leaf_model(bf::op::INCR@))),
            move_between(from, temp),
        ),
        one(leaf_model(bf::op::DECR@)),
    )
}

proof fn lemma_copy_first_body(from: i32, temp: i32, to: i32, m: Machine, fuel: nat)
    requires
        copy_first(from, temp, to) is Some,
        m.ptr == from,
        from != temp && from != to && temp != to,
        from >= m.floor && temp >= m.floor && to >= m.floor,
    ensures
        runs(copy_first(from, temp, to), m, fuel) == Some(set(
            set(set(m, to as int, wrap(cell(m, to as int) + 1)), temp as int, wrap(cell(m, temp as int) + 1)),
            from as int,
            wrap(cell(m, from as int) - 1),
        )),
{
    lemma_opcodes();
    let inc = leaf_model(bf::op::INCR@);
    let dec = leaf_model(bf::op::DECR@);
    let a1 = move_between(from, to);
    let a2 = cat(a1, one(inc));
    let a3 = cat(a2, move_between(to, temp));
    let a4 = cat(a3, one(inc));
    let a5 = cat(a4, move_between(temp, from));
    lemma_runs_cat(a5, one(dec), m, fuel);
    lemma_runs_cat(a4, move_between(temp, from), m, fuel);
    lemma_runs_cat(a3, one(inc), m, fuel);
    lemma_runs_cat(a2, move_between(to, temp), m, fuel);
    lemma_runs_cat(a1, one(inc), m, fuel);
    lemma_move_between(from, to, m, fuel);
    let m1 = shifted(m, to - from);
    lemma_step(inc, m1, fuel);
    let m2 = set(m1, to as int, wrap(cell(m, to as int) + 1));
    lemma_move_between(to, temp, m2, fuel);
    let m3 = shifted(m2, temp - to);
    lemma_step(inc, m3, fuel);
    let m4 = set(m3, temp as int, wrap(cell(m, temp as int) + 1));
    lemma_move_between(temp, from, m4, fuel);
    let m5 = shifted(m4, from - temp);
    lemma_step(dec, m5, fuel);
    assert(set(m5, from as int, wrap(cell(m, from as int) - 1)) =~= set(
        set(set(m, to as int, wrap(cell(m, to as int) + 1)), temp as int, wrap(cell(m, temp as int) + 1)),
        from as int,
        wrap(cell(m, from as int) - 1),
    ));
}

proof fn lemma_copy_first_loop(from: i32, temp: i32, to: i32, m: Machine, fuel: nat)
    requires
        copy_first(from, temp, to) is Some,
        m.ptr == from,
        from != temp && from != to && temp != to,
        from >= m.floor && temp >= m.floor && to >= m.floor,
        fuel >= cell(m, from as int),
    ensures
        run_instr(loop_model(copy_first(from, temp, to)->0), m, fuel) == Some(set(
            set(
                set(m, to as int, wrap(cell(m, to as int) + cell(m, from as int))),
                temp as int,
                wrap(cell(m, temp as int) + cell(m, from as int)),
            ),
            from as int,
            0,
        )),
    decreases cell(m, from as int),
{
    lemma_opcodes();
    let body = copy_first(from, temp, to)->0;
    let n = cell(m, from as int) as int;
    if n == 0 {
        assert(wrap(cell(m, to as int) as int) == cell(m, to as int));
        assert(wrap(cell(m, temp as int) as int) == cell(m, temp as int));
        assert(set(set(set(m, to as int, wrap(cell(m, to as int) + 0)), temp as int, wrap(cell(m, temp as int) + 0)), from as int, 0) =~= m);
    } else {
        lemma_copy_first_body(from, temp, to, m, fuel);
        let m1 = set(
            set(set(m, to as int, wrap(cell(m, to as int) + 1)), temp as int, wrap(cell(m, temp as int) + 1)),
            from as int,
            wrap(cell(m, from as int) - 1),
        );
        assert(cell(m1, from as int) == n - 1);
        lemma_copy_first_loop(from, temp, to, m1, (fuel - 1) as nat);
        lemma_wrap_add(cell(m, to as int) + 1, n - 1);
        lemma_wrap_add(cell(m, temp as int) + 1, n - 1);
        assert(set(
            set(
                set(m1, to as int, wrap(cell(m1, to as int) + cell(m1, from as int))),
                temp as int,
                wrap(cell(m1, temp as int) + cell(m1, from as int)),
            ),
            from as int,
            0,
        ) =~= set(
            set(
                set(m, to as int, wrap(cell(m, to as int) + cell(m, from as int))),
                temp as int,
                wrap(cell(m, temp as int) + cell(m, from as int)),
            ),
            from as int,
            0,
        ));
    }
}

proof fn lemma_copy_second_body(from: i32, temp: i32, m: Machine, fuel: nat)
    requires
        copy_second(from, temp) is Some,
        m.ptr == temp,
        from != temp,
        from >= m.floor && temp >= m.floor,
    ensures
        runs(copy_second(from, temp), m, fuel) == Some(set(
            set(m, from as int, wrap(cell(m, from as int) + 1)),
            temp as int,
            wrap(cell(m, temp as int) - 1),
        )),
{
    lemma_opcodes();
    let inc = leaf_model(bf::op::INCR@);
    let dec = leaf_model(bf::op::DECR@);
    let a1 = move_between(temp, from);
    let a2 = cat(a1, one(inc));
    let a3 = cat(a2, move_between(from, temp));
    lemma_runs_cat(a3, one(dec), m, fuel);
    lemma_runs_cat(a2, move_between(from, temp), m, fuel);
    lemma_runs_cat(a1, one(inc), m, fuel);
    lemma_move_between(temp, from, m, fuel);
    let m1 = shifted(m, from - temp);
    lemma_step(inc, m1, fuel);
    let m2 = set(m1, from as int, wrap(cell(m, from as int) + 1));
    lemma_move_between(from, temp, m2, fuel);
    let m3 = shifted(m2, temp - from);
    lemma_step(dec, m3, fuel);
    assert(set(m3, temp as int, wrap(cell(m, temp as int) - 1)) =~= set(
        set(m, from as int, wrap(cell(m, from as int) + 1)),
        temp as int,
        wrap(cell(m, temp as int) - 1),
    ));
}

proof fn lemma_copy_second_loop(from: i32, temp: i32, m: Machine, fuel: nat)
    requires
        copy_second(from, temp) is Some,
        m.ptr == temp,
        from != temp,
        from >= m.floor && temp >= m.floor,
        fuel >= cell(m, temp as int),
    ensures
        run_instr(loop_model(copy_second(from, temp)->0), m, fuel) == Some(set(
            set(m, from as int, wrap(cell(m, from as int) + cell(m, temp as int))),
            temp as int,
            0,
        )),
    decreases cell(m, temp as int),
{
    lemma_opcodes();
    let n = cell(m, temp as int) as int;
    if n == 0 {
        assert(wrap(cell(m, from as int) as int) == cell(m, from as int));
        assert(set(set(m, from as int, wrap(cell(m, from as int) + 0)), temp as int, 0) =~= m);
    } else {
        lemma_copy_second_body(from, temp, m, fuel);
        let m1 = set(
            set(m, from as int, wrap(cell(m, from as int) + 1)),
            temp as int,
            wrap(cell(m, temp as int) - 1),
        );
        assert(cell(m1, temp as int) == n - 1);
        lemma_copy_second_loop(from, temp, m1, (fuel - 1) as nat);
        lemma_wrap_add(cell(m, from as int) + 1, n - 1);
        assert(set(set(m1, from as int, wrap(cell(m1, from as int) + cell(m1, temp as int))), temp as int, 0)
            =~= set(set(m, from as int, wrap(cell(m, from as int) + cell(m, temp as int))), temp as int, 0));
    }
}

/// A copy adds the cell `from` to the cell `to` through `temp`, which must be zero,
/// and leaves every other cell as it was and the pointer on the center.
pub proof fn lemma_copy(center: i32, from: i32, temp: i32, to: i32, m: Machine, fuel: nat)
    requires
        copy_cell_code(center, from, temp, to) is Some,
        m.ptr == center,
        from != temp && from != to && temp != to,
        center >= m.floor && from >= m.floor && temp >= m.floor && to >= m.floor,
        cell(m, temp as int) == 0,
        fuel >= 256,
    ensures
        runs(copy_cell_code(center, from, temp, to), m, fuel) == Some(set(
            m,
            to as int,
            wrap(cell(m, to as int) + cell(m, from as int)),
        )),
{
    let a1 = move_between(center, from);
    let a2 = cat(a1, loop_over(copy_first(from, temp, to)));
    let a3 = cat(a2, move_between(from, temp));
    let a4 = cat(a3, loop_over(copy_second(from, temp)));
    lemma_runs_cat(a4, move_between(temp, center), m, fuel);
    lemma_runs_cat(a3, loop_over(copy_second(from, temp)), m, fuel);
    lemma_runs_cat(a2, move_between(from, temp), m, fuel);
    lemma_runs_cat(a1, loop_over(copy_first(from, temp, to)), m, fuel);
    lemma_move_between(center, from, m, fuel);
    let m1 = shifted(m, from - center);
    lemma_run_one(loop_model(copy_first(from, temp, to)->0), m1, fuel);
    lemma_copy_first_loop(from, temp, to, m1, fuel);
    let n = cell(m, from as int);
    let m2 = set(
        set(set(m1, to as int, wrap(cell(m, to as int) + n)), temp as int, wrap(0 + n)),
        from as int,
        0,
    );
    lemma_move_between(from, temp, m2, fuel);
    let m3 = shifted(m2, temp - from);
    assert(cell(m3, temp as int) == n);
    lemma_run_one(loop_model(copy_second(from, temp)->0), m3, fuel);
    lemma_copy_second_loop(from, temp, m3, fuel);
    let m4 = set(set(m3, from as int, wrap(0 + n)), temp as int, 0);
    lemma_move_between(temp, center, m4, fuel);
    assert(shifted(m4, center - temp) =~= set(m, to as int, wrap(cell(m, to as int) + n)));
}

pub(crate) proof fn lemma_repeat_incr(n: nat, m: Machine, fuel: nat)
    ensures
        run_program(repeat_instr(leaf_model(bf::op::INCR@), n), m, fuel) == Some(set(
            m,
            m.ptr,
            wrap(cell(m, m.ptr) + n),
        )),
    decreases n,
{
    let i = leaf_model(bf::op::INCR@);
    if n == 0 {
        assert(as_operands(repeat_instr(i, n)) =~= Seq::<OperandModel>::empty());
        assert(set(m, m.ptr, wrap(cell(m, m.ptr) + 0)) =~= m);
    } else {
        lemma_repeat_push(i, n);
        lemma_repeat_incr((n - 1) as nat, m, fuel);
        lemma_run_concat(repeat_instr(i, (n - 1) as nat), seq![i], m, fuel);
        let m1 = set(m, m.ptr, wrap(cell(m, m.ptr) + (n - 1)));
        lemma_step(i, m1, fuel);
        lemma_wrap_add(cell(m, m.ptr) + (n - 1), 1);
        assert(set(m1, m1.ptr, wrap(cell(m1, m1.ptr) + 1)) =~= set(m, m.ptr, wrap(cell(m, m.ptr) + n)));
    }
}

pub(crate) proof fn lemma_repeat_decr(n: nat, m: Machine, fuel: nat)
    ensures
        run_program(repeat_instr(leaf_model(bf::op::DECR@), n), m, fuel) == Some(set(
            m,
            m.ptr,
            wrap(cell(m, m.ptr) - n),
        )),
    decreases n,
{
    lemma_opcodes();
    let i = leaf_model(bf::op::DECR@);
    if n == 0 {
        assert(as_operands(repeat_instr(i, n)) =~= Seq::<OperandModel>::empty());
        assert(set(m, m.ptr, wrap(cell(m, m.ptr) - 0)) =~= m);
    } else {
        lemma_repeat_push(i, n);
        lemma_repeat_decr((n - 1) as nat, m, fuel);
        lemma_run_concat(repeat_instr(i, (n - 1) as nat), seq![i], m, fuel);
        let m1 = set(m, m.ptr, wrap(cell(m, m.ptr) - (n - 1)));
        lemma_step(i, m1, fuel);
        lemma_wrap_add(cell(m, m.ptr) - (n - 1), -1);
        assert(set(m1, m1.ptr, wrap(cell(m1, m1.ptr) + -1)) =~= set(m, m.ptr, wrap(cell(m, m.ptr) - n)));
    }
}

/// Adding an integer adds it, where it is positive, to the cell `target`, modulo 256.
pub proof fn lemma_int_value(center: i32, value: i64, target: i32, m: Machine, fuel: nat)
    requires
        int_value_code(center, value, target) is Some,
        m.ptr == center,
        center >= m.floor && target >= m.floor,
    ensures
        runs(int_value_code(center, value, target), m, fuel) == Some(set(
            m,
            target as int,
            wrap(cell(m, target as int) + if value > 0 { value as int } else { 0 }),
        )),
{
    let n: nat = if value > 0 { value as nat } else { 0 };
    let a1 = move_between(center, target);
    let a2 = cat(a1, Some(repeat_instr(leaf_model(bf::op::INCR@), n)));
    lemma_runs_cat(a2, move_between(target, center), m, fuel);
    lemma_runs_cat(a1, Some(repeat_instr(leaf_model(bf::op::INCR@), n)), m, fuel);
    lemma_move_between(center, target, m, fuel);
    let m1 = shifted(m, target - center);
    lemma_repeat_incr(n, m1, fuel);
    let m2 = set(m1, target as int, wrap(cell(m, target as int) + n));
    lemma_move_between(target, center, m2, fuel);
    assert(shifted(m2, center - target) =~= set(m, target as int, wrap(cell(m, target as int) + n)));
}

/// Adding two cells adds both to the cell `target`, through `temp`, which must be
/// zero.
pub proof fn lemma_add_cells(center: i32, first: i32, second: i32, temp: i32, target: i32, m: Machine, fuel: nat)
    requires
        add_cells_code(center, first, second, temp, target) is Some,
        m.ptr == center,
        center >= m.floor && first >= m.floor && second >= m.floor && temp >= m.floor && target >= m.floor,
        first != temp && first != target && second != temp && second != target && temp != target,
        cell(m, temp as int) == 0,
        fuel >= 256,
    ensures
        runs(add_cells_code(center, first, second, temp, target), m, fuel) == Some(set(
            m,
            target as int,
            wrap(cell(m, target as int) + cell(m, first as int) + cell(m, second as int)),
        )),
{
    let c1 = copy_cell_code(center, first, temp, target);
    let c2 = copy_cell_code(center, second, temp, target);
    lemma_runs_cat(c1, c2, m, fuel);
    lemma_copy(center, first, temp, target, m, fuel);
    let m1 = set(m, target as int, wrap(cell(m, target as int) + cell(m, first as int)));
    lemma_copy(center, second, temp, target, m1, fuel);
    lemma_wrap_add(cell(m, target as int) + cell(m, first as int), cell(m, second as int) as int);
    assert(set(m1, target as int, wrap(cell(m1, target as int) + cell(m1, second as int))) =~= set(
        m,
        target as int,
        wrap(cell(m, target as int) + cell(m, first as int) + cell(m, second as int)),
    ));
}

/// The body of the loop of a subtraction: one off `first` and off `target`.
pub open spec fn subtract_body(first: i32, target: i32) -> Option<Seq<InstrModel>> {
    cat(
        cat(
            cat(move_between(first, target), one(leaf_model(bf::op::DECR@))),
            move_between(target, first),
        ),
        one(leaf_model(bf::op::DECR@)),
    )
}

proof fn lemma_subtract_body(first: i32, target: i32, m: Machine, fuel: nat)
    requires
        subtract_body(first, target) is Some,
        m.ptr == first,
        first != target,
        first >= m.floor && target >= m.floor,
    ensures
        runs(subtract_body(first, target), m, fuel) == Some(set(
            set(m, target as int, wrap(cell(m, target as int) - 1)),
            first as int,
            wrap(cell(m, first as int) - 1),
        )),
{
    lemma_opcodes();
    let dec = leaf_model(bf::op::DECR@);
    let a1 = move_between(first, target);
    let a2 = cat(a1, one(dec));
    let a3 = cat(a2, move_between(target, first));
    lemma_runs_cat(a3, one(dec), m, fuel);
    lemma_runs_cat(a2, move_between(target, first), m, fuel);
    lemma_runs_cat(a1, one(dec), m, fuel);
    lemma_move_between(first, target, m, fuel);
    let m1 = shifted(m, target - first);
    lemma_step(dec, m1, fuel);
    let m2 = set(m1, target as int, wrap(cell(m, target as int) - 1));
    lemma_move_between(target, first, m2, fuel);
    let m3 = shifted(m2, first - target);
    lemma_step(dec, m3, fuel);
    assert(set(m3, first as int, wrap(cell(m, first as int) - 1)) =~= set(
        set(m, target as int, wrap(cell(m, target as int) - 1)),
        first as int,
        wrap(cell(m, first as int) - 1),
    ));
}

proof fn lemma_subtract_loop(first: i32, target: i32, m: Machine, fuel: nat)
    requires
        subtract_body(first, target) is Some,
        m.ptr == first,
        first != target,
        first >= m.floor && target >= m.floor,
        fuel >= cell(m, first as int),
    ensures
        run_instr(loop_model(subtract_body(first, target)->0), m, fuel) == Some(set(
            set(m, target as int, wrap(cell(m, target as int) - cell(m, first as int))),
            first as int,
            0,
        )),
    decreases cell(m, first as int),
{
    lemma_opcodes();
    let n = cell(m, first as int) as int;
    if n == 0 {
        assert(wrap(cell(m, target as int) as int) == cell(m, target as int));
        assert(set(set(m, target as int, wrap(cell(m, target as int) - 0)), first as int, 0) =~= m);
    } else {
        lemma_subtract_body(first, target, m, fuel);
        let m1 = set(
            set(m, target as int, wrap(cell(m, target as int) - 1)),
            first as int,
            wrap(cell(m, first as int) - 1),
        );
        assert(cell(m1, first as int) == n - 1);
        lemma_subtract_loop(first, target, m1, (fuel - 1) as nat);
        lemma_wrap_add(cell(m, target as int) - 1, -(n - 1));
        assert(set(set(m1, target as int, wrap(cell(m1, target as int) - cell(m1, first as int))), first as int, 0)
            =~= set(set(m, target as int, wrap(cell(m, target as int) - cell(m, first as int))), first as int, 0));
    }
}

/// A subtraction sets the cell `target` to `second` minus `first`, modulo 256, through
/// `temp`, which must be zero, and empties `first`.
pub proof fn lemma_subtract(center: i32, first: i32, second: i32, temp: i32, target: i32, m: Machine, fuel: nat)
    requires
        subtract_code(center, first, second, temp, target) is Some,
        m.ptr == center,
        center >= m.floor && first >= m.floor && second >= m.floor && temp >= m.floor && target >= m.floor,
        first != second && first != temp && first != target && second != temp && second != target && temp != target,
        cell(m, temp as int) == 0,
        fuel >= 256,
    ensures
        runs(subtract_code(center, first, second, temp, target), m, fuel) == Some(set(
            set(m, target as int, wrap(cell(m, second as int) - cell(m, first as int))),
            first as int,
            0,
        )),
{
    let a1 = cat(clear_cell_code(center, target), copy_cell_code(center, second, temp, target));
    let a2 = cat(a1, move_between(center, first));
    let a3 = cat(a2, loop_over(subtract_body(first, target)));
    lemma_runs_cat(a3, move_between(first, center), m, fuel);
    lemma_runs_cat(a2, loop_over(subtract_body(first, target)), m, fuel);
    lemma_runs_cat(a1, move_between(center, first), m, fuel);
    lemma_runs_cat(clear_cell_code(center, target), copy_cell_code(center, second, temp, target), m, fuel);
    lemma_clear(center, target, m, fuel);
    let m1 = set(m, target as int, 0);
    lemma_copy(center, second, temp, target, m1, fuel);
    let m2 = set(m1, target as int, wrap(0 + cell(m, second as int)));
    lemma_move_between(center, first, m2, fuel);
    let m3 = shifted(m2, first - center);
    lemma_run_one(loop_model(subtract_body(first, target)->0), m3, fuel);
    lemma_subtract_loop(first, target, m3, fuel);
    lemma_wrap_add(cell(m, second as int) as int, -(cell(m, first as int) as int));
    let m4 = set(set(m3, target as int, wrap(cell(m3, target as int) - cell(m, first as int))), first as int, 0);
    lemma_move_between(first, center, m4, fuel);
    assert(shifted(m4, center - first) =~= set(
        set(m, target as int, wrap(cell(m, second as int) - cell(m, first as int))),
        first as int,
        0,
    ));
}

// # Expressions

/// Whether the cells of some variables hold their values: the `k`-th at
/// `center - 1 - k`.
#[verifier::opaque]
pub open spec fn holds_vars(m: Machine, center: int, vars: Seq<Seq<char>>, env: spec_fn(Seq<char>) -> u8) -> bool {
    forall|k: int|
        0 <= k < vars.len() && index_of(vars, #[trigger] vars[k]) == Some(k) ==> cell(m, center - 1 - k) == env(vars[k])
}

/// Whether two machines agree on every cell below `top` but `q`.
pub open spec fn same_below(m: Machine, m2: Machine, top: int, q: int) -> bool {
    forall|p: int| p < top && p != q ==> #[trigger] cell(m2, p) == cell(m, p)
}

proof fn lemma_holds_kept(m: Machine, m2: Machine, center: int, vars: Seq<Seq<char>>, env: spec_fn(Seq<char>) -> u8, top: int, q: int)
    requires
        holds_vars(m, center, vars, env),
        same_below(m, m2, top, q),
        center <= q,
        center <= top,
    ensures
        holds_vars(m2, center, vars, env),
{
    reveal(holds_vars);
    assert forall|k: int| 0 <= k < vars.len() && index_of(vars, #[trigger] vars[k]) == Some(k) implies cell(m2, center - 1 - k) == env(vars[k]) by {
        assert(cell(m2, center - 1 - k) == cell(m, center - 1 - k));
    }
}

proof fn lemma_holds_set(m: Machine, center: int, vars: Seq<Seq<char>>, env: spec_fn(Seq<char>) -> u8, q: int, v: u8)
    requires
        holds_vars(m, center, vars, env),
        center <= q,
    ensures
        holds_vars(set(m, q, v), center, vars, env),
        holds_vars(shifted(m, q - m.ptr), center, vars, env),
{
    reveal(holds_vars);
    assert forall|k: int| 0 <= k < vars.len() && index_of(vars, #[trigger] vars[k]) == Some(k) implies cell(set(m, q, v), center - 1 - k) == env(vars[k]) by {
        assert(cell(set(m, q, v), center - 1 - k) == cell(m, center - 1 - k));
    }
}

proof fn lemma_index_of(vars: Seq<Seq<char>>, name: Seq<char>)
    ensures
        index_of(vars, name) matches Some(k) ==> 0 <= k < vars.len() && vars[k] == name,
        index_of(vars, name) is None ==> !vars.contains(name),
    decreases vars.len(),
{
    if vars.len() > 0 {
        lemma_index_of(vars.drop_last(), name);
        if index_of(vars, name) is None {
            assert forall|k: int| 0 <= k < vars.len() implies vars[k] != name by {
                if k < vars.len() - 1 {
                    assert(vars.drop_last()[k] == vars[k]);
                }
            }
        }
    }
}

/// The cell of a known variable.
proof fn lemma_var_cell(st: SimpState, name: Seq<char>, vars: Seq<Seq<char>>)
    requires
        get_var_spec(st, name) is Some,
        st.vars.is_prefix_of(vars),
        vars.len() <= i32::MAX,
    ensures
        index_of(st.vars, name) matches Some(k) && get_var_spec(st, name) == Some((st.center - 1 - k) as i32)
            && vars[k] == name && 0 <= k < vars.len() && index_of(vars, name) == Some(k),
{
    lemma_index_of(st.vars, name);
    let k = index_of(st.vars, name)->0;
    assert(st.vars[k] == vars[k]);
    assert((k as usize) as i32 == k);
    lemma_prefix_index(st.vars, vars, name);
}

/// The first position of a name in a prefix is its first position.
proof fn lemma_prefix_index(a: Seq<Seq<char>>, vars: Seq<Seq<char>>, name: Seq<char>)
    requires
        a.is_prefix_of(vars),
        index_of(a, name) is Some,
    ensures
        index_of(vars, name) == index_of(a, name),
    decreases vars.len(),
{
    if vars.len() == a.len() {
        assert(a =~= vars);
    } else {
        assert(a.is_prefix_of(vars.drop_last())) by {
            assert(a =~= vars.drop_last().subrange(0, a.len() as int));
        }
        lemma_prefix_index(a, vars.drop_last(), name);
    }
}

proof fn lemma_byte_wrap(v: int)
    ensures
        byte(v) == wrap(v),
        0 <= v < 256 ==> wrap(v) == v,
{
}

/// Whether the code of an expression, run from `m`, puts its value into `target`,
/// keeps every cell below the temporary stack but `target`, and gives back the state.
pub open spec fn expr_runs(
    st: SimpState,
    e: InstrModel,
    target: i32,
    m: Machine,
    env: spec_fn(Seq<char>) -> u8,
    fuel: nat,
) -> bool {
    compile(st, e, target) matches Some((st2, code)) && st2 == st && (run_program(code, m, fuel) matches Some(m2)
        && m2.ptr == st.center && cell(m2, target as int) == eval(e, env) && same_below(m, m2, st.temp as int, target as int)
        && m2.input == m.input && m2.floor == m.floor && m2.output == m.output)
}

/// Whether a machine is ready for the code of an expression into `target`.
pub open spec fn expr_ready(
    st: SimpState,
    target: i32,
    m: Machine,
    vars: Seq<Seq<char>>,
    env: spec_fn(Seq<char>) -> u8,
) -> bool {
    &&& st.vars.is_prefix_of(vars)
    &&& vars.len() <= i32::MAX
    &&& holds_vars(m, st.center as int, vars, env)
    &&& m.ptr == st.center
    &&& st.center <= target < st.temp
    &&& cell(m, target as int) == 0
    &&& st.center - vars.len() >= m.floor
}

proof fn lemma_constant_runs(st: SimpState, e: InstrModel, target: i32, m: Machine, vars: Seq<Seq<char>>, env: spec_fn(Seq<char>) -> u8, fuel: nat)
    requires
        compile(st, e, target) is Some,
        e.opcode == simp::op::CONSTANT@,
        pure_expr(e),
        expr_ready(st, target, m, vars, env),
        fuel >= 256,
    ensures
        expr_runs(st, e, target, m, env, fuel),
{
    simp::emitter::lemma_opcodes();
    let center = st.center;
    if let Some(ValueModel::SimpInt(n)) = value_operand(e.operands, 0) {
        let (st1, t) = push_temp_spec(st)->0;
        assert(compile(st, e, target) == compile_constant(st, e, target));
        lemma_runs_cat(clear_cell_code(center, t), int_value_code(center, n, target), m, fuel);
        lemma_clear(center, t, m, fuel);
        let m1 = set(m, t as int, 0);
        lemma_int_value(center, n, target, m1, fuel);
        lemma_byte_wrap(n as int);
        assert(pop_temp_spec(st1)->0 == st);
    }
}

proof fn lemma_variable_runs(st: SimpState, e: InstrModel, target: i32, m: Machine, vars: Seq<Seq<char>>, env: spec_fn(Seq<char>) -> u8, fuel: nat)
    requires
        compile(st, e, target) is Some,
        e.opcode == simp::op::VARIABLE@,
        pure_expr(e),
        expr_ready(st, target, m, vars, env),
        fuel >= 256,
    ensures
        expr_runs(st, e, target, m, env, fuel),
{
    simp::emitter::lemma_opcodes();
    let center = st.center;
    assert(compile(st, e, target) == compile_variable(st, e, target));
    let v = value_operand(e.operands, 0)->0;
    let name = crate::ir::value_text(v);
    let (st1, t) = push_temp_spec(st)->0;
    lemma_var_cell(st1, name, vars);
    let var = get_var_spec(st1, name)->0;
    lemma_runs_cat(clear_cell_code(center, t), copy_cell_code(center, var, t, target), m, fuel);
    lemma_clear(center, t, m, fuel);
    let m1 = set(m, t as int, 0);
    lemma_copy(center, var, t, target, m1, fuel);
    let k = index_of(st1.vars, name)->0;
    reveal(holds_vars);
    assert(cell(m, center - 1 - k) == env(vars[k]));
    lemma_byte_wrap(cell(m, var as int) as int);
    assert(pop_temp_spec(st1)->0 == st);
}

/// The code of an expression puts its value into `target`.
pub proof fn lemma_expr_runs(st: SimpState, e: InstrModel, target: i32, m: Machine, vars: Seq<Seq<char>>, env: spec_fn(Seq<char>) -> u8, fuel: nat)
    requires
        compile(st, e, target) is Some,
        pure_expr(e),
        expr_ready(st, target, m, vars, env),
        fuel >= 256,
    ensures
        expr_runs(st, e, target, m, env, fuel),
    decreases e, 1nat,
{
    if e.opcode == simp::op::CONSTANT@ {
        lemma_constant_runs(st, e, target, m, vars, env, fuel);
    } else if e.opcode == simp::op::VARIABLE@ {
        lemma_variable_runs(st, e, target, m, vars, env, fuel);
    } else {
        lemma_arith_runs(st, e, target, m, vars, env, fuel);
    }
}

#[verifier::rlimit(60)]
proof fn lemma_arith_runs(st: SimpState, e: InstrModel, target: i32, m: Machine, vars: Seq<Seq<char>>, env: spec_fn(Seq<char>) -> u8, fuel: nat)
    requires
        compile(st, e, target) is Some,
        e.opcode == simp::op::ADD@ || e.opcode == simp::op::SUB@,
        pure_expr(e),
        expr_ready(st, target, m, vars, env),
        fuel >= 256,
    ensures
        expr_runs(st, e, target, m, env, fuel),
    decreases e, 0nat,
{
    simp::emitter::lemma_opcodes();
    let center = st.center;
    let is_add = e.opcode == simp::op::ADD@;
    assert(compile(st, e, target) == compile_arith(st, e, target, is_add));
    let l = instr_operand(e.operands, 0)->0;
    let r = instr_operand(e.operands, 1)->0;
    assert(decreases_to!(e => l));
    assert(decreases_to!(e => r));
    let (st1, t1) = push_temp_spec(st)->0;
    // the first operand, into t1
    lemma_clear(center, t1, m, fuel);
    let ma = set(m, t1 as int, 0);
    lemma_holds_set(m, center as int, vars, env, t1 as int, 0);
    lemma_expr_runs(st1, l, t1, ma, vars, env, fuel);
    let (st2, c1) = compile(st1, l, t1)->0;
    let mb = run_program(c1, ma, fuel)->0;
    // the second operand, into t2
    let (st3, t2) = push_temp_spec(st2)->0;
    lemma_clear(center, t2, mb, fuel);
    let mc = set(mb, t2 as int, 0);
    lemma_holds_kept(ma, mb, center as int, vars, env, t1 + 1, t1 as int);
    lemma_holds_set(mb, center as int, vars, env, t2 as int, 0);
    lemma_expr_runs(st3, r, t2, mc, vars, env, fuel);
    let (st4, c2) = compile(st3, r, t2)->0;
    let md = run_program(c2, mc, fuel)->0;
    // the combination, through t3
    let (st5, t3) = push_temp_spec(st4)->0;
    lemma_clear(center, t3, md, fuel);
    let me = set(md, t3 as int, 0);
    assert(cell(me, t1 as int) == eval(l, env)) by {
        assert(cell(md, t1 as int) == cell(mc, t1 as int));
    }
    assert(cell(me, target as int) == 0) by {
        assert(cell(md, target as int) == cell(mc, target as int));
        assert(cell(mb, target as int) == cell(ma, target as int));
    }
    let combine = if is_add {
        add_cells_code(center, t1, t2, t3, target)
    } else {
        subtract_code(center, t2, t1, t3, target)
    };
    let a1 = cat(clear_cell_code(center, t1), Some(c1));
    let a2 = cat(a1, clear_cell_code(center, t2));
    let a3 = cat(a2, Some(c2));
    let a4 = cat(a3, clear_cell_code(center, t3));
    lemma_runs_cat(a4, combine, m, fuel);
    lemma_runs_cat(a3, clear_cell_code(center, t3), m, fuel);
    lemma_runs_cat(a2, Some(c2), m, fuel);
    lemma_runs_cat(a1, clear_cell_code(center, t2), m, fuel);
    lemma_runs_cat(clear_cell_code(center, t1), Some(c1), m, fuel);
    let a = cell(me, t1 as int);
    let b = cell(me, t2 as int);
    if is_add {
        lemma_add_cells(center, t1, t2, t3, target, me, fuel);
        lemma_byte_wrap(a + b);
    } else {
        lemma_subtract(center, t2, t1, t3, target, me, fuel);
        lemma_byte_wrap(a - b);
    }
    let mf = runs(combine, me, fuel)->0;
    assert(same_below(m, mf, st.temp as int, target as int)) by {
        assert forall|p: int| p < st.temp && p != target implies #[trigger] cell(mf, p) == cell(m, p) by {
            assert(cell(me, p) == cell(md, p));
            assert(cell(md, p) == cell(mc, p));
            assert(cell(mc, p) == cell(mb, p));
            assert(cell(mb, p) == cell(ma, p));
        }
    }
}

// # Statements

/// Whether a statement is an assignment of an expression to a name, or a print of an
/// expression.
pub open spec fn simple_stmt(s: InstrModel) -> bool {
    ||| s.opcode == simp::op::ASSIGN@ && s.operands.len() >= 2 && s.operands[0] is Value
        && (s.operands[1] matches OperandModel::Instruction(e) && pure_expr(e))
    ||| s.opcode == simp::op::PRINT@ && s.operands.len() >= 1
        && (s.operands[0] matches OperandModel::Instruction(x) && pure_expr(x))
}

/// Whether each of some operands is a simple statement.
pub open spec fn all_simple(ops: Seq<OperandModel>) -> bool {
    forall|k: int| 0 <= k < ops.len() ==> (#[trigger] ops[k] matches OperandModel::Instruction(t) && simple_stmt(t))
}

/// Whether a statement is simple, or a loop over an expression whose body holds only
/// simple statements.
pub open spec fn top_stmt(s: InstrModel) -> bool {
    ||| simple_stmt(s)
    ||| s.opcode == simp::op::LOOP@ && s.operands.len() >= 2
        && (s.operands[0] matches OperandModel::Instruction(c) && pure_expr(c))
        && (s.operands[1] matches OperandModel::Instruction(b) && b.opcode == simp::op::BODY@ && all_simple(b.operands))
}

/// Whether each of some operands is a statement that [`top_stmt`] accepts.
pub open spec fn all_top(ops: Seq<OperandModel>) -> bool {
    forall|k: int| 0 <= k < ops.len() ==> (#[trigger] ops[k] matches OperandModel::Instruction(t) && top_stmt(t))
}

/// Whether the code of a statement, run from `m`, does what the statement does: the
/// variables' cells hold their new values, the output grows by what it prints, the
/// cells from the center up to the temporary stack are kept, and the pointer comes
/// back to the center.
pub open spec fn stmt_runs(
    st: SimpState,
    s: InstrModel,
    target: i32,
    m: Machine,
    vars: Seq<Seq<char>>,
    r: SimpRun,
    fuel: nat,
) -> bool {
    compile(st, s, target) matches Some((st2, code)) && st2.center == st.center && st2.temp == st.temp
        && (run_program(code, m, fuel) matches Some(m2) && m2.ptr == st.center
        && holds_vars(m2, st.center as int, vars, exec(s, r).env) && m2.output == exec(s, r).out
        && m2.input == m.input && m2.floor == m.floor && (forall|p: int| st.center <= p < st.temp ==> #[trigger] cell(m2, p) == cell(m, p)))
}

/// Whether a machine is ready for the code of a statement.
pub open spec fn stmt_ready(
    st: SimpState,
    m: Machine,
    vars: Seq<Seq<char>>,
    r: SimpRun,
) -> bool {
    &&& vars.len() <= i32::MAX
    &&& holds_vars(m, st.center as int, vars, r.env)
    &&& m.ptr == st.center
    &&& m.output == r.out
    &&& st.center <= st.temp
    &&& st.center - vars.len() >= m.floor
}

proof fn lemma_prefix_trans(a: Seq<Seq<char>>, b: Seq<Seq<char>>, c: Seq<Seq<char>>)
    requires
        a.is_prefix_of(b),
        b.is_prefix_of(c),
    ensures
        a.is_prefix_of(c),
{
    assert(a =~= c.subrange(0, a.len() as int));
}

/// The cell of a variable that an assignment sets.
proof fn lemma_push_or_get(st: SimpState, name: Seq<char>, vars: Seq<Seq<char>>) -> (k: int)
    requires
        push_or_get_var_spec(st, name) matches Some((st3, _)) && st3.vars.is_prefix_of(vars),
        vars.len() <= i32::MAX,
    ensures
        0 <= k < vars.len(),
        vars[k] == name,
        index_of(vars, name) == Some(k),
        push_or_get_var_spec(st, name) matches Some((st3, var)) && var == st.center - 1 - k
            && st3.center == st.center && st3.temp == st.temp && st.vars.is_prefix_of(st3.vars),
{
    lemma_index_of(st.vars, name);
    let (st3, var) = push_or_get_var_spec(st, name)->0;
    if let Some(k) = index_of(st.vars, name) {
        assert((k as usize) as i32 == k);
        assert(st.vars[k] == vars[k]);
        lemma_prefix_index(st.vars, vars, name);
        assert(st.vars.is_prefix_of(st3.vars)) by {
            assert(st.vars =~= st3.vars.subrange(0, st.vars.len() as int));
        }
        k
    } else {
        let v2 = st.vars.push(name);
        let k = st.vars.len() as int;
        assert(((v2.len() as usize) as i32) == v2.len());
        assert(v2.drop_last() =~= st.vars);
        assert(index_of(v2, name) == Some(k));
        assert(v2[k] == vars[k]);
        lemma_prefix_index(v2, vars, name);
        assert(st.vars =~= v2.subrange(0, st.vars.len() as int));
        k
    }
}

/// The code of an assignment, from its parts.
pub open spec fn assign_code(center: i32, t1: i32, t2: i32, var: i32, code: Seq<InstrModel>) -> Option<Seq<InstrModel>> {
    cat(
        cat(cat(cat(clear_cell_code(center, t1), clear_cell_code(center, t2)), Some(code)), clear_cell_code(center, var)),
        copy_cell_code(center, t1, t2, var),
    )
}

#[verifier::rlimit(100)]
#[verifier::spinoff_prover]
proof fn lemma_assign_code(
    st3: SimpState,
    e: InstrModel,
    var: i32,
    k: int,
    name: Seq<char>,
    m: Machine,
    vars: Seq<Seq<char>>,
    env: spec_fn(Seq<char>) -> u8,
    fuel: nat,
)
    requires
        compile(st3, e, (st3.temp - 2) as i32) matches Some((st4, code)) && assign_code(
            st3.center,
            (st3.temp - 2) as i32,
            (st3.temp - 1) as i32,
            var,
            code,
        ) is Some,
        compile(st3, e, (st3.temp - 2) as i32) is Some,
        pure_expr(e),
        st3.vars.is_prefix_of(vars),
        vars.len() <= i32::MAX,
        holds_vars(m, st3.center as int, vars, env),
        m.ptr == st3.center,
        st3.center + 2 <= st3.temp,
        var == st3.center - 1 - k,
        0 <= k < vars.len(),
        st3.center - vars.len() >= m.floor,
        vars[k] == name,
        index_of(vars, name) == Some(k),
        fuel >= 256,
    ensures
        compile(st3, e, (st3.temp - 2) as i32) matches Some((st4, code)) && st4 == st3 && (runs(
            assign_code(st3.center, (st3.temp - 2) as i32, (st3.temp - 1) as i32, var, code),
            m,
            fuel,
        ) matches Some(m5) && m5.ptr == st3.center && holds_vars(m5, st3.center as int, vars, assigned(env, name, eval(e, env)))
            && m5.output == m.output && m5.input == m.input && m5.floor == m.floor
            && (forall|p: int| st3.center <= p < st3.temp - 2 ==> #[trigger] cell(m5, p) == cell(m, p))),
{
    let center = st3.center;
    let t1 = (st3.temp - 2) as i32;
    let t2 = (st3.temp - 1) as i32;
    let (_, code) = compile(st3, e, t1)->0;
    lemma_clear(center, t1, m, fuel);
    let m1 = set(m, t1 as int, 0);
    lemma_holds_set(m, center as int, vars, env, t1 as int, 0);
    lemma_clear(center, t2, m1, fuel);
    let m2 = set(m1, t2 as int, 0);
    lemma_holds_set(m1, center as int, vars, env, t2 as int, 0);
    lemma_expr_runs(st3, e, t1, m2, vars, env, fuel);
    let m3 = run_program(code, m2, fuel)->0;
    let val = eval(e, env);
    lemma_clear(center, var, m3, fuel);
    let m4 = set(m3, var as int, 0);
    assert(cell(m3, t2 as int) == cell(m2, t2 as int));
    assert(cell(m4, t2 as int) == 0);
    lemma_copy(center, t1, t2, var, m4, fuel);
    let m5 = set(m4, var as int, wrap(0 + val));
    lemma_byte_wrap(val as int);
    let a1 = cat(clear_cell_code(center, t1), clear_cell_code(center, t2));
    let a2 = cat(a1, Some(code));
    let a3 = cat(a2, clear_cell_code(center, var));
    lemma_runs_cat(a3, copy_cell_code(center, t1, t2, var), m, fuel);
    lemma_runs_cat(a2, clear_cell_code(center, var), m, fuel);
    lemma_runs_cat(a1, Some(code), m, fuel);
    lemma_runs_cat(clear_cell_code(center, t1), clear_cell_code(center, t2), m, fuel);
    let env2 = assigned(env, name, val);
    assert(holds_vars(m5, center as int, vars, env2)) by {
        reveal(holds_vars);
        assert forall|j: int| 0 <= j < vars.len() && index_of(vars, #[trigger] vars[j]) == Some(j) implies cell(m5, center - 1 - j) == env2(vars[j]) by {
            if vars[j] != name {
                assert(cell(m3, center - 1 - j) == cell(m2, center - 1 - j));
            }
        }
    }
    assert forall|p: int| center <= p < st3.temp - 2 implies #[trigger] cell(m5, p) == cell(m, p) by {
        assert(cell(m3, p) == cell(m2, p));
    }
}

#[verifier::rlimit(60)]
proof fn lemma_assign_runs(st: SimpState, s: InstrModel, target: i32, m: Machine, vars: Seq<Seq<char>>, r: SimpRun, fuel: nat)
    requires
        compile(st, s, target) matches Some((st2, _)) && st2.vars.is_prefix_of(vars),
        s.opcode == simp::op::ASSIGN@,
        simple_stmt(s),
        stmt_ready(st, m, vars, r),
        fuel >= 256,
    ensures
        stmt_runs(st, s, target, m, vars, r, fuel),
{
    simp::emitter::lemma_opcodes();
    assert(compile(st, s, target) == compile_assign(st, s, target));
    let v = value_operand(s.operands, 0)->0;
    let name = crate::ir::value_text(v);
    let e = instr_operand(s.operands, 1)->0;
    let (st1, t1) = push_temp_spec(st)->0;
    let (st2, t2) = push_temp_spec(st1)->0;
    let (st3, var) = push_or_get_var_spec(st2, name)->0;
    law_compile_keeps_frame(st3, e, t1);
    let (st4, code) = compile(st3, e, t1)->0;
    let (st6, _) = compile(st, s, target)->0;
    assert(st6.vars == st4.vars);
    lemma_prefix_trans(st3.vars, st4.vars, vars);
    let k = lemma_push_or_get(st2, name, vars);
    lemma_assign_code(st3, e, var, k, name, m, vars, r.env, fuel);
    assert(exec(s, r) == SimpRun { env: assigned(r.env, name, eval(e, r.env)), out: r.out });
}

#[verifier::rlimit(100)]
#[verifier::spinoff_prover]
proof fn lemma_print_runs(st: SimpState, s: InstrModel, target: i32, m: Machine, vars: Seq<Seq<char>>, r: SimpRun, fuel: nat)
    requires
        compile(st, s, target) matches Some((st2, _)) && st2.vars.is_prefix_of(vars),
        s.opcode == simp::op::PRINT@,
        simple_stmt(s),
        stmt_ready(st, m, vars, r),
        fuel >= 256,
    ensures
        stmt_runs(st, s, target, m, vars, r, fuel),
{
    simp::emitter::lemma_opcodes();
    lemma_opcodes();
    let center = st.center;
    let env = r.env;
    assert(compile(st, s, target) == compile_print(st, s, target));
    let x = instr_operand(s.operands, 0)->0;
    let (st1, t) = push_temp_spec(st)->0;
    law_compile_keeps_frame(st1, x, t);
    let (st2, c) = compile(st1, x, t)->0;
    lemma_prefix_trans(st1.vars, st2.vars, vars);
    lemma_clear(center, t, m, fuel);
    let m1 = set(m, t as int, 0);
    lemma_holds_set(m, center as int, vars, env, t as int, 0);
    assert(st1.vars =~= st.vars);
    lemma_expr_runs(st1, x, t, m1, vars, env, fuel);
    let m2 = run_program(c, m1, fuel)->0;
    lemma_holds_kept(m1, m2, center as int, vars, env, t + 1, t as int);
    lemma_move_between(center, t, m2, fuel);
    let m3 = shifted(m2, t - center);
    let out = leaf_model(bf::op::OUTPUT@);
    lemma_run_one(out, m3, fuel);
    let m4 = Machine { output: m3.output.push((m3.tape)(m3.ptr)), ..m3 };
    lemma_move_between(t, center, m4, fuel);
    let m5 = shifted(m4, center - t);
    let a1 = cat(clear_cell_code(center, t), Some(c));
    let a2 = cat(a1, move_between(center, t));
    let a3 = cat(a2, one(out));
    lemma_runs_cat(a3, move_between(t, center), m, fuel);
    lemma_runs_cat(a2, one(out), m, fuel);
    lemma_runs_cat(a1, move_between(center, t), m, fuel);
    lemma_runs_cat(clear_cell_code(center, t), Some(c), m, fuel);
    assert(exec(s, r) == SimpRun { env, out: r.out.push(eval(x, env)) });
    assert(holds_vars(m5, center as int, vars, env)) by {
        reveal(holds_vars);
    }
    assert forall|p: int| center <= p < st.temp implies #[trigger] cell(m5, p) == cell(m, p) by {
        assert(cell(m2, p) == cell(m1, p));
    }
}

/// The body of the loop of a counted loop: the statements, then one off the count.
pub open spec fn count_body(center: i32, t1: i32, b: Seq<InstrModel>) -> Option<Seq<InstrModel>> {
    cat(cat(cat(Some(b), move_between(center, t1)), one(leaf_model(bf::op::DECR@))), move_between(t1, center))
}

/// The loop of a counted loop runs its body as many times as the count.
#[verifier::rlimit(60)]
proof fn lemma_count_loop(
    st3: SimpState,
    ops: Seq<OperandModel>,
    t2: i32,
    m: Machine,
    vars: Seq<Seq<char>>,
    r: SimpRun,
    k: nat,
    fuel: nat,
)
    requires
        compile_body(st3, ops, t2) matches Some((st4, b)) && st4.vars.is_prefix_of(vars) && count_body(
            st3.center,
            st3.center,
            b,
        ) is Some,
        all_simple(ops),
        st3.temp == st3.center + 2,
        stmt_ready(st3, m, vars, r),
        cell(m, st3.center as int) == k,
        fuel >= 256 + k,
    ensures
        compile_body(st3, ops, t2) matches Some((_, b)) && (run_instr(
            loop_model(count_body(st3.center, st3.center, b)->0),
            m,
            fuel,
        ) matches Some(m2) && m2.ptr == st3.center && holds_vars(m2, st3.center as int, vars, repeat(ops, k, r).env)
            && m2.output == repeat(ops, k, r).out && m2.input == m.input && m2.floor == m.floor),
    decreases ops, k + 1,
{
    lemma_opcodes();
    let center = st3.center;
    let (_, b) = compile_body(st3, ops, t2)->0;
    let lb = count_body(center, center, b)->0;
    if k > 0 {
        lemma_body_runs(st3, ops, t2, m, vars, r, fuel, false);
        let m1 = run_program(b, m, fuel)->0;
        let r1 = exec_all(ops, r);
        assert(cell(m1, center as int) == k);
        lemma_move_between(center, center, m1, fuel);
        assert(shifted(m1, 0) =~= m1);
        lemma_step(leaf_model(bf::op::DECR@), m1, fuel);
        let m2 = set(m1, center as int, wrap(k - 1));
        lemma_move_between(center, center, m2, fuel);
        assert(shifted(m2, 0) =~= m2);
        let a1 = cat(Some(b), move_between(center, center));
        let a2 = cat(a1, one(leaf_model(bf::op::DECR@)));
        lemma_runs_cat(a2, move_between(center, center), m, fuel);
        lemma_runs_cat(a1, one(leaf_model(bf::op::DECR@)), m, fuel);
        lemma_runs_cat(Some(b), move_between(center, center), m, fuel);
        lemma_holds_set(m1, center as int, vars, r1.env, center as int, wrap(k - 1));
        assert(cell(m2, center as int) == k - 1);
        assert(run_ops(loop_model(lb).operands, m, fuel) == Some(m2));
        lemma_count_loop(st3, ops, t2, m2, vars, r1, (k - 1) as nat, (fuel - 1) as nat);
    }
}

#[verifier::rlimit(100)]
#[verifier::spinoff_prover]
proof fn lemma_loop_runs(st: SimpState, s: InstrModel, target: i32, m: Machine, vars: Seq<Seq<char>>, r: SimpRun, fuel: nat)
    requires
        compile(st, s, target) matches Some((st2, _)) && st2.vars.is_prefix_of(vars),
        s.opcode == simp::op::LOOP@,
        top_stmt(s),
        stmt_ready(st, m, vars, r),
        st.temp == st.center,
        fuel >= 512,
    ensures
        stmt_runs(st, s, target, m, vars, r, fuel),
    decreases s, 0nat,
{
    simp::emitter::lemma_opcodes();
    lemma_opcodes();
    let center = st.center;
    let env = r.env;
    assert(compile(st, s, target) == compile_loop(st, s, target));
    let count = instr_operand(s.operands, 0)->0;
    let body = instr_operand(s.operands, 1)->0;
    assert(decreases_to!(s => body));
    assert(decreases_to!(s => body.operands));
    let (st1, t1) = push_temp_spec(st)->0;
    let (st2, t2) = push_temp_spec(st1)->0;
    law_compile_keeps_frame(st2, count, t1);
    let (st3, c) = compile(st2, count, t1)->0;
    assert(compile(st3, body, t2) == compile_body(st3, body.operands, t2));
    let (st4, b) = compile(st3, body, t2)->0;
    law_compile_keeps_frame(st3, body, t2);
    let (st6, _) = compile(st, s, target)->0;
    assert(st6.vars == st4.vars);
    lemma_prefix_trans(st2.vars, st3.vars, st4.vars);
    assert(st.vars =~= st2.vars);
    // the count, into t1
    lemma_clear(center, t1, m, fuel);
    let ma = set(m, t1 as int, 0);
    lemma_holds_set(m, center as int, vars, env, t1 as int, 0);
    lemma_clear(center, t2, ma, fuel);
    let mb = set(ma, t2 as int, 0);
    lemma_holds_set(ma, center as int, vars, env, t2 as int, 0);
    lemma_prefix_trans(st2.vars, st4.vars, vars);
    lemma_expr_runs(st2, count, t1, mb, vars, env, fuel);
    let mc = run_program(c, mb, fuel)->0;
    lemma_holds_kept(mb, mc, center as int, vars, env, t1 + 2, t1 as int);
    let n = eval(count, env);
    // the loop
    lemma_run_one(loop_model(count_body(center, center, b)->0), mc, fuel);
    lemma_count_loop(st3, body.operands, t2, mc, vars, r, n as nat, fuel);
    let a1 = cat(clear_cell_code(center, t1), clear_cell_code(center, t2));
    let a2 = cat(a1, Some(c));
    lemma_runs_cat(a2, one(loop_model(count_body(center, center, b)->0)), m, fuel);
    lemma_runs_cat(a1, Some(c), m, fuel);
    lemma_runs_cat(clear_cell_code(center, t1), clear_cell_code(center, t2), m, fuel);
    assert(exec(s, r) == repeat(body.operands, n as nat, r));
}

/// The code of a statement does what the statement does.
proof fn lemma_stmt_runs(st: SimpState, s: InstrModel, target: i32, m: Machine, vars: Seq<Seq<char>>, r: SimpRun, fuel: nat, top: bool)
    requires
        compile(st, s, target) matches Some((st2, _)) && st2.vars.is_prefix_of(vars),
        if top { top_stmt(s) && st.temp == st.center && fuel >= 512 } else { simple_stmt(s) && fuel >= 256 },
        stmt_ready(st, m, vars, r),
    ensures
        stmt_runs(st, s, target, m, vars, r, fuel),
    decreases s, 1nat,
{
    if s.opcode == simp::op::ASSIGN@ {
        lemma_assign_runs(st, s, target, m, vars, r, fuel);
    } else if s.opcode == simp::op::PRINT@ {
        lemma_print_runs(st, s, target, m, vars, r, fuel);
    } else {
        lemma_loop_runs(st, s, target, m, vars, r, fuel);
    }
}

/// The code of some statements does what they do, one after the other.
proof fn lemma_body_runs(st: SimpState, ops: Seq<OperandModel>, target: i32, m: Machine, vars: Seq<Seq<char>>, r: SimpRun, fuel: nat, top: bool)
    requires
        compile_body(st, ops, target) matches Some((st2, _)) && st2.vars.is_prefix_of(vars),
        if top { all_top(ops) && st.temp == st.center && fuel >= 512 } else { all_simple(ops) && fuel >= 256 },
        stmt_ready(st, m, vars, r),
    ensures
        compile_body(st, ops, target) matches Some((st2, code)) && st2.center == st.center && st2.temp == st.temp
            && (run_program(code, m, fuel) matches Some(m2) && m2.ptr == st.center
            && holds_vars(m2, st.center as int, vars, exec_all(ops, r).env) && m2.output == exec_all(ops, r).out
            && m2.input == m.input && m2.floor == m.floor && (forall|p: int| st.center <= p < st.temp ==> #[trigger] cell(m2, p) == cell(m, p))),
    decreases ops, 0nat,
{
    if ops.len() == 0 {
        assert(as_operands(Seq::<InstrModel>::empty()) =~= Seq::<OperandModel>::empty());
    } else {
        let dl = ops.drop_last();
        let (st1, a) = compile_body(st, dl, target)->0;
        assert(decreases_to!(ops => ops[ops.len() - 1]));
        if let OperandModel::Instruction(t) = ops.last() {
            law_compile_keeps_frame(st1, t, target);
            let (st2, b) = compile(st1, t, target)->0;
            lemma_prefix_trans(st1.vars, st2.vars, vars);
            assert(if top { all_top(dl) } else { all_simple(dl) }) by {
                if top {
                    assert forall|k: int| 0 <= k < dl.len() implies (#[trigger] dl[k] matches OperandModel::Instruction(u) && top_stmt(u)) by {
                        assert(dl[k] == ops[k]);
                    }
                } else {
                    assert forall|k: int| 0 <= k < dl.len() implies (#[trigger] dl[k] matches OperandModel::Instruction(u) && simple_stmt(u)) by {
                        assert(dl[k] == ops[k]);
                    }
                }
            }
            lemma_body_runs(st, dl, target, m, vars, r, fuel, top);
            let m1 = run_program(a, m, fuel)->0;
            let r1 = exec_all(dl, r);
            assert(ops[ops.len() - 1] == ops.last());
            lemma_stmt_runs(st1, t, target, m1, vars, r1, fuel, top);
            lemma_run_concat(a, b, m, fuel);
        }
    }
}

// # The law

/// A machine at its start: every cell zero, the pointer on cell zero, nothing output,
/// and the pointer kept at or above `floor`.
pub open spec fn start_machine(input: Seq<u8>, floor: int) -> Machine {
    Machine { tape: |q: int| 0u8, ptr: 0, input, output: Seq::empty(), floor }
}

/// The lowest cell that the compiled code of a program reaches: zero, or the cell of
/// its last variable where that is lower.
pub open spec fn lowest_cell(st: SimpState) -> int {
    if st.center - st.vars.len() < 0 {
        st.center - st.vars.len()
    } else {
        0
    }
}

/// A Simp program at its start: every variable zero, nothing output.
pub open spec fn start_run() -> SimpRun {
    SimpRun { env: |n: Seq<char>| 0u8, out: Seq::empty() }
}

/// Law: where a fresh compiler compiles a module whose statements are assignments
/// and prints of expressions, and loops whose bodies hold only such statements, and
/// whose constants are not negative, the Brainfuck that it gives, run from a zero
/// tape, outputs one byte for each print that the Simp program runs: the printed
/// value, with byte arithmetic (a loop runs its body as many times as its count was
/// on entry). The pointer never goes below [`lowest_cell`]: below cell zero only
/// where the compiler has more variables than its center, that is where a variable
/// is first assigned inside a loop.
pub proof fn law_compiled_program_runs(m: crate::ir::ModuleModel, input: Seq<u8>)
    requires
        all_top(as_operands(m.instructions)),
        compile_module(SimpState { center: 0, temp: 0, vars: Seq::empty() }, m) matches Some((st2, _)) && st2.vars.len() <= i32::MAX,
    ensures
        compile_module(SimpState { center: 0, temp: 0, vars: Seq::empty() }, m) matches Some((st2, bfm)) && (run_program(
            bfm.instructions,
            start_machine(input, lowest_cell(st2)),
            512,
        ) matches Some(m2) && m2.output == exec_all(as_operands(m.instructions), start_run()).out),
{
    let init = SimpState { center: 0, temp: 0, vars: Seq::empty() };
    let names = super::simp_to_bf::assigned_names(m.instructions)->0;
    let center = (names.len() as usize) as i32;
    let st1 = SimpState { center, temp: center, vars: init.vars };
    let pre = moves(center)->0;
    let (st2, code) = compile_program(st1, m.instructions)->0;
    super::simp_to_bf::lemma_body_frame(st1, as_operands(m.instructions), 0);
    let vars = st2.vars;
    let z = start_machine(input, lowest_cell(st2));
    assert(move_between(0, center) == moves(center));
    lemma_move_between(0, center, z, 512);
    let m1 = shifted(z, center as int);
    assert(holds_vars(m1, center as int, vars, start_run().env)) by {
        reveal(holds_vars);
    }
    assert(vars =~= vars.subrange(0, vars.len() as int));
    lemma_body_runs(st1, as_operands(m.instructions), 0, m1, vars, start_run(), 512, true);
    lemma_run_concat(pre, code, z, 512);
}

} // verus!
