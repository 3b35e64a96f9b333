//! Simp to Brainfuck. The tape holds two stacks around a center cell: the variables
//! from `center - 1` downwards, in the order they are first assigned, and temporary
//! cells from `center` upwards. Between two steps the data pointer rests on the
//! center.
use vstd::prelude::*;

use super::bbf_to_bf::{push_steps, repeat_instr, step_model};
use crate::brainfuck as bf;
use crate::brainfuck::syntax::{leaf_model, loop_model};
use crate::ir::{
    as_operands, instrs_model, lemma_instr_model, operands_model, InstrModel, Instruction, Module, Operand,
    OperandModel, Value, ValueModel,
};
use crate::errors::CompileError;
use crate::pipeline::{RunOutcome, Transformation};
use crate::simp;
use crate::simp::SimpValue;
use crate::text::text_is;

verus! {

/// Compiles Simp into Brainfuck.
pub struct SimpToBrainfuck {
    center: i32,
    temp_stack_ptr: i32,
    variables: Vec<String>,
}

/// Mathematical model of a [`SimpToBrainfuck`]: the center cell, the next free
/// temporary cell, and the names of the variables (the `k`-th at `center - 1 - k`).
pub struct SimpState {
    pub center: i32,
    pub temp: i32,
    pub vars: Seq<Seq<char>>,
}

/// The names of a sequence of strings.
pub open spec fn names_model(s: Seq<String>) -> Seq<Seq<char>> {
    s.map_values(|n: String| n@)
}

impl View for SimpToBrainfuck {
    type V = SimpState;

    closed spec fn view(&self) -> SimpState {
        SimpState {
            center: self.center,
            temp: self.temp_stack_ptr,
            vars: names_model(self.variables@),
        }
    }
}

// # Code pieces

/// Two pieces of code one after the other; `None` where either aborts.
pub open spec fn cat(a: Option<Seq<InstrModel>>, b: Option<Seq<InstrModel>>) -> Option<Seq<InstrModel>> {
    match (a, b) {
        (Some(x), Some(y)) => Some(x + y),
        _ => None,
    }
}

/// `x` moves of the pointer: right where `x` is positive, else left; `i32::MIN` has no
/// negation.
pub open spec fn moves(x: i32) -> Option<Seq<InstrModel>> {
    if x > 0 {
        Some(repeat_instr(leaf_model(bf::op::PTR_RIGHT@), x as nat))
    } else if x == i32::MIN {
        None
    } else {
        Some(repeat_instr(leaf_model(bf::op::PTR_LEFT@), (-x) as nat))
    }
}

/// The moves from cell `from` to cell `to`; `None` where the distance overflows.
pub open spec fn move_between(from: i32, to: i32) -> Option<Seq<InstrModel>> {
    if i32::MIN <= to - from <= i32::MAX {
        moves((to - from) as i32)
    } else {
        None
    }
}

/// A loop over a piece of code.
pub open spec fn loop_over(body: Option<Seq<InstrModel>>) -> Option<Seq<InstrModel>> {
    match body {
        Some(b) => Some(seq![loop_model(b)]),
        None => None,
    }
}

/// A single instruction.
pub open spec fn one(i: InstrModel) -> Option<Seq<InstrModel>> {
    Some(seq![i])
}

/// Sets `cell` to zero and comes back to the center.
pub open spec fn clear_cell_code(center: i32, cell: i32) -> Option<Seq<InstrModel>> {
    cat(
        cat(move_between(center, cell), loop_over(one(leaf_model(bf::op::DECR@)))),
        move_between(cell, center),
    )
}

/// Adds `from` to `to` through `temp` (which must be zero), leaving `from` unchanged,
/// and comes back to the center.
pub open spec fn copy_cell_code(center: i32, from: i32, temp: i32, to: i32) -> Option<Seq<InstrModel>> {
    let first = cat(
        cat(
            cat(
                cat(
                    cat(move_between(from, to), one(leaf_model(bf::op::INCR@))),
                    move_between(to, temp),
                ),
                one(leaf_model(bf::op::INCR@)),
            ),
            move_between(temp, from),
        ),
        one(leaf_model(bf::op::DECR@)),
    );
    let second = cat(
        cat(
            cat(move_between(temp, from), one(leaf_model(bf::op::INCR@))),
            move_between(from, temp),
        ),
        one(leaf_model(bf::op::DECR@)),
    );
    cat(
        cat(
            cat(cat(move_between(center, from), loop_over(first)), move_between(from, temp)),
            loop_over(second),
        ),
        move_between(temp, center),
    )
}

/// Adds an integer to `target` (nothing for an integer that is not positive).
pub open spec fn int_value_code(center: i32, value: i64, target: i32) -> Option<Seq<InstrModel>> {
    cat(
        cat(
            move_between(center, target),
            Some(
                repeat_instr(
                    leaf_model(bf::op::INCR@),
                    if value > 0 {
                        value as nat
                    } else {
                        0
                    },
                ),
            ),
        ),
        move_between(target, center),
    )
}

/// Adds two cells to `target` through `temp`.
pub open spec fn add_cells_code(center: i32, first: i32, second: i32, temp: i32, target: i32) -> Option<
    Seq<InstrModel>,
> {
    cat(copy_cell_code(center, first, temp, target), copy_cell_code(center, second, temp, target))
}

/// Sets `target` to `second - first` through `temp`, emptying `first`.
pub open spec fn subtract_code(center: i32, first: i32, second: i32, temp: i32, target: i32) -> Option<
    Seq<InstrModel>,
> {
    let body = cat(
        cat(
            cat(move_between(first, target), one(leaf_model(bf::op::DECR@))),
            move_between(target, first),
        ),
        one(leaf_model(bf::op::DECR@)),
    );
    cat(
        cat(
            cat(
                cat(clear_cell_code(center, target), copy_cell_code(center, second, temp, target)),
                move_between(center, first),
            ),
            loop_over(body),
        ),
        move_between(first, center),
    )
}

// # The stacks

/// The next free temporary cell, which is then taken; `None` where the pointer
/// overflows.
pub open spec fn push_temp_spec(st: SimpState) -> Option<(SimpState, i32)> {
    if st.temp == i32::MAX {
        None
    } else {
        Some((SimpState { temp: (st.temp + 1) as i32, ..st }, st.temp))
    }
}

/// Gives back the last temporary cell; `None` where none is taken (the stack would
/// underflow) or the pointer overflows.
pub open spec fn pop_temp_spec(st: SimpState) -> Option<SimpState> {
    if st.temp == st.center || st.temp == i32::MIN {
        None
    } else {
        Some(SimpState { temp: (st.temp - 1) as i32, ..st })
    }
}

/// The first position of a name among the variables.
pub open spec fn index_of(vars: Seq<Seq<char>>, name: Seq<char>) -> Option<int>
    decreases vars.len(),
{
    if vars.len() == 0 {
        None
    } else {
        match index_of(vars.drop_last(), name) {
            Some(k) => Some(k),
            None => if vars.last() == name {
                Some(vars.len() - 1)
            } else {
                None
            },
        }
    }
}

/// The cell of the variable at position `k` (a position converted to an `i32`);
/// `None` where the arithmetic overflows.
pub open spec fn var_cell(center: i32, k: i32) -> Option<i32> {
    if i32::MIN <= center - 1 - k <= i32::MAX && center > i32::MIN {
        Some((center - 1 - k) as i32)
    } else {
        None
    }
}

/// The cell of a variable, which is added first where it is new.
pub open spec fn push_or_get_var_spec(st: SimpState, name: Seq<char>) -> Option<(SimpState, i32)> {
    match index_of(st.vars, name) {
        Some(k) => match var_cell(st.center, (k as usize) as i32) {
            Some(c) => Some((st, c)),
            None => None,
        },
        None => {
            let vars = st.vars.push(name);
            let l = (vars.len() as usize) as i32;
            if l == i32::MIN {
                None
            } else {
                match var_cell(st.center, (l - 1) as i32) {
                    Some(c) => Some((SimpState { vars, ..st }, c)),
                    None => None,
                }
            }
        },
    }
}

/// The cell of a known variable; `None` where it is unknown.
pub open spec fn get_var_spec(st: SimpState, name: Seq<char>) -> Option<i32> {
    match index_of(st.vars, name) {
        Some(k) => var_cell(st.center, (k as usize) as i32),
        None => None,
    }
}

// # Compilation

/// The instruction operand at position `k`.
pub open spec fn instr_operand(ops: Seq<OperandModel>, k: int) -> Option<InstrModel> {
    if 0 <= k < ops.len() {
        match ops[k] {
            OperandModel::Instruction(i) => Some(i),
            _ => None,
        }
    } else {
        None
    }
}

/// The value operand at position `k`.
pub open spec fn value_operand(ops: Seq<OperandModel>, k: int) -> Option<ValueModel> {
    if 0 <= k < ops.len() {
        match ops[k] {
            OperandModel::Value(v) => Some(v),
            _ => None,
        }
    } else {
        None
    }
}

/// Code after code: the state threads through.
pub open spec fn then(
    a: Option<(SimpState, Seq<InstrModel>)>,
    b: Option<Seq<InstrModel>>,
) -> Option<(SimpState, Seq<InstrModel>)> {
    match (a, b) {
        (Some((st, x)), Some(y)) => Some((st, x + y)),
        _ => None,
    }
}

/// The code of an assignment: the value is computed in a temporary cell, then copied
/// into the variable's cell after clearing it.
pub open spec fn compile_assign(st: SimpState, i: InstrModel, target: i32) -> Option<(SimpState, Seq<InstrModel>)>
    decreases i, 0nat,
{
    match value_operand(i.operands, 0) {
        None => None,
        Some(v) => {
            let name = crate::ir::value_text(v);
            match push_temp_spec(st) {
                None => None,
                Some((st1, t1)) => match push_temp_spec(st1) {
                    None => None,
                    Some((st2, t2)) => match push_or_get_var_spec(st2, name) {
                        None => None,
                        Some((st3, var)) => match instr_operand(i.operands, 1) {
                            None => None,
                            Some(value) => match compile(st3, value, t1) {
                                None => None,
                                Some((st4, code)) => match pop_temp_spec(st4) {
                                    None => None,
                                    Some(st5) => match pop_temp_spec(st5) {
                                        None => None,
                                        Some(st6) => match cat(
                                            cat(
                                                cat(
                                                    cat(
                                                        clear_cell_code(st.center, t1),
                                                        clear_cell_code(st.center, t2),
                                                    ),
                                                    Some(code),
                                                ),
                                                clear_cell_code(st.center, var),
                                            ),
                                            copy_cell_code(st.center, t1, t2, var),
                                        ) {
                                            Some(all) => Some((st6, all)),
                                            None => None,
                                        },
                                    },
                                },
                            },
                        },
                    },
                },
            }
        },
    }
}

/// The code of an operation between two expressions, each computed in a temporary
/// cell: their sum, or the first minus the second, is added to `target`.
pub open spec fn compile_arith(st: SimpState, i: InstrModel, target: i32, is_add: bool) -> Option<(SimpState, Seq<InstrModel>)>
    decreases i, 0nat,
{
    match (instr_operand(i.operands, 0), instr_operand(i.operands, 1)) {
        (Some(first), Some(second)) => match push_temp_spec(st) {
            None => None,
            Some((st1, t1)) => match compile(st1, first, t1) {
                None => None,
                Some((st2, c1)) => match push_temp_spec(st2) {
                    None => None,
                    Some((st3, t2)) => match compile(st3, second, t2) {
                        None => None,
                        Some((st4, c2)) => match push_temp_spec(st4) {
                            None => None,
                            Some((st5, t3)) => {
                                let combine = if is_add {
                                    add_cells_code(st.center, t1, t2, t3, target)
                                } else {
                                    subtract_code(st.center, t2, t1, t3, target)
                                };
                                match pop_temp_spec(st5) {
                                    None => None,
                                    Some(st6) => match pop_temp_spec(st6) {
                                        None => None,
                                        Some(st7) => match pop_temp_spec(st7) {
                                            None => None,
                                            Some(st8) => match cat(
                                                cat(
                                                    cat(
                                                        cat(
                                                            cat(clear_cell_code(st.center, t1), Some(c1)),
                                                            clear_cell_code(st.center, t2),
                                                        ),
                                                        Some(c2),
                                                    ),
                                                    clear_cell_code(st.center, t3),
                                                ),
                                                combine,
                                            ) {
                                                Some(all) => Some((st8, all)),
                                                None => None,
                                            },
                                        },
                                    },
                                }
                            },
                        },
                    },
                },
            },
        },
        _ => None,
    }
}

/// The code of a loop: the count is computed in a temporary cell, and the body runs,
/// then decrements that cell, while the cell under the pointer is not zero.
pub open spec fn compile_loop(st: SimpState, i: InstrModel, target: i32) -> Option<(SimpState, Seq<InstrModel>)>
    decreases i, 0nat,
{
    match (instr_operand(i.operands, 0), instr_operand(i.operands, 1)) {
        (Some(count), Some(body)) => match push_temp_spec(st) {
            None => None,
            Some((st1, t1)) => match push_temp_spec(st1) {
                None => None,
                Some((st2, t2)) => match compile(st2, count, t1) {
                    None => None,
                    Some((st3, c)) => match compile(st3, body, t2) {
                        None => None,
                        Some((st4, b)) => match cat(
                            cat(cat(Some(b), move_between(st.center, t1)), one(leaf_model(bf::op::DECR@))),
                            move_between(t1, st.center),
                        ) {
                            None => None,
                            Some(loop_body) => match pop_temp_spec(st4) {
                                None => None,
                                Some(st5) => match pop_temp_spec(st5) {
                                    None => None,
                                    Some(st6) => match cat(
                                        cat(
                                            cat(clear_cell_code(st.center, t1), clear_cell_code(st.center, t2)),
                                            Some(c),
                                        ),
                                        one(loop_model(loop_body)),
                                    ) {
                                        Some(all) => Some((st6, all)),
                                        None => None,
                                    },
                                },
                            },
                        },
                    },
                },
            },
        },
        _ => None,
    }
}

/// The code of a constant: it is added to `target`.
pub open spec fn compile_constant(st: SimpState, i: InstrModel, target: i32) -> Option<(SimpState, Seq<InstrModel>)> {
    match value_operand(i.operands, 0) {
        Some(ValueModel::SimpInt(n)) => match push_temp_spec(st) {
            None => None,
            Some((st1, t)) => match pop_temp_spec(st1) {
                None => None,
                Some(st2) => match cat(clear_cell_code(st.center, t), int_value_code(st.center, n, target)) {
                    Some(all) => Some((st2, all)),
                    None => None,
                },
            },
        },
        _ => None,
    }
}

/// The code of a variable read: its cell is added to `target`, through a temporary
/// cell.
pub open spec fn compile_variable(st: SimpState, i: InstrModel, target: i32) -> Option<(SimpState, Seq<InstrModel>)> {
    match value_operand(i.operands, 0) {
        None => None,
        Some(v) => {
            let name = crate::ir::value_text(v);
            match push_temp_spec(st) {
                None => None,
                Some((st1, t)) => match get_var_spec(st1, name) {
                    None => None,
                    Some(var) => match pop_temp_spec(st1) {
                        None => None,
                        Some(st2) => match cat(clear_cell_code(st.center, t), copy_cell_code(st.center, var, t, target)) {
                            Some(all) => Some((st2, all)),
                            None => None,
                        },
                    },
                },
            }
        },
    }
}

/// The code of a print: the value is computed in a temporary cell, which is output.
pub open spec fn compile_print(st: SimpState, i: InstrModel, target: i32) -> Option<(SimpState, Seq<InstrModel>)>
    decreases i, 0nat,
{
    match instr_operand(i.operands, 0) {
        None => None,
        Some(value) => match push_temp_spec(st) {
            None => None,
            Some((st1, t)) => match compile(st1, value, t) {
                None => None,
                Some((st2, c)) => match pop_temp_spec(st2) {
                    None => None,
                    Some(st3) => match cat(
                        cat(
                            cat(cat(clear_cell_code(st.center, t), Some(c)), move_between(st.center, t)),
                            one(leaf_model(bf::op::OUTPUT@)),
                        ),
                        move_between(t, st.center),
                    ) {
                        Some(all) => Some((st3, all)),
                        None => None,
                    },
                },
            },
        },
    }
}

/// The code of one Simp instruction that leaves its value (if any) in `target`, with
/// the state after it; `None` where compiling aborts: an operand is
/// missing or of the wrong kind, a variable is read before it is assigned, a constant
/// is not a Simp integer, an opcode is unknown, or the cell arithmetic overflows.
pub open spec fn compile(st: SimpState, i: InstrModel, target: i32) -> Option<(SimpState, Seq<InstrModel>)>
    decreases i, 1nat,
{
    if i.opcode == simp::op::ASSIGN@ {
        compile_assign(st, i, target)
    } else if i.opcode == simp::op::CONSTANT@ {
        compile_constant(st, i, target)
    } else if i.opcode == simp::op::VARIABLE@ {
        compile_variable(st, i, target)
    } else if i.opcode == simp::op::ADD@ {
        compile_arith(st, i, target, true)
    } else if i.opcode == simp::op::SUB@ {
        compile_arith(st, i, target, false)
    } else if i.opcode == simp::op::PRINT@ {
        compile_print(st, i, target)
    } else if i.opcode == simp::op::LOOP@ {
        compile_loop(st, i, target)
    } else if i.opcode == simp::op::BODY@ {
        compile_body(st, i.operands, target)
    } else {
        None
    }
}

/// The code of the statements of a body, left to right, each leaving its value in
/// `target`.
pub open spec fn compile_body(st: SimpState, ops: Seq<OperandModel>, target: i32) -> Option<(SimpState, Seq<InstrModel>)>
    decreases ops,
{
    if ops.len() == 0 {
        Some((st, Seq::empty()))
    } else {
        match compile_body(st, ops.drop_last(), target) {
            None => None,
            Some((st1, a)) => match ops.last() {
                OperandModel::Instruction(s) => match compile(st1, s, target) {
                    None => None,
                    Some((st2, b)) => Some((st2, a + b)),
                },
                OperandModel::Value(_) => None,
            },
        }
    }
}

/// The model of an optional piece of code.
pub open spec fn code_model(c: Option<Vec<Instruction>>) -> Option<Seq<InstrModel>> {
    match c {
        Some(v) => Some(instrs_model(v@)),
        None => None,
    }
}

/// Appends a piece of code; `false` where there is none.
fn append_code(out: &mut Vec<Instruction>, code: Option<Vec<Instruction>>) -> (ok: bool)
    ensures
        ok == (code is Some),
        ok ==> instrs_model(final(out)@) == instrs_model(old(out)@) + instrs_model(code->0@),
{
    match code {
        Some(mut v) => {
            let ghost a = out@;
            let ghost b = v@;
            out.append(&mut v);
            assert(instrs_model(out@) =~= instrs_model(a) + instrs_model(b));
            true
        },
        None => false,
    }
}

/// Appends one instruction.
fn push_one(out: &mut Vec<Instruction>, i: Instruction)
    ensures
        instrs_model(final(out)@) == instrs_model(old(out)@) + seq![i@],
{
    let ghost a = out@;
    out.push(i);
    assert(instrs_model(out@) =~= instrs_model(a) + seq![i@]);
}

impl SimpToBrainfuck {
    /// A compiler with its center at cell zero and no variables.
    pub fn new() -> (r: Self)
        ensures
            r@ == (SimpState { center: 0, temp: 0, vars: Seq::empty() }),
    {
        let r = SimpToBrainfuck { variables: Vec::new(), center: 0, temp_stack_ptr: 0 };
        assert(names_model(r.variables@) =~= Seq::<Seq<char>>::empty());
        r
    }

    /// Puts the center at `center`, with no temporary cell taken.
    fn set_center(&mut self, center: i32)
        ensures
            final(self)@ == (SimpState { center, temp: center, vars: old(self)@.vars }),
    {
        self.center = center;
        self.temp_stack_ptr = center;
    }

    /// Takes the next free temporary cell.
    fn push_temp(&mut self) -> (r: Option<i32>)
        ensures
            match push_temp_spec(old(self)@) {
                None => r is None,
                Some((st, t)) => r == Some(t) && final(self)@ == st,
            },
    {
        if self.temp_stack_ptr == i32::MAX {
            return None;
        }
        let temp_cell = self.temp_stack_ptr;
        self.temp_stack_ptr = self.temp_stack_ptr + 1;
        Some(temp_cell)
    }

    /// Gives back the last temporary cell.
    fn pop_temp(&mut self) -> (ok: bool)
        ensures
            match pop_temp_spec(old(self)@) {
                None => !ok,
                Some(st) => ok && final(self)@ == st,
            },
    {
        if self.temp_stack_ptr == self.center || self.temp_stack_ptr == i32::MIN {
            return false;
        }
        self.temp_stack_ptr = self.temp_stack_ptr - 1;
        true
    }

    /// The position of a variable.
    fn position(&self, name: &String) -> (r: Option<usize>)
        ensures
            match index_of(self@.vars, name@) {
                None => r is None,
                Some(k) => r == Some(k as usize),
            },
    {
        let ghost vars = self@.vars;
        let mut k: usize = 0;
        while k < self.variables.len()
            invariant
                k <= self.variables@.len(),
                vars == names_model(self.variables@),
                vars == self@.vars,
                index_of(vars.take(k as int), name@) is None,
            decreases self.variables@.len() - k,
        {
            assert(vars.take(k + 1).drop_last() =~= vars.take(k as int));
            if self.variables[k] == *name {
                proof {
                    lemma_index_of_prefix(vars, k + 1);
                }
                return Some(k);
            }
            k = k + 1;
        }
        assert(vars.take(k as int) =~= vars);
        None
    }

    /// The cell of a variable, which is added first where it is new.
    fn push_or_get_var(&mut self, var_name: String) -> (r: Option<i32>)
        ensures
            match push_or_get_var_spec(old(self)@, var_name@) {
                None => r is None,
                Some((st, c)) => r == Some(c) && final(self)@ == st,
            },
    {
        if let Some(index) = self.position(&var_name) {
            let k = index as i32;
            if self.center == i32::MIN {
                return None;
            }
            let a = self.center - 1;
            if k > 0 && a < i32::MIN + k {
                return None;
            }
            if k < 0 && a > i32::MAX + k {
                return None;
            }
            Some(a - k)
        } else {
            self.variables.push(var_name);
            assert(names_model(self.variables@) =~= old(self)@.vars.push(var_name@));
            let l = self.variables.len() as i32;
            if l == i32::MIN {
                return None;
            }
            let m = l - 1;
            if self.center == i32::MIN {
                return None;
            }
            let a = self.center - 1;
            if m > 0 && a < i32::MIN + m {
                return None;
            }
            if m < 0 && a > i32::MAX + m {
                return None;
            }
            Some(a - m)
        }
    }

    /// The cell of a known variable.
    fn get_var_cell(&self, var_name: &String) -> (r: Option<i32>)
        ensures
            r == get_var_spec(self@, var_name@),
    {
        match self.position(var_name) {
            Some(index) => {
                let k = index as i32;
                if self.center == i32::MIN {
                    return None;
                }
                let a = self.center - 1;
                if k > 0 && a < i32::MIN + k {
                    return None;
                }
                if k < 0 && a > i32::MAX + k {
                    return None;
                }
                Some(a - k)
            },
            None => None,
        }
    }

    /// `x` moves of the pointer.
    fn move_x_units(&self, x: i32) -> (r: Option<Vec<Instruction>>)
        ensures
            code_model(r) == moves(x),
    {
        let mut instrs: Vec<Instruction> = Vec::new();
        assert(instrs_model(instrs@) =~= Seq::empty());
        if x > 0 {
            push_steps(&mut instrs, x as u64, true, false);
            assert(instrs_model(instrs@) =~= repeat_instr(leaf_model(bf::op::PTR_RIGHT@), x as nat));
        } else {
            if x == i32::MIN {
                return None;
            }
            push_steps(&mut instrs, (-x) as u64, false, false);
            assert(instrs_model(instrs@) =~= repeat_instr(leaf_model(bf::op::PTR_LEFT@), (-x) as nat));
        }
        Some(instrs)
    }

    /// The moves from `from` to `to`.
    fn move_from_to(&self, from: i32, to: i32) -> (r: Option<Vec<Instruction>>)
        ensures
            code_model(r) == move_between(from, to),
    {
        let d: i64 = to as i64 - from as i64;
        if d < i32::MIN as i64 || d > i32::MAX as i64 {
            return None;
        }
        self.move_x_units(d as i32)
    }

    /// Sets `cell` to zero.
    fn clear_cell(&self, cell: i32) -> (r: Option<Vec<Instruction>>)
        ensures
            code_model(r) == clear_cell_code(self@.center, cell),
    {
        let mut instrs: Vec<Instruction> = Vec::new();
        assert(instrs_model(instrs@) =~= Seq::empty());
        if !append_code(&mut instrs, self.move_from_to(self.center, cell)) {
            return None;
        }
        let mut body: Vec<Instruction> = Vec::new();
        body.push(bf::decr());
        assert(instrs_model(body@) =~= seq![leaf_model(bf::op::DECR@)]);
        push_one(&mut instrs, bf::loop_of(body));
        if !append_code(&mut instrs, self.move_from_to(cell, self.center)) {
            return None;
        }
        Some(instrs)
    }
}

/// The first position of a name is found in the prefix that holds it.
proof fn lemma_index_of_prefix(vars: Seq<Seq<char>>, k: int)
    requires
        0 < k <= vars.len(),
        index_of(vars.take(k - 1), vars[k - 1]) is None,
    ensures
        index_of(vars, vars[k - 1]) == Some(k - 1),
    decreases vars.len() - k,
{
    assert(vars.take(k).drop_last() =~= vars.take(k - 1));
    if k < vars.len() {
        lemma_index_of_extend(vars, k);
    } else {
        assert(vars.take(k) =~= vars);
    }
}

/// Once a prefix holds a name, the first position stays.
proof fn lemma_index_of_extend(vars: Seq<Seq<char>>, k: int)
    requires
        0 < k <= vars.len(),
        index_of(vars.take(k), vars[k - 1]) is Some,
    ensures
        index_of(vars, vars[k - 1]) == index_of(vars.take(k), vars[k - 1]),
    decreases vars.len() - k,
{
    if k < vars.len() {
        assert(vars.take(k + 1).drop_last() =~= vars.take(k));
        assert(index_of(vars.take(k + 1), vars[k - 1]) == index_of(vars.take(k), vars[k - 1]));
        lemma_index_of_extend_general(vars, k + 1, vars[k - 1]);
        assert(index_of(vars, vars[k - 1]) == index_of(vars.take(k + 1), vars[k - 1]));
    } else {
        assert(vars.take(k) =~= vars);
    }
}

/// Once a prefix holds a name, the first position stays.
proof fn lemma_index_of_extend_general(vars: Seq<Seq<char>>, k: int, name: Seq<char>)
    requires
        0 <= k <= vars.len(),
        index_of(vars.take(k), name) is Some,
    ensures
        index_of(vars, name) == index_of(vars.take(k), name),
    decreases vars.len() - k,
{
    if k < vars.len() {
        assert(vars.take(k + 1).drop_last() =~= vars.take(k));
        lemma_index_of_extend_general(vars, k + 1, name);
    } else {
        assert(vars.take(k) =~= vars);
    }
}

/// The code that adds a Simp value to `target`: an integer as that many increments,
/// a name by copying from the cell 16 past its position.
pub open spec fn compute_value_code(st: SimpState, value: ValueModel, temp: i32, target: i32) -> Option<Seq<InstrModel>> {
    match value {
        ValueModel::SimpInt(i) => int_value_code(st.center, i, target),
        ValueModel::SimpStr(name) => match index_of(st.vars, name) {
            None => None,
            Some(k) => {
                let idx = (k as usize) as i32;
                if idx + 16 > i32::MAX {
                    None
                } else {
                    cat(clear_cell_code(st.center, target), copy_cell_code(st.center, (idx + 16) as i32, temp, target))
                }
            },
        },
        _ => None,
    }
}

/// The names assigned at the top level of a program, each once, in the order of
/// their first assignment; `None` where an assignment has no name operand.
pub open spec fn assigned_names(s: Seq<InstrModel>) -> Option<Seq<Seq<char>>>
    decreases s.len(),
{
    if s.len() == 0 {
        Some(Seq::empty())
    } else {
        match assigned_names(s.drop_last()) {
            None => None,
            Some(names) => if s.last().opcode == simp::op::ASSIGN@ {
                match value_operand(s.last().operands, 0) {
                    None => None,
                    Some(v) => {
                        let name = crate::ir::value_text(v);
                        if names.contains(name) {
                            Some(names)
                        } else {
                            Some(names.push(name))
                        }
                    },
                }
            } else {
                Some(names)
            },
        }
    }
}

/// The code of a program: its statements one after the other, each with target 0.
pub open spec fn compile_program(st: SimpState, s: Seq<InstrModel>) -> Option<(SimpState, Seq<InstrModel>)> {
    compile_body(st, crate::ir::as_operands(s), 0)
}

/// One run of the compiler on a module: the center goes to the number of names
/// assigned at the top level, the pointer moves there, then each statement is
/// compiled; the variables known from earlier runs are kept.
pub open spec fn compile_module(st: SimpState, m: crate::ir::ModuleModel) -> Option<(SimpState, crate::ir::ModuleModel)> {
    match assigned_names(m.instructions) {
        None => None,
        Some(names) => {
            let center = (names.len() as usize) as i32;
            let st1 = SimpState { center, temp: center, vars: st.vars };
            match moves(center) {
                None => None,
                Some(pre) => match compile_program(st1, m.instructions) {
                    None => None,
                    Some((st2, code)) => Some(
                        (
                            st2,
                            crate::ir::ModuleModel {
                                language: crate::ir::language_model(bf::BrainfuckLanguage),
                                instructions: pre + code,
                            },
                        ),
                    ),
                },
            }
        },
    }
}

/// Whether an exec result matches a compilation step.
pub open spec fn step_result(
    spec_result: Option<(SimpState, Seq<InstrModel>)>,
    r: Option<Vec<Instruction>>,
    after: SimpState,
) -> bool {
    match spec_result {
        None => r is None,
        Some((st, code)) => r matches Some(v) && instrs_model(v@) == code && after == st,
    }
}

/// A step that keeps the frame of the tape: the center and the temporary stack are as
/// they were, and the variables known before are still known, at the same cells.
pub open spec fn frame_kept(st: SimpState, st2: SimpState) -> bool {
    &&& st2.center == st.center
    &&& st2.temp == st.temp
    &&& st.vars.is_prefix_of(st2.vars)
}

proof fn lemma_prefix_trans(a: Seq<Seq<char>>, b: Seq<Seq<char>>, c: Seq<Seq<char>>)
    requires
        a.is_prefix_of(b),
        b.is_prefix_of(c),
    ensures
        a.is_prefix_of(c),
{
    assert(a =~= c.subrange(0, a.len() as int));
}

proof fn lemma_var_grows(st: SimpState, name: Seq<char>)
    ensures
        push_or_get_var_spec(st, name) matches Some((st2, _)) ==> st2.center == st.center
            && st2.temp == st.temp && st.vars.is_prefix_of(st2.vars),
{
    if index_of(st.vars, name) is None {
        assert(st.vars =~= st.vars.push(name).subrange(0, st.vars.len() as int));
    }
}

/// Law: compiling a statement gives back every temporary cell that it takes, keeps
/// the center, and forgets no variable.
pub proof fn law_compile_keeps_frame(st: SimpState, i: InstrModel, target: i32)
    ensures
        compile(st, i, target) matches Some((st2, _)) ==> frame_kept(st, st2),
    decreases i, 1nat,
{
    if i.opcode == simp::op::ASSIGN@ {
        lemma_assign_frame(st, i, target);
    } else if i.opcode == simp::op::ADD@ || i.opcode == simp::op::SUB@ {
        lemma_arith_frame(st, i, target, true);
        lemma_arith_frame(st, i, target, false);
    } else if i.opcode == simp::op::PRINT@ {
        if let Some(value) = instr_operand(i.operands, 0) {
            if let Some((st1, t)) = push_temp_spec(st) {
                law_compile_keeps_frame(st1, value, t);
                if let Some((st2, c)) = compile(st1, value, t) {
                    assert(st.vars =~= st1.vars);
                }
            }
        }
    } else if i.opcode == simp::op::LOOP@ {
        lemma_loop_frame(st, i, target);
    } else if i.opcode == simp::op::BODY@ {
        lemma_body_frame(st, i.operands, target);
    }
}

proof fn lemma_assign_frame(st: SimpState, i: InstrModel, target: i32)
    ensures
        compile_assign(st, i, target) matches Some((st2, _)) ==> frame_kept(st, st2),
    decreases i, 0nat,
{
    if let Some(v) = value_operand(i.operands, 0) {
        if let Some((st1, t1)) = push_temp_spec(st) {
            if let Some((st2, t2)) = push_temp_spec(st1) {
                lemma_var_grows(st2, crate::ir::value_text(v));
                if let Some((st3, var)) = push_or_get_var_spec(st2, crate::ir::value_text(v)) {
                    if let Some(value) = instr_operand(i.operands, 1) {
                        law_compile_keeps_frame(st3, value, t1);
                        if let Some((st4, code)) = compile(st3, value, t1) {
                            lemma_prefix_trans(st.vars, st3.vars, st4.vars);
                        }
                    }
                }
            }
        }
    }
}

proof fn lemma_arith_frame(st: SimpState, i: InstrModel, target: i32, is_add: bool)
    ensures
        compile_arith(st, i, target, is_add) matches Some((st2, _)) ==> frame_kept(st, st2),
    decreases i, 0nat,
{
    if let (Some(first), Some(second)) = (instr_operand(i.operands, 0), instr_operand(i.operands, 1)) {
        if let Some((st1, t1)) = push_temp_spec(st) {
            law_compile_keeps_frame(st1, first, t1);
            if let Some((st2, c1)) = compile(st1, first, t1) {
                if let Some((st3, t2)) = push_temp_spec(st2) {
                    law_compile_keeps_frame(st3, second, t2);
                    if let Some((st4, c2)) = compile(st3, second, t2) {
                        lemma_prefix_trans(st.vars, st2.vars, st4.vars);
                    }
                }
            }
        }
    }
}

proof fn lemma_loop_frame(st: SimpState, i: InstrModel, target: i32)
    ensures
        compile_loop(st, i, target) matches Some((st2, _)) ==> frame_kept(st, st2),
    decreases i, 0nat,
{
    if let (Some(count), Some(body)) = (instr_operand(i.operands, 0), instr_operand(i.operands, 1)) {
        if let Some((st1, t1)) = push_temp_spec(st) {
            if let Some((st2, t2)) = push_temp_spec(st1) {
                law_compile_keeps_frame(st2, count, t1);
                if let Some((st3, c)) = compile(st2, count, t1) {
                    law_compile_keeps_frame(st3, body, t2);
                    if let Some((st4, b)) = compile(st3, body, t2) {
                        lemma_prefix_trans(st.vars, st3.vars, st4.vars);
                    }
                }
            }
        }
    }
}

pub(crate) proof fn lemma_body_frame(st: SimpState, ops: Seq<OperandModel>, target: i32)
    ensures
        compile_body(st, ops, target) matches Some((st2, _)) ==> frame_kept(st, st2),
    decreases ops,
{
    if ops.len() > 0 {
        lemma_body_frame(st, ops.drop_last(), target);
        if let Some((st1, a)) = compile_body(st, ops.drop_last(), target) {
            if let OperandModel::Instruction(x) = ops.last() {
                law_compile_keeps_frame(st1, x, target);
                if let Some((st2, b)) = compile(st1, x, target) {
                    lemma_prefix_trans(st.vars, st1.vars, st2.vars);
                }
            }
        }
    } else {
        assert(st.vars =~= st.vars.subrange(0, st.vars.len() as int));
    }
}

impl SimpToBrainfuck {
    /// Adds `from` to `to` through `temp`.
    fn copy_cell(&self, from: i32, temp: i32, to: i32) -> (r: Option<Vec<Instruction>>)
        ensures
            code_model(r) == copy_cell_code(self@.center, from, temp, to),
    {
        let mut instrs: Vec<Instruction> = Vec::new();
        assert(instrs_model(instrs@) =~= Seq::empty());
        if !append_code(&mut instrs, self.move_from_to(self.center, from)) {
            return None;
        }
        let mut body: Vec<Instruction> = Vec::new();
        assert(instrs_model(body@) =~= Seq::empty());
        if !append_code(&mut body, self.move_from_to(from, to)) {
            return None;
        }
        push_one(&mut body, bf::incr());
        if !append_code(&mut body, self.move_from_to(to, temp)) {
            return None;
        }
        push_one(&mut body, bf::incr());
        if !append_code(&mut body, self.move_from_to(temp, from)) {
            return None;
        }
        push_one(&mut body, bf::decr());
        push_one(&mut instrs, bf::loop_of(body));
        if !append_code(&mut instrs, self.move_from_to(from, temp)) {
            return None;
        }
        let mut body2: Vec<Instruction> = Vec::new();
        assert(instrs_model(body2@) =~= Seq::empty());
        if !append_code(&mut body2, self.move_from_to(temp, from)) {
            return None;
        }
        push_one(&mut body2, bf::incr());
        if !append_code(&mut body2, self.move_from_to(from, temp)) {
            return None;
        }
        push_one(&mut body2, bf::decr());
        push_one(&mut instrs, bf::loop_of(body2));
        if !append_code(&mut instrs, self.move_from_to(temp, self.center)) {
            return None;
        }
        Some(instrs)
    }

    /// Adds a Simp value to `target`.
    fn compute_value(&self, value: &SimpValue, temp_cell: i32, target_cell: i32) -> (r: Option<Vec<Instruction>>)
        ensures
            code_model(r) == compute_value_code(self@, Value::Simp(*value)@, temp_cell, target_cell),
    {
        let mut instrs: Vec<Instruction> = Vec::new();
        assert(instrs_model(instrs@) =~= Seq::empty());
        match value {
            SimpValue::Int(i) => {
                if !append_code(&mut instrs, self.move_from_to(self.center, target_cell)) {
                    return None;
                }
                let n: u64 = if *i > 0 {
                    *i as u64
                } else {
                    0
                };
                let ghost before = instrs_model(instrs@);
                push_steps(&mut instrs, n, true, true);
                if !append_code(&mut instrs, self.move_from_to(target_cell, self.center)) {
                    return None;
                }
            },
            SimpValue::Str(var_name) => {
                let index = match self.position(var_name) {
                    Some(k) => k as i32,
                    None => {
                        return None;
                    },
                };
                if index > i32::MAX - 16 {
                    return None;
                }
                let var_index = index + 16;
                if !append_code(&mut instrs, self.clear_cell(target_cell)) {
                    return None;
                }
                if !append_code(&mut instrs, self.copy_cell(var_index, temp_cell, target_cell)) {
                    return None;
                }
            },
        }
        Some(instrs)
    }

    /// Adds two cells to `target`.
    fn add_two_cells(&self, first_cell: i32, second_cell: i32, temp_cell: i32, target_cell: i32) -> (r: Option<Vec<Instruction>>)
        ensures
            code_model(r) == add_cells_code(self@.center, first_cell, second_cell, temp_cell, target_cell),
    {
        let mut instrs: Vec<Instruction> = Vec::new();
        assert(instrs_model(instrs@) =~= Seq::empty());
        if !append_code(&mut instrs, self.copy_cell(first_cell, temp_cell, target_cell)) {
            return None;
        }
        if !append_code(&mut instrs, self.copy_cell(second_cell, temp_cell, target_cell)) {
            return None;
        }
        Some(instrs)
    }

    /// Sets `target` to `second - first`.
    fn substract_first_from_second(&self, first_cell: i32, second_cell: i32, temp_cell: i32, target_cell: i32) -> (r: Option<Vec<Instruction>>)
        ensures
            code_model(r) == subtract_code(self@.center, first_cell, second_cell, temp_cell, target_cell),
    {
        let mut instrs: Vec<Instruction> = Vec::new();
        assert(instrs_model(instrs@) =~= Seq::empty());
        if !append_code(&mut instrs, self.clear_cell(target_cell)) {
            return None;
        }
        if !append_code(&mut instrs, self.copy_cell(second_cell, temp_cell, target_cell)) {
            return None;
        }
        if !append_code(&mut instrs, self.move_from_to(self.center, first_cell)) {
            return None;
        }
        let mut body: Vec<Instruction> = Vec::new();
        assert(instrs_model(body@) =~= Seq::empty());
        if !append_code(&mut body, self.move_from_to(first_cell, target_cell)) {
            return None;
        }
        push_one(&mut body, bf::decr());
        if !append_code(&mut body, self.move_from_to(target_cell, first_cell)) {
            return None;
        }
        push_one(&mut body, bf::decr());
        push_one(&mut instrs, bf::loop_of(body));
        if !append_code(&mut instrs, self.move_from_to(first_cell, self.center)) {
            return None;
        }
        Some(instrs)
    }
}

impl SimpToBrainfuck {
    /// The instruction operand at position `k`.
    fn instruction_at(instr: &Instruction, k: usize) -> (r: Option<&Instruction>)
        ensures
            match instr_operand(instr@.operands, k as int) {
                None => r is None,
                Some(m) => r matches Some(x) && x@ == m && decreases_to!(*instr => *x),
            },
    {
        proof {
            lemma_instr_model(*instr);
        }
        if k >= instr.operands.len() {
            return None;
        }
        match &instr.operands[k] {
            Operand::Instruction(b) => {
                proof {
                    assert(decreases_to!(instr.operands => instr.operands@[k as int]));
                }
                Some(b)
            },
            _ => None,
        }
    }

    /// The name of the value operand at position 0.
    fn name_at_first(instr: &Instruction) -> (r: Option<String>)
        ensures
            match value_operand(instr@.operands, 0) {
                None => r is None,
                Some(v) => r matches Some(n) && n@ == crate::ir::value_text(v),
            },
    {
        proof {
            lemma_instr_model(*instr);
        }
        if instr.operands.len() == 0 {
            return None;
        }
        match &instr.operands[0] {
            Operand::Value(v) => Some(v.display()),
            _ => None,
        }
    }

    /// The code of an assignment, as [`compile_assign`] says.
    fn compile_assign_step(&mut self, instr: &Instruction, target_cell: i32) -> (r: Option<Vec<Instruction>>)
        ensures
            step_result(compile_assign(old(self)@, instr@, target_cell), r, final(self)@),
        decreases *instr, 0nat,
    {
        let ghost st = self@;
        let var_name = match Self::name_at_first(instr) {
            Some(n) => n,
            None => {
                return None;
            },
        };
        let mut new_instrs: Vec<Instruction> = Vec::new();
        assert(instrs_model(new_instrs@) =~= Seq::empty());
        let temp_cell = match self.push_temp() {
            Some(t) => t,
            None => {
                return None;
            },
        };
        if !append_code(&mut new_instrs, self.clear_cell(temp_cell)) {
            return None;
        }
        let temp_cell2 = match self.push_temp() {
            Some(t) => t,
            None => {
                return None;
            },
        };
        if !append_code(&mut new_instrs, self.clear_cell(temp_cell2)) {
            return None;
        }
        let var_index = match self.push_or_get_var(var_name) {
            Some(c) => c,
            None => {
                return None;
            },
        };
        let value_instr = match Self::instruction_at(instr, 1) {
            Some(i) => i,
            None => {
                return None;
            },
        };
        let ghost st3 = self@;
        proof {
            law_compile_keeps_frame(st3, value_instr@, temp_cell);
        }
        if !append_code(&mut new_instrs, self.simp_to_brainfuck(value_instr, temp_cell)) {
            return None;
        }
        if !append_code(&mut new_instrs, self.clear_cell(var_index)) {
            return None;
        }
        if !append_code(&mut new_instrs, self.copy_cell(temp_cell, temp_cell2, var_index)) {
            return None;
        }
        if !self.pop_temp() {
            return None;
        }
        if !self.pop_temp() {
            return None;
        }
        Some(new_instrs)
    }

    /// The code of an addition or a subtraction, as [`compile_arith`] says.
    fn compile_arith_step(&mut self, instr: &Instruction, target_cell: i32, is_add: bool) -> (r: Option<Vec<Instruction>>)
        ensures
            step_result(compile_arith(old(self)@, instr@, target_cell, is_add), r, final(self)@),
        decreases *instr, 0nat,
    {
        let ghost st = self@;
        let first_instr = match Self::instruction_at(instr, 0) {
            Some(i) => i,
            None => {
                return None;
            },
        };
        let second_instr = match Self::instruction_at(instr, 1) {
            Some(i) => i,
            None => {
                return None;
            },
        };
        let mut new_instrs: Vec<Instruction> = Vec::new();
        assert(instrs_model(new_instrs@) =~= Seq::empty());
        let temp_cell1 = match self.push_temp() {
            Some(t) => t,
            None => {
                return None;
            },
        };
        if !append_code(&mut new_instrs, self.clear_cell(temp_cell1)) {
            return None;
        }
        proof {
            law_compile_keeps_frame(self@, first_instr@, temp_cell1);
        }
        if !append_code(&mut new_instrs, self.simp_to_brainfuck(first_instr, temp_cell1)) {
            return None;
        }
        let temp_cell2 = match self.push_temp() {
            Some(t) => t,
            None => {
                return None;
            },
        };
        if !append_code(&mut new_instrs, self.clear_cell(temp_cell2)) {
            return None;
        }
        proof {
            law_compile_keeps_frame(self@, second_instr@, temp_cell2);
        }
        if !append_code(&mut new_instrs, self.simp_to_brainfuck(second_instr, temp_cell2)) {
            return None;
        }
        let temp_cell3 = match self.push_temp() {
            Some(t) => t,
            None => {
                return None;
            },
        };
        if !append_code(&mut new_instrs, self.clear_cell(temp_cell3)) {
            return None;
        }
        let combine = if is_add {
            self.add_two_cells(temp_cell1, temp_cell2, temp_cell3, target_cell)
        } else {
            self.substract_first_from_second(temp_cell2, temp_cell1, temp_cell3, target_cell)
        };
        if !append_code(&mut new_instrs, combine) {
            return None;
        }
        if !self.pop_temp() {
            return None;
        }
        if !self.pop_temp() {
            return None;
        }
        if !self.pop_temp() {
            return None;
        }
        Some(new_instrs)
    }

    /// The code of a loop, as [`compile_loop`] says.
    fn compile_loop_step(&mut self, instr: &Instruction, target_cell: i32) -> (r: Option<Vec<Instruction>>)
        ensures
            step_result(compile_loop(old(self)@, instr@, target_cell), r, final(self)@),
        decreases *instr, 0nat,
    {
        let ghost st = self@;
        let value_instr = match Self::instruction_at(instr, 0) {
            Some(i) => i,
            None => {
                return None;
            },
        };
        let body_instr = match Self::instruction_at(instr, 1) {
            Some(i) => i,
            None => {
                return None;
            },
        };
        let mut new_instrs: Vec<Instruction> = Vec::new();
        assert(instrs_model(new_instrs@) =~= Seq::empty());
        let temp_cell = match self.push_temp() {
            Some(t) => t,
            None => {
                return None;
            },
        };
        if !append_code(&mut new_instrs, self.clear_cell(temp_cell)) {
            return None;
        }
        let temp_cell2 = match self.push_temp() {
            Some(t) => t,
            None => {
                return None;
            },
        };
        if !append_code(&mut new_instrs, self.clear_cell(temp_cell2)) {
            return None;
        }
        proof {
            law_compile_keeps_frame(self@, value_instr@, temp_cell);
        }
        if !append_code(&mut new_instrs, self.simp_to_brainfuck(value_instr, temp_cell)) {
            return None;
        }
        let mut loop_body: Vec<Instruction> = Vec::new();
        assert(instrs_model(loop_body@) =~= Seq::empty());
        proof {
            law_compile_keeps_frame(self@, body_instr@, temp_cell2);
        }
        if !append_code(&mut loop_body, self.simp_to_brainfuck(body_instr, temp_cell2)) {
            return None;
        }
        if !append_code(&mut loop_body, self.move_from_to(self.center, temp_cell)) {
            return None;
        }
        push_one(&mut loop_body, bf::decr());
        if !append_code(&mut loop_body, self.move_from_to(temp_cell, self.center)) {
            return None;
        }
        push_one(&mut new_instrs, bf::loop_of(loop_body));
        if !self.pop_temp() {
            return None;
        }
        if !self.pop_temp() {
            return None;
        }
        Some(new_instrs)
    }

    /// The code of a body of statements, as [`compile_body`] says.
    fn compile_body_step(&mut self, instr: &Instruction, target_cell: i32) -> (r: Option<Vec<Instruction>>)
        ensures
            step_result(compile_body(old(self)@, instr@.operands, target_cell), r, final(self)@),
        decreases *instr, 0nat,
    {
        proof {
            lemma_instr_model(*instr);
        }
        let ghost st = self@;
        let ghost ops = operands_model(instr.operands@);
        let mut new_instrs: Vec<Instruction> = Vec::new();
        assert(instrs_model(new_instrs@) =~= Seq::empty());
        assert(ops.take(0) =~= Seq::empty());
        let n = instr.operands.len();
        let mut k: usize = 0;
        while k < n
            invariant
                0 <= k <= n,
                n == instr.operands@.len(),
                ops == operands_model(instr.operands@),
                instr@.operands == ops,
                st == old(self)@,
                compile_body(st, ops.take(k as int), target_cell) == Some((self@, instrs_model(new_instrs@))),
            decreases n - k,
        {
            assert(ops.take(k + 1).drop_last() =~= ops.take(k as int));
            assert(ops.take(k + 1).last() == ops[k as int]);
            let body_instr = match &instr.operands[k] {
                Operand::Instruction(i) => i,
                _ => {
                    assert(compile_body(st, ops.take(k + 1), target_cell) is None);
                    proof {
                        lemma_body_prefix(st, ops, k + 1, target_cell);
                    }
                    return None;
                },
            };
            proof {
                assert(decreases_to!(instr.operands => instr.operands@[k as int]));
            }
            let code = self.simp_to_brainfuck(body_instr, target_cell);
            if !append_code(&mut new_instrs, code) {
                assert(compile_body(st, ops.take(k + 1), target_cell) is None);
                proof {
                    lemma_body_prefix(st, ops, k + 1, target_cell);
                }
                return None;
            }
            k = k + 1;
        }
        assert(ops.take(n as int) =~= ops);
        Some(new_instrs)
    }

    /// The code of a constant, as [`compile_constant`] says.
    fn compile_constant_step(&mut self, instr: &Instruction, target_cell: i32) -> (r: Option<Vec<Instruction>>)
        ensures
            step_result(compile_constant(old(self)@, instr@, target_cell), r, final(self)@),
    {
        proof {
            lemma_instr_model(*instr);
        }
        if instr.operands.len() == 0 {
            return None;
        }
        let i = match &instr.operands[0] {
            Operand::Value(Value::Simp(SimpValue::Int(i))) => *i,
            _ => {
                return None;
            },
        };
        let mut new_instrs: Vec<Instruction> = Vec::new();
        assert(instrs_model(new_instrs@) =~= Seq::empty());
        let temp_cell = match self.push_temp() {
            Some(t) => t,
            None => {
                return None;
            },
        };
        if !append_code(&mut new_instrs, self.clear_cell(temp_cell)) {
            return None;
        }
        if !append_code(&mut new_instrs, self.compute_value(&SimpValue::Int(i), temp_cell, target_cell)) {
            return None;
        }
        if !self.pop_temp() {
            return None;
        }
        Some(new_instrs)
    }

    /// The code of a variable read, as [`compile_variable`] says.
    fn compile_variable_step(&mut self, instr: &Instruction, target_cell: i32) -> (r: Option<Vec<Instruction>>)
        ensures
            step_result(compile_variable(old(self)@, instr@, target_cell), r, final(self)@),
    {
        proof {
            lemma_instr_model(*instr);
        }
        let var_name = match Self::name_at_first(instr) {
            Some(n) => n,
            None => {
                return None;
            },
        };
        let mut new_instrs: Vec<Instruction> = Vec::new();
        assert(instrs_model(new_instrs@) =~= Seq::empty());
        let temp_cell = match self.push_temp() {
            Some(t) => t,
            None => {
                return None;
            },
        };
        if !append_code(&mut new_instrs, self.clear_cell(temp_cell)) {
            return None;
        }
        let var_index = match self.get_var_cell(&var_name) {
            Some(c) => c,
            None => {
                return None;
            },
        };
        if !append_code(&mut new_instrs, self.copy_cell(var_index, temp_cell, target_cell)) {
            return None;
        }
        if !self.pop_temp() {
            return None;
        }
        Some(new_instrs)
    }

    /// The code of a print, as [`compile_print`] says.
    fn compile_print_step(&mut self, instr: &Instruction, target_cell: i32) -> (r: Option<Vec<Instruction>>)
        ensures
            step_result(compile_print(old(self)@, instr@, target_cell), r, final(self)@),
        decreases *instr, 0nat,
    {
        proof {
            lemma_instr_model(*instr);
        }
        let value_instr = match Self::instruction_at(instr, 0) {
            Some(i) => i,
            None => {
                return None;
            },
        };
        let mut new_instrs: Vec<Instruction> = Vec::new();
        assert(instrs_model(new_instrs@) =~= Seq::empty());
        let temp_cell = match self.push_temp() {
            Some(t) => t,
            None => {
                return None;
            },
        };
        if !append_code(&mut new_instrs, self.clear_cell(temp_cell)) {
            return None;
        }
        proof {
            law_compile_keeps_frame(self@, value_instr@, temp_cell);
        }
        if !append_code(&mut new_instrs, self.simp_to_brainfuck(value_instr, temp_cell)) {
            return None;
        }
        if !append_code(&mut new_instrs, self.move_from_to(self.center, temp_cell)) {
            return None;
        }
        push_one(&mut new_instrs, bf::output());
        if !append_code(&mut new_instrs, self.move_from_to(temp_cell, self.center)) {
            return None;
        }
        if !self.pop_temp() {
            return None;
        }
        Some(new_instrs)
    }

    /// The Brainfuck code of one Simp instruction that leaves its value in `target`;
    /// `None` where compiling aborts.
    fn simp_to_brainfuck(&mut self, instr: &Instruction, target_cell: i32) -> (r: Option<Vec<Instruction>>)
        ensures
            step_result(compile(old(self)@, instr@, target_cell), r, final(self)@),
        decreases *instr, 1nat,
    {
        proof {
            lemma_instr_model(*instr);
            crate::simp::emitter::lemma_opcodes();
        }
        let ghost st = self@;
        let opcode = &instr.opcode;
        if text_is(opcode, simp::op::ASSIGN) {
            self.compile_assign_step(instr, target_cell)
        } else if text_is(opcode, simp::op::CONSTANT) {
            self.compile_constant_step(instr, target_cell)
        } else if text_is(opcode, simp::op::VARIABLE) {
            self.compile_variable_step(instr, target_cell)
        } else if text_is(opcode, simp::op::ADD) {
            self.compile_arith_step(instr, target_cell, true)
        } else if text_is(opcode, simp::op::SUB) {
            self.compile_arith_step(instr, target_cell, false)
        } else if text_is(opcode, simp::op::PRINT) {
            self.compile_print_step(instr, target_cell)
        } else if text_is(opcode, simp::op::LOOP) {
            self.compile_loop_step(instr, target_cell)
        } else if text_is(opcode, simp::op::BODY) {
            self.compile_body_step(instr, target_cell)
        } else {
            None
        }
    }
}

/// Whether a name is among some strings.
fn contains_name(names: &Vec<String>, name: &String) -> (r: bool)
    ensures
        r == names_model(names@).contains(name@),
{
    let ghost model = names_model(names@);
    let mut k: usize = 0;
    while k < names.len()
        invariant
            k <= names@.len(),
            model == names_model(names@),
            forall|j: int| 0 <= j < k ==> model[j] != name@,
        decreases names@.len() - k,
    {
        if names[k] == *name {
            assert(model[k as int] == name@);
            return true;
        }
        k = k + 1;
    }
    false
}

proof fn lemma_names_prefix(s: Seq<InstrModel>, k: int)
    requires
        0 <= k <= s.len(),
        assigned_names(s.take(k)) is None,
    ensures
        assigned_names(s) is None,
    decreases s.len() - k,
{
    if k < s.len() {
        assert(s.take(k + 1).drop_last() =~= s.take(k));
        lemma_names_prefix(s, k + 1);
    } else {
        assert(s.take(k) =~= s);
    }
}

impl SimpToBrainfuck {
    /// The number of names assigned at the top level of a module; `None` where an
    /// assignment has no name.
    fn find_number_of_different_variables(&self, module: &Module) -> (r: Option<i32>)
        ensures
            match assigned_names(module@.instructions) {
                None => r is None,
                Some(names) => r == Some((names.len() as usize) as i32),
            },
    {
        proof {
            crate::simp::emitter::lemma_opcodes();
        }
        let ghost s = module@.instructions;
        let mut variables: Vec<String> = Vec::new();
        assert(s.take(0) =~= Seq::<InstrModel>::empty());
        assert(names_model(variables@) =~= Seq::<Seq<char>>::empty());
        let n = module.instructions.len();
        let mut k: usize = 0;
        while k < n
            invariant
                k <= n,
                n == module.instructions@.len(),
                s == module@.instructions,
                s == instrs_model(module.instructions@),
                assigned_names(s.take(k as int)) == Some(names_model(variables@)),
            decreases n - k,
        {
            assert(s.take(k + 1).drop_last() =~= s.take(k as int));
            assert(s.take(k + 1).last() == module.instructions@[k as int]@);
            let instr = &module.instructions[k];
            if text_is(&instr.opcode, simp::op::ASSIGN) {
                let var_name = match Self::name_at_first(instr) {
                    Some(name) => name,
                    None => {
                        proof {
                            lemma_names_prefix(s, k + 1);
                        }
                        return None;
                    },
                };
                if !contains_name(&variables, &var_name) {
                    let ghost before = names_model(variables@);
                    variables.push(var_name);
                    assert(names_model(variables@) =~= before.push(var_name@));
                }
            }
            k = k + 1;
        }
        assert(s.take(n as int) =~= s);
        Some(variables.len() as i32)
    }

    /// The code of top-level statements, one after the other, each with target 0.
    fn compile_statements(&mut self, instrs: &Vec<Instruction>) -> (r: Option<Vec<Instruction>>)
        ensures
            step_result(compile_body(old(self)@, as_operands(instrs_model(instrs@)), 0), r, final(self)@),
    {
        let ghost st = self@;
        let ghost ops = as_operands(instrs_model(instrs@));
        let mut new_instrs: Vec<Instruction> = Vec::new();
        assert(instrs_model(new_instrs@) =~= Seq::empty());
        assert(ops.take(0) =~= Seq::empty());
        let n = instrs.len();
        let mut k: usize = 0;
        while k < n
            invariant
                0 <= k <= n,
                n == instrs@.len(),
                ops == as_operands(instrs_model(instrs@)),
                st == old(self)@,
                compile_body(st, ops.take(k as int), 0) == Some((self@, instrs_model(new_instrs@))),
            decreases n - k,
        {
            assert(ops.take(k + 1).drop_last() =~= ops.take(k as int));
            assert(ops.take(k + 1).last() == OperandModel::Instruction(instrs@[k as int]@));
            let code = self.simp_to_brainfuck(&instrs[k], 0);
            if !append_code(&mut new_instrs, code) {
                assert(compile_body(st, ops.take(k + 1), 0) is None);
                proof {
                    lemma_body_prefix(st, ops, k + 1, 0);
                }
                return None;
            }
            k = k + 1;
        }
        assert(ops.take(n as int) =~= ops);
        Some(new_instrs)
    }

    /// One run on a module, as [`compile_module`] says; `None` where the compiler
    /// aborts.
    fn compile_module_exec(&mut self, module: Module) -> (r: Option<Module>)
        ensures
            match compile_module(old(self)@, module@) {
                None => r is None,
                Some((st, m)) => r matches Some(x) && x@ == m && final(self)@ == st,
            },
    {
        let num_vars = match self.find_number_of_different_variables(&module) {
            Some(n) => n,
            None => {
                return None;
            },
        };
        self.set_center(num_vars);
        let mut code: Vec<Instruction> = Vec::new();
        assert(instrs_model(code@) =~= Seq::empty());
        if !append_code(&mut code, self.move_x_units(self.center)) {
            return None;
        }
        let piece = self.compile_statements(&module.instructions);
        if !append_code(&mut code, piece) {
            return None;
        }
        let mut new_module = Module::new(bf::BrainfuckLanguage);
        new_module.instructions = code;
        Some(new_module)
    }
}

proof fn lemma_body_prefix(st: SimpState, ops: Seq<OperandModel>, k: int, target: i32)
    requires
        0 <= k <= ops.len(),
        compile_body(st, ops.take(k), target) is None,
    ensures
        compile_body(st, ops, target) is None,
    decreases ops.len() - k,
{
    if k < ops.len() {
        assert(ops.take(k + 1).drop_last() =~= ops.take(k));
        lemma_body_prefix(st, ops, k + 1, target);
    } else {
        assert(ops.take(k) =~= ops);
    }
}

/// A run of the compiler: it never ends in an error; `None` where it aborts.
pub open spec fn simp_to_bf_run(st: SimpState, m: crate::ir::ModuleModel) -> RunOutcome<SimpState> {
    match compile_module(st, m) {
        None => None,
        Some((st2, m2)) => Some((st2, Ok(m2))),
    }
}

impl Transformation for SimpToBrainfuck {
    open spec fn run_spec(st: SimpState, m: crate::ir::ModuleModel) -> RunOutcome<SimpState> {
        simp_to_bf_run(st, m)
    }

    fn name(&self) -> (r: &str)
        ensures
            r@ == "simp-brainfuck"@,
    {
        "simp-brainfuck"
    }

    fn try_run(&mut self, module: Module) -> (r: Option<Result<Module, CompileError>>) {
        assert(<SimpToBrainfuck as Transformation>::run_spec(self@, module@) == simp_to_bf_run(self@, module@));
        match self.compile_module_exec(module) {
            Some(m) => Some(Ok(m)),
            None => None,
        }
    }
}

} // verus!
