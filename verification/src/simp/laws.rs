//! Laws of Simp: what parsing gives passes the language's check all through.
use vstd::prelude::*;

use super::op;
use super::parser::{
    assignment_spec, block_spec, expr_tail, expression_spec, loop_spec, operand_spec, parse_spec,
    print_spec, program_spec, statement_spec,
};
use super::syntax::{
    assign_model, body_model, constant_model, law_constructors_verify, pair_model, print_model,
    simp_defs, variable_model,
};
use super::tokens::TokenModel;
use crate::ir::{as_operands, deep_verified, deep_verified_ops, InstrModel, OperandModel};

verus! {

/// Whether each of some instructions passes the Simp check all through.
pub open spec fn each_verified(s: Seq<InstrModel>) -> bool {
    forall|k: int| 0 <= k < s.len() ==> deep_verified(simp_defs(), #[trigger] s[k])
}

proof fn lemma_each_verified_ops(s: Seq<InstrModel>)
    requires
        each_verified(s),
    ensures
        deep_verified_ops(simp_defs(), as_operands(s)),
    decreases s.len(),
{
    if s.len() > 0 {
        assert(as_operands(s).drop_last() =~= as_operands(s.drop_last()));
        assert(each_verified(s.drop_last())) by {
            assert forall|k: int| 0 <= k < s.drop_last().len() implies deep_verified(
                simp_defs(),
                #[trigger] s.drop_last()[k],
            ) by {
                assert(s.drop_last()[k] == s[k]);
            }
        }
        lemma_each_verified_ops(s.drop_last());
        assert(as_operands(s).last() == OperandModel::Instruction(s.last()));
        assert(deep_verified(simp_defs(), s[s.len() - 1]));
    } else {
        assert(as_operands(s) =~= Seq::<OperandModel>::empty());
    }
}

/// Instructions of the shapes that the Simp constructors build, from parts that pass
/// the check all through, pass it all through.
proof fn lemma_shapes_verified(value: i64, name: Seq<char>, a: InstrModel, b: InstrModel, s: Seq<InstrModel>)
    ensures
        deep_verified(simp_defs(), constant_model(value)),
        deep_verified(simp_defs(), variable_model(name)),
        deep_verified(simp_defs(), a) && deep_verified(simp_defs(), b) ==> {
            &&& deep_verified(simp_defs(), pair_model(op::ADD@, a, b))
            &&& deep_verified(simp_defs(), pair_model(op::SUB@, a, b))
            &&& deep_verified(simp_defs(), pair_model(op::LOOP@, a, b))
        },
        deep_verified(simp_defs(), a) ==> deep_verified(simp_defs(), assign_model(name, a)),
        deep_verified(simp_defs(), a) ==> deep_verified(simp_defs(), print_model(a)),
        each_verified(s) ==> deep_verified(simp_defs(), body_model(s)),
{
    law_constructors_verify(value, name, a, b, s);
    let empty = Seq::<OperandModel>::empty();
    assert(deep_verified_ops(simp_defs(), empty));
    assert(constant_model(value).operands.drop_last() =~= empty);
    assert(variable_model(name).operands.drop_last() =~= empty);
    assert(print_model(a).operands.drop_last() =~= empty);
    let first_a = seq![OperandModel::Instruction(a)];
    assert(first_a.drop_last() =~= empty);
    let first_name = seq![OperandModel::Value(crate::ir::ValueModel::SimpStr(name))];
    assert(first_name.drop_last() =~= empty);
    assert(deep_verified_ops(simp_defs(), first_name));
    assert(deep_verified(simp_defs(), a) ==> deep_verified_ops(simp_defs(), first_a));
    assert(assign_model(name, a).operands.drop_last() =~= first_name);
    assert(pair_model(op::ADD@, a, b).operands.drop_last() =~= first_a);
    assert(pair_model(op::SUB@, a, b).operands.drop_last() =~= first_a);
    assert(pair_model(op::LOOP@, a, b).operands.drop_last() =~= first_a);
    if each_verified(s) {
        lemma_each_verified_ops(s);
    }
}

proof fn lemma_operand_verified(r: Seq<TokenModel>)
    ensures
        operand_spec(r) matches Ok((x, _)) ==> deep_verified(simp_defs(), x),
{
    if r.len() > 0 {
        match r[0] {
            TokenModel::Integer(n) => lemma_shapes_verified(n, Seq::empty(), constant_model(0), constant_model(0), Seq::empty()),
            TokenModel::Ident(s) => lemma_shapes_verified(0, s, constant_model(0), constant_model(0), Seq::empty()),
            _ => {},
        }
    }
}

proof fn lemma_expr_tail_verified(r: Seq<TokenModel>, lhs: InstrModel)
    requires
        deep_verified(simp_defs(), lhs),
    ensures
        expr_tail(r, lhs) matches Ok((e, _)) ==> deep_verified(simp_defs(), e),
    decreases r.len(),
{
    if r.len() > 0 && (r[0] is Plus || r[0] is Minus) {
        lemma_operand_verified(r.drop_first());
        if let Ok((rhs, r2)) = operand_spec(r.drop_first()) {
            if r2.len() < r.len() {
                lemma_shapes_verified(0, Seq::empty(), lhs, rhs, Seq::empty());
                let combined = if r[0] is Plus {
                    pair_model(op::ADD@, lhs, rhs)
                } else {
                    pair_model(op::SUB@, lhs, rhs)
                };
                lemma_expr_tail_verified(r2, combined);
            }
        }
    }
}

proof fn lemma_statement_verified(r: Seq<TokenModel>)
    ensures
        statement_spec(r) matches Ok((s, _)) ==> deep_verified(simp_defs(), s),
    decreases r.len(), 1nat,
{
    if r.len() > 0 {
        match r[0] {
            TokenModel::Loop => lemma_loop_verified(r),
            TokenModel::Print => {
                if let Ok(r2) = super::parser::expect_spec(r, TokenModel::Print) {
                    lemma_operand_verified(r2);
                    if let Ok((x, r3)) = operand_spec(r2) {
                        lemma_shapes_verified(0, Seq::empty(), x, x, Seq::empty());
                    }
                }
            },
            TokenModel::Ident(_) => {
                if let Ok((name, r2)) = super::parser::ident_spec(r) {
                    if let Ok(r3) = super::parser::expect_spec(r2, TokenModel::Equals) {
                        lemma_operand_verified(r3);
                        if let Ok((lhs, r4)) = operand_spec(r3) {
                            lemma_expr_tail_verified(r4, lhs);
                        }
                        if let Ok((e, r4)) = expression_spec(r3) {
                            lemma_shapes_verified(0, name, e, e, Seq::empty());
                        }
                    }
                }
            },
            _ => {},
        }
    }
}

proof fn lemma_loop_verified(r: Seq<TokenModel>)
    ensures
        loop_spec(r) matches Ok((s, _)) ==> deep_verified(simp_defs(), s),
    decreases r.len(), 0nat,
{
    if let Ok(r2) = super::parser::expect_spec(r, TokenModel::Loop) {
        lemma_operand_verified(r2);
        if let Ok((count, r3)) = operand_spec(r2) {
            if let Ok(r4) = super::parser::expect_spec(r3, TokenModel::LBrace) {
                if r4.len() < r.len() {
                    lemma_block_verified(r4);
                    if let Ok((stmts, r5)) = block_spec(r4) {
                        lemma_shapes_verified(0, Seq::empty(), count, count, stmts);
                        lemma_shapes_verified(0, Seq::empty(), count, body_model(stmts), stmts);
                    }
                }
            }
        }
    }
}

proof fn lemma_block_verified(r: Seq<TokenModel>)
    ensures
        block_spec(r) matches Ok((stmts, _)) ==> each_verified(stmts),
    decreases r.len(), 2nat,
{
    if r.len() > 0 && !(r[0] is RBrace) {
        lemma_statement_verified(r);
        if let Ok((s, r2)) = statement_spec(r) {
            if r2.len() < r.len() {
                lemma_block_verified(r2);
                if let Ok((rest, r3)) = block_spec(r2) {
                    let all = seq![s] + rest;
                    assert forall|k: int| 0 <= k < all.len() implies deep_verified(simp_defs(), #[trigger] all[k]) by {
                        if k > 0 {
                            assert(all[k] == rest[k - 1]);
                        }
                    }
                }
            }
        }
    }
}

proof fn lemma_program_verified(r: Seq<TokenModel>)
    ensures
        program_spec(r) matches Ok(stmts) ==> each_verified(stmts),
    decreases r.len(),
{
    if r.len() > 0 {
        lemma_statement_verified(r);
        if let Ok((s, r2)) = statement_spec(r) {
            if r2.len() < r.len() {
                lemma_program_verified(r2);
                if let Ok(rest) = program_spec(r2) {
                    let all = seq![s] + rest;
                    assert forall|k: int| 0 <= k < all.len() implies deep_verified(simp_defs(), #[trigger] all[k]) by {
                        if k > 0 {
                            assert(all[k] == rest[k - 1]);
                        }
                    }
                }
            }
        }
    }
}

/// Law: every statement of a module that parsing Simp text gives passes the Simp
/// check, and so does every instruction nested in it.
pub proof fn law_parsed_program_verifies(source: Seq<char>)
    ensures
        parse_spec(source) matches Some(Ok(m)) ==> deep_verified_ops(simp_defs(), as_operands(m.instructions)),
{
    if let Some(toks) = super::tokens::tokens_from(source, 0) {
        lemma_program_verified(toks);
        if let Ok(stmts) = program_spec(toks) {
            lemma_each_verified_ops(stmts);
        }
    }
}

} // verus!
