//! Emitting a parsed Simp program and parsing the text again gives the program back.
use vstd::prelude::*;

use crate::errors::ParseErrorModel;
use crate::ir::{as_operands, InstrModel, OperandModel, ValueModel};
use crate::text::{digit_char, digits};
use super::emitter::{instr_text, lemma_opcodes, program_text, statements_text, Emitted};
use super::op;
use super::parser::{
    block_spec, expect_spec, expr_tail, expression_spec, ident_spec, loop_spec, operand_spec,
    parse_spec, program_spec, statement_spec,
};
use super::syntax::{assign_model, body_model, constant_model, pair_model, print_model, variable_model};
use super::tokens::{
    digit_run_end, digits_value, ident_run_end, is_digit, is_ident_char, is_ident_start,
    tokens_from, word_token, TokenModel,
};

verus! {

// # Tokens of text put together

/// Two optional token sequences, one after the other.
pub open spec fn tcat(a: Option<Seq<TokenModel>>, b: Option<Seq<TokenModel>>) -> Option<Seq<TokenModel>> {
    match (a, b) {
        (Some(x), Some(y)) => Some(x + y),
        _ => None,
    }
}

/// Whether two texts put together keep their tokens apart: at the seam, one side has
/// a character that cannot continue a name or a numeral.
pub open spec fn joins(a: Seq<char>, b: Seq<char>) -> bool {
    a.len() == 0 || b.len() == 0 || !is_ident_char(a.last()) || !is_ident_char(b[0])
}

proof fn lemma_digit_is_ident_char(c: char)
    requires
        is_digit(c),
    ensures
        is_ident_char(c),
{
}

proof fn lemma_digit_run_shift(a: Seq<char>, b: Seq<char>, j: int)
    requires
        0 <= j,
    ensures
        digit_run_end(a + b, a.len() + j) == a.len() + digit_run_end(b, j),
    decreases b.len() - j,
{
    if j < b.len() {
        assert((a + b)[a.len() + j] == b[j]);
        lemma_digit_run_shift(a, b, j + 1);
    }
}

proof fn lemma_ident_run_shift(a: Seq<char>, b: Seq<char>, j: int)
    requires
        0 <= j,
    ensures
        ident_run_end(a + b, a.len() + j) == a.len() + ident_run_end(b, j),
    decreases b.len() - j,
{
    if j < b.len() {
        assert((a + b)[a.len() + j] == b[j]);
        lemma_ident_run_shift(a, b, j + 1);
    }
}

proof fn lemma_digit_run_end_bounds(s: Seq<char>, i: int)
    requires
        0 <= i,
    ensures
        digit_run_end(s, i) >= i,
        i <= s.len() ==> digit_run_end(s, i) <= s.len(),
        forall|k: int| i <= k < digit_run_end(s, i) ==> is_digit(#[trigger] s[k]),
    decreases s.len() - i,
{
    if 0 <= i < s.len() && is_digit(s[i]) {
        lemma_digit_run_end_bounds(s, i + 1);
    }
}

proof fn lemma_ident_run_end_bounds(s: Seq<char>, i: int)
    requires
        0 <= i,
    ensures
        ident_run_end(s, i) >= i,
        i <= s.len() ==> ident_run_end(s, i) <= s.len(),
        forall|k: int| i <= k < ident_run_end(s, i) ==> is_ident_char(#[trigger] s[k]),
    decreases s.len() - i,
{
    if 0 <= i < s.len() && is_ident_char(s[i]) {
        lemma_ident_run_end_bounds(s, i + 1);
    }
}

/// Tokens of `b` put after `a` are those of `b` from the seam on.
proof fn lemma_tokens_shift(a: Seq<char>, b: Seq<char>, j: int)
    requires
        0 <= j,
    ensures
        tokens_from(a + b, a.len() + j) == tokens_from(b, j),
    decreases b.len() - j,
{
    let s = a + b;
    let i = a.len() + j;
    if j < b.len() {
        assert(s[i] == b[j]);
        let c = b[j];
        lemma_tokens_shift(a, b, j + 1);
        if is_digit(c) {
            lemma_digit_run_shift(a, b, j + 1);
            let e = digit_run_end(b, j + 1);
            lemma_digit_run_end_bounds(b, j + 1);
            if j < e <= b.len() {
                assert(s.subrange(i, a.len() + e) =~= b.subrange(j, e));
                lemma_tokens_shift(a, b, e);
            }
        } else if is_ident_start(c) {
            lemma_ident_run_shift(a, b, j + 1);
            let e = ident_run_end(b, j + 1);
            lemma_ident_run_end_bounds(b, j + 1);
            if j < e <= b.len() {
                assert(s.subrange(i, a.len() + e) =~= b.subrange(j, e));
                lemma_tokens_shift(a, b, e);
            }
        }
    }
}

proof fn lemma_digit_run_prefix(a: Seq<char>, b: Seq<char>, k: int)
    requires
        1 <= k <= a.len(),
        is_digit(a[k - 1]),
        joins(a, b),
    ensures
        digit_run_end(a + b, k) == digit_run_end(a, k),
    decreases a.len() - k,
{
    let s = a + b;
    if k == a.len() {
        lemma_digit_is_ident_char(a[k - 1]);
        if b.len() > 0 {
            assert(s[k] == b[0]);
            if is_digit(b[0]) {
                lemma_digit_is_ident_char(b[0]);
            }
        }
    } else {
        assert(s[k] == a[k]);
        if is_digit(a[k]) {
            lemma_digit_run_prefix(a, b, k + 1);
        }
    }
}

proof fn lemma_ident_run_prefix(a: Seq<char>, b: Seq<char>, k: int)
    requires
        1 <= k <= a.len(),
        is_ident_char(a[k - 1]) || is_ident_start(a[k - 1]),
        joins(a, b),
    ensures
        ident_run_end(a + b, k) == ident_run_end(a, k),
    decreases a.len() - k,
{
    let s = a + b;
    if k == a.len() {
        if b.len() > 0 {
            assert(s[k] == b[0]);
        }
    } else {
        assert(s[k] == a[k]);
        if is_ident_char(a[k]) {
            lemma_ident_run_prefix(a, b, k + 1);
        }
    }
}

/// The tokens of two texts that join are the tokens of each, one after the other.
proof fn lemma_tokens_prefix(a: Seq<char>, b: Seq<char>, i: int)
    requires
        0 <= i <= a.len(),
        joins(a, b),
    ensures
        tokens_from(a + b, i) == tcat(tokens_from(a, i), tokens_from(b, 0)),
    decreases a.len() - i,
{
    let s = a + b;
    if i == a.len() {
        lemma_tokens_shift(a, b, 0);
        if let Some(y) = tokens_from(b, 0) {
            assert(Seq::<TokenModel>::empty() + y =~= y);
        }
    } else {
        assert(s[i] == a[i]);
        let c = a[i];
        lemma_tokens_prefix(a, b, i + 1);
        if c == '=' || c == '+' || c == '-' || c == '{' || c == '}' {
            if let (Some(x), Some(y)) = (tokens_from(a, i + 1), tokens_from(b, 0)) {
                let t = tokens_from(a, i)->0[0];
                assert(seq![t] + (x + y) =~= (seq![t] + x) + y);
            }
        } else if is_digit(c) {
            lemma_digit_run_prefix(a, b, i + 1);
            let e = digit_run_end(a, i + 1);
            lemma_digit_run_end_bounds(a, i + 1);
            assert(s.subrange(i, e) =~= a.subrange(i, e));
            lemma_tokens_prefix(a, b, e);
            if let (Some(x), Some(y)) = (tokens_from(a, e), tokens_from(b, 0)) {
                let t = TokenModel::Integer(digits_value(a.subrange(i, e)) as i64);
                assert(seq![t] + (x + y) =~= (seq![t] + x) + y);
            }
        } else if is_ident_start(c) {
            lemma_ident_run_prefix(a, b, i + 1);
            let e = ident_run_end(a, i + 1);
            lemma_ident_run_end_bounds(a, i + 1);
            assert(s.subrange(i, e) =~= a.subrange(i, e));
            lemma_tokens_prefix(a, b, e);
            if let (Some(x), Some(y)) = (tokens_from(a, e), tokens_from(b, 0)) {
                let t = word_token(a.subrange(i, e));
                assert(seq![t] + (x + y) =~= (seq![t] + x) + y);
            }
        }
    }
}

/// Law of the tokenizer: the tokens of two texts that join are the tokens of each.
pub proof fn lemma_tokens_concat(a: Seq<char>, b: Seq<char>)
    requires
        joins(a, b),
    ensures
        tokens_from(a + b, 0) == tcat(tokens_from(a, 0), tokens_from(b, 0)),
{
    lemma_tokens_prefix(a, b, 0);
}

// # Tokens of names, numerals and the emitter's punctuation

/// Whether a word is a name: a letter or `_`, then letters, digits or `_`, and not a
/// keyword.
pub open spec fn valid_name(w: Seq<char>) -> bool {
    &&& w.len() > 0
    &&& is_ident_start(w[0])
    &&& forall|k: int| 1 <= k < w.len() ==> is_ident_char(#[trigger] w[k])
    &&& w != "loop"@
    &&& w != "print"@
}

proof fn lemma_name_run(w: Seq<char>, k: int)
    requires
        1 <= k <= w.len(),
        forall|m: int| 1 <= m < w.len() ==> is_ident_char(#[trigger] w[m]),
    ensures
        ident_run_end(w, k) == w.len(),
    decreases w.len() - k,
{
    if k < w.len() {
        lemma_name_run(w, k + 1);
    }
}

proof fn lemma_name_tokens(w: Seq<char>)
    requires
        valid_name(w),
    ensures
        tokens_from(w, 0) == Some(seq![TokenModel::Ident(w)]),
{
    lemma_name_run(w, 1);
    assert(w.subrange(0, w.len() as int) =~= w);
    assert(tokens_from(w, w.len() as int) == Some(Seq::<TokenModel>::empty()));
    let c = w[0];
    assert(!is_digit(c));
    assert(c != '=' && c != '+' && c != '-' && c != '{' && c != '}');
    assert(word_token(w) == TokenModel::Ident(w));
    assert(seq![TokenModel::Ident(w)] + Seq::<TokenModel>::empty() =~= seq![TokenModel::Ident(w)]);
}

/// Whether a character is an ASCII letter of either case, a decimal digit or `_`.
pub open spec fn ascii_word_char(c: char) -> bool {
    ('a' <= c && c <= 'z') || ('A' <= c && c <= 'Z') || ('0' <= c && c <= '9') || c == '_'
}

/// Law of the tokenizer: a word that starts with an ASCII letter of either case or
/// `_`, goes on with ASCII letters, digits and `_`, and is not a keyword, is one name
/// token.
pub proof fn law_word_is_one_name(w: Seq<char>)
    requires
        w.len() > 0,
        ('a' <= w[0] && w[0] <= 'z') || ('A' <= w[0] && w[0] <= 'Z') || w[0] == '_',
        forall|k: int| 1 <= k < w.len() ==> ascii_word_char(#[trigger] w[k]),
        w != "loop"@,
        w != "print"@,
    ensures
        tokens_from(w, 0) == Some(seq![TokenModel::Ident(w)]),
{
    assert forall|k: int| 1 <= k < w.len() implies is_ident_char(#[trigger] w[k]) by {
        assert(ascii_word_char(w[k]));
        assert((w[k] as u32) < 128);
    }
    lemma_name_tokens(w);
}

/// Law of the tokenizer: the decimal numeral of a number that fits an `i64` is one
/// integer token of that number.
pub proof fn law_numeral_is_one_integer(n: nat)
    requires
        n <= i64::MAX,
    ensures
        tokens_from(digits(n), 0) == Some(seq![TokenModel::Integer(n as i64)]),
{
    lemma_number_tokens(n);
}

proof fn lemma_digit_char(d: int)
    requires
        0 <= d < 10,
    ensures
        is_digit(digit_char(d)),
        digit_char(d) as int - '0' as int == d,
{
    let t = seq!['0', '1', '2', '3', '4', '5', '6', '7', '8', '9'];
    assert(digit_char(d) == t[d]);
    if d == 0 {
        assert(t[0] == '0');
    } else if d == 1 {
        assert(t[1] == '1');
    } else if d == 2 {
        assert(t[2] == '2');
    } else if d == 3 {
        assert(t[3] == '3');
    } else if d == 4 {
        assert(t[4] == '4');
    } else if d == 5 {
        assert(t[5] == '5');
    } else if d == 6 {
        assert(t[6] == '6');
    } else if d == 7 {
        assert(t[7] == '7');
    } else if d == 8 {
        assert(t[8] == '8');
    } else {
        assert(t[9] == '9');
    }
}

pub(crate) proof fn lemma_digits_facts(n: nat)
    ensures
        digits(n).len() >= 1,
        forall|k: int| 0 <= k < digits(n).len() ==> is_digit(#[trigger] digits(n)[k]),
        digits_value(digits(n)) == n,
    decreases n,
{
    if n < 10 {
        lemma_digit_char(n as int);
        let one = seq![digit_char(n as int)];
        assert(one.drop_last() =~= Seq::<char>::empty());
        assert(digits_value(Seq::<char>::empty()) == 0);
        assert(digits(n) == one);
        assert(digits_value(one) == digits_value(one.drop_last()) * 10 + (one.last() as int - '0' as int));
    } else {
        lemma_digits_facts(n / 10);
        lemma_digit_char((n % 10) as int);
        let p = digits(n / 10);
        assert(p.push(digit_char((n % 10) as int)).drop_last() =~= p);
        assert((n / 10) * 10 + n % 10 == n);
        assert(digits_value(digits(n)) == digits_value(p) * 10 + (digit_char((n % 10) as int) as int
            - '0' as int));
        assert forall|k: int| 0 <= k < digits(n).len() implies is_digit(#[trigger] digits(n)[k]) by {
            if k < p.len() {
                assert(digits(n)[k] == p[k]);
            }
        }
    }
}

proof fn lemma_digit_run_all(s: Seq<char>, k: int)
    requires
        1 <= k <= s.len(),
        forall|m: int| 0 <= m < s.len() ==> is_digit(#[trigger] s[m]),
    ensures
        digit_run_end(s, k) == s.len(),
    decreases s.len() - k,
{
    if k < s.len() {
        lemma_digit_run_all(s, k + 1);
    }
}

proof fn lemma_number_tokens(n: nat)
    requires
        n <= i64::MAX,
    ensures
        tokens_from(digits(n), 0) == Some(seq![TokenModel::Integer(n as i64)]),
{
    let d = digits(n);
    lemma_digits_facts(n);
    lemma_digit_run_all(d, 1);
    assert(is_digit(d[0]));
    assert(d.subrange(0, d.len() as int) =~= d);
    assert(tokens_from(d, d.len() as int) == Some(Seq::<TokenModel>::empty()));
    let c = d[0];
    assert(c != '=' && c != '+' && c != '-' && c != '{' && c != '}');
    assert(digit_run_end(d, 1) == d.len());
    assert(seq![TokenModel::Integer(n as i64)] + Seq::<TokenModel>::empty() =~= seq![TokenModel::Integer(n as i64)]);
}

/// The tokens of the emitter's punctuation.
proof fn lemma_literal_tokens()
    ensures
        tokens_from("("@, 0) == Some(Seq::<TokenModel>::empty()),
        tokens_from(")"@, 0) == Some(Seq::<TokenModel>::empty()),
        tokens_from(seq!['\n'], 0) == Some(Seq::<TokenModel>::empty()),
        tokens_from(" + "@, 0) == Some(seq![TokenModel::Plus]),
        tokens_from(" - "@, 0) == Some(seq![TokenModel::Minus]),
        tokens_from(" = "@, 0) == Some(seq![TokenModel::Equals]),
        tokens_from(" {\n"@, 0) == Some(seq![TokenModel::LBrace]),
        tokens_from("}"@, 0) == Some(seq![TokenModel::RBrace]),
        tokens_from("print("@, 0) == Some(seq![TokenModel::Print]),
        tokens_from("loop "@, 0) == Some(seq![TokenModel::Loop]),
{
    reveal_strlit("(");
    reveal_strlit(")");
    reveal_strlit(" + ");
    reveal_strlit(" - ");
    reveal_strlit(" = ");
    reveal_strlit(" {\n");
    reveal_strlit("}");
    reveal_strlit("print(");
    reveal_strlit("loop ");
    reveal_strlit("print");
    reveal_strlit("loop");
    reveal_with_fuel(tokens_from, 4);
    reveal_with_fuel(ident_run_end, 6);
    let p = "print("@;
    assert(p.subrange(0, 5) =~= "print"@);
    let l = "loop "@;
    assert(l.subrange(0, 4) =~= "loop"@);
    assert(seq![TokenModel::Plus] + Seq::<TokenModel>::empty() =~= seq![TokenModel::Plus]);
    assert(seq![TokenModel::Minus] + Seq::<TokenModel>::empty() =~= seq![TokenModel::Minus]);
    assert(seq![TokenModel::Equals] + Seq::<TokenModel>::empty() =~= seq![TokenModel::Equals]);
    assert(seq![TokenModel::LBrace] + Seq::<TokenModel>::empty() =~= seq![TokenModel::LBrace]);
    assert(seq![TokenModel::RBrace] + Seq::<TokenModel>::empty() =~= seq![TokenModel::RBrace]);
    assert(seq![TokenModel::Print] + Seq::<TokenModel>::empty() =~= seq![TokenModel::Print]);
    assert(seq![TokenModel::Loop] + Seq::<TokenModel>::empty() =~= seq![TokenModel::Loop]);
}

// # The shapes of what parsing gives

/// Whether an instruction is an operand that parsing gives: a constant that is not
/// negative, or a variable with a name.
pub open spec fn leaf_ok(x: InstrModel) -> bool {
    &&& x.operands.len() == 1
    &&& {
        ||| x.opcode == op::CONSTANT@ && (x.operands[0] matches OperandModel::Value(ValueModel::SimpInt(n)) && n >= 0)
        ||| x.opcode == op::VARIABLE@ && (x.operands[0] matches OperandModel::Value(ValueModel::SimpStr(w)) && valid_name(w))
    }
}

/// Whether an instruction is an expression that parsing gives: an operand, or an
/// addition or subtraction of an expression and an operand.
pub open spec fn expr_ok(e: InstrModel) -> bool
    decreases e,
{
    if e.opcode == op::ADD@ || e.opcode == op::SUB@ {
        e.operands.len() == 2 && match e.operands[0] {
            OperandModel::Instruction(l) => expr_ok(l) && (e.operands[1] matches OperandModel::Instruction(r) && leaf_ok(r)),
            _ => false,
        }
    } else {
        leaf_ok(e)
    }
}

/// Whether an instruction is a statement that parsing gives.
pub open spec fn stmt_ok(s: InstrModel) -> bool
    decreases s,
{
    if s.opcode == op::ASSIGN@ {
        &&& s.operands.len() == 2
        &&& s.operands[0] matches OperandModel::Value(ValueModel::SimpStr(w)) && valid_name(w)
        &&& s.operands[1] matches OperandModel::Instruction(e) && expr_ok(e)
    } else if s.opcode == op::PRINT@ {
        &&& s.operands.len() == 1
        &&& s.operands[0] matches OperandModel::Instruction(x) && leaf_ok(x)
    } else if s.opcode == op::LOOP@ {
        &&& s.operands.len() == 2
        &&& s.operands[0] matches OperandModel::Instruction(c) && leaf_ok(c)
        &&& match s.operands[1] {
            OperandModel::Instruction(b) => b.opcode == op::BODY@ && ops_ok(b.operands),
            _ => false,
        }
    } else {
        false
    }
}

/// Whether an operand is a statement that parsing gives.
pub open spec fn op_ok(o: OperandModel) -> bool
    decreases o,
{
    match o {
        OperandModel::Instruction(t) => stmt_ok(t),
        _ => false,
    }
}

/// Whether operands are statements that parsing gives.
pub open spec fn ops_ok(ops: Seq<OperandModel>) -> bool
    decreases ops,
{
    if ops.len() == 0 {
        true
    } else {
        ops_ok(ops.drop_last()) && op_ok(ops.last())
    }
}

/// Whether each of some operands is a statement that parsing gives.
pub open spec fn all_ok(ops: Seq<OperandModel>) -> bool {
    forall|k: int| 0 <= k < ops.len() ==> op_ok(#[trigger] ops[k])
}

proof fn lemma_ops_ok_all(ops: Seq<OperandModel>)
    ensures
        ops_ok(ops) == all_ok(ops),
    decreases ops.len(),
{
    if ops.len() > 0 {
        lemma_ops_ok_all(ops.drop_last());
        if all_ok(ops) {
            assert forall|k: int| 0 <= k < ops.drop_last().len() implies op_ok(#[trigger] ops.drop_last()[k]) by {
                assert(ops.drop_last()[k] == ops[k]);
            }
            assert(op_ok(ops[ops.len() - 1]));
        }
        if ops_ok(ops) {
            assert forall|k: int| 0 <= k < ops.len() implies op_ok(#[trigger] ops[k]) by {
                if k < ops.len() - 1 {
                    assert(ops.drop_last()[k] == ops[k]);
                }
            }
        }
    }
}

// # The tokens of what parsing gives

/// The instruction of an operand.
pub open spec fn instr_of(o: OperandModel) -> InstrModel {
    match o {
        OperandModel::Instruction(i) => i,
        OperandModel::Value(_) => constant_model(0),
    }
}

/// The token of an operand that parsing gives.
pub open spec fn leaf_token(x: InstrModel) -> TokenModel {
    match x.operands[0] {
        OperandModel::Value(ValueModel::SimpInt(n)) => TokenModel::Integer(n),
        OperandModel::Value(ValueModel::SimpStr(w)) => TokenModel::Ident(w),
        _ => TokenModel::Equals,
    }
}

/// The first operand of an expression.
pub open spec fn first_leaf(e: InstrModel) -> InstrModel
    decreases e,
{
    if (e.opcode == op::ADD@ || e.opcode == op::SUB@) && e.operands.len() == 2 {
        match e.operands[0] {
            OperandModel::Instruction(l) => first_leaf(l),
            _ => e,
        }
    } else {
        e
    }
}

/// The tokens of an expression after its first operand.
pub open spec fn tail_tokens(e: InstrModel) -> Seq<TokenModel>
    decreases e,
{
    if (e.opcode == op::ADD@ || e.opcode == op::SUB@) && e.operands.len() == 2 {
        match e.operands[0] {
            OperandModel::Instruction(l) => tail_tokens(l) + seq![
                if e.opcode == op::ADD@ { TokenModel::Plus } else { TokenModel::Minus },
                leaf_token(instr_of(e.operands[1])),
            ],
            _ => Seq::empty(),
        }
    } else {
        Seq::empty()
    }
}

/// The tokens of an expression.
pub open spec fn expr_tokens(e: InstrModel) -> Seq<TokenModel> {
    seq![leaf_token(first_leaf(e))] + tail_tokens(e)
}

/// The name that an assignment sets.
pub open spec fn name_of(s: InstrModel) -> Seq<char> {
    match s.operands[0] {
        OperandModel::Value(ValueModel::SimpStr(w)) => w,
        _ => Seq::empty(),
    }
}

/// The tokens of a statement.
pub open spec fn stmt_tokens(s: InstrModel) -> Seq<TokenModel>
    decreases s,
{
    if s.opcode == op::LOOP@ && s.operands.len() == 2 {
        match s.operands[1] {
            OperandModel::Instruction(b) => seq![
                TokenModel::Loop,
                leaf_token(instr_of(s.operands[0])),
                TokenModel::LBrace,
            ] + stmts_tokens(b.operands) + seq![TokenModel::RBrace],
            _ => Seq::empty(),
        }
    } else if s.opcode == op::PRINT@ {
        seq![TokenModel::Print, leaf_token(instr_of(s.operands[0]))]
    } else {
        seq![TokenModel::Ident(name_of(s)), TokenModel::Equals] + expr_tokens(
            instr_of(s.operands[1]),
        )
    }
}

/// The tokens of an operand that is a statement.
pub open spec fn op_tokens(o: OperandModel) -> Seq<TokenModel>
    decreases o,
{
    match o {
        OperandModel::Instruction(t) => stmt_tokens(t),
        _ => Seq::empty(),
    }
}

/// The tokens of statements, one after the other.
pub open spec fn stmts_tokens(ops: Seq<OperandModel>) -> Seq<TokenModel>
    decreases ops,
{
    if ops.len() == 0 {
        Seq::empty()
    } else {
        stmts_tokens(ops.drop_last()) + op_tokens(ops.last())
    }
}

// # The text that the emitter gives, token by token

/// Whether an instruction emits a text with the given tokens.
pub open spec fn emits(i: InstrModel, toks: Seq<TokenModel>) -> bool {
    instr_text(i) matches Emitted::Text(t) && tokens_from(t, 0) == Some(toks)
}

proof fn lemma_cat(a: Seq<char>, b: Seq<char>, ta: Seq<TokenModel>, tb: Seq<TokenModel>)
    requires
        tokens_from(a, 0) == Some(ta),
        tokens_from(b, 0) == Some(tb),
        joins(a, b),
    ensures
        tokens_from(a + b, 0) == Some(ta + tb),
{
    lemma_tokens_concat(a, b);
}

proof fn lemma_leaf_emits(x: InstrModel)
    requires
        leaf_ok(x),
    ensures
        emits(x, seq![leaf_token(x)]),
{
    lemma_opcodes();
    match x.operands[0] {
        OperandModel::Value(ValueModel::SimpInt(n)) => {
            lemma_number_tokens(n as nat);
        },
        OperandModel::Value(ValueModel::SimpStr(w)) => {
            lemma_name_tokens(w);
        },
        _ => {},
    }
}

proof fn lemma_first_leaf(e: InstrModel)
    requires
        expr_ok(e),
    ensures
        leaf_ok(first_leaf(e)),
    decreases e,
{
    lemma_opcodes();
    if e.opcode == op::ADD@ || e.opcode == op::SUB@ {
        if let OperandModel::Instruction(l) = e.operands[0] {
            lemma_first_leaf(l);
        }
    }
}

proof fn lemma_expr_opcode(e: InstrModel)
    requires
        expr_ok(e),
    ensures
        super::emitter::is_expression_opcode(e.opcode),
{
}

proof fn lemma_expr_emits(e: InstrModel)
    requires
        expr_ok(e),
    ensures
        emits(e, expr_tokens(e)),
    decreases e,
{
    lemma_opcodes();
    if e.opcode == op::ADD@ || e.opcode == op::SUB@ {
        if let OperandModel::Instruction(l) = e.operands[0] {
            if let OperandModel::Instruction(r) = e.operands[1] {
                lemma_expr_emits(l);
                lemma_leaf_emits(r);
                lemma_literal_tokens();
                reveal_strlit("(");
                reveal_strlit(")");
                reveal_strlit(" + ");
                reveal_strlit(" - ");
                let tl = instr_text(l)->Text_0;
                let tr = instr_text(r)->Text_0;
                let opt = if e.opcode == op::ADD@ { " + "@ } else { " - "@ };
                let opk = if e.opcode == op::ADD@ { TokenModel::Plus } else { TokenModel::Minus };
                lemma_cat("("@, tl, Seq::empty(), expr_tokens(l));
                let a1 = "("@ + tl;
                lemma_cat(a1, opt, Seq::empty() + expr_tokens(l), seq![opk]);
                let a2 = a1 + opt;
                assert(a2.last() == ' ');
                lemma_cat(a2, tr, Seq::empty() + expr_tokens(l) + seq![opk], seq![leaf_token(r)]);
                let a3 = a2 + tr;
                lemma_cat(a3, ")"@, Seq::empty() + expr_tokens(l) + seq![opk] + seq![leaf_token(r)], Seq::empty());
                lemma_expr_opcode(l);
                assert(super::emitter::operand_text(e.operands[0], 0) == instr_text(l));
                assert(super::emitter::operand_text(e.operands[1], 1) == instr_text(r));
                assert(instr_text(e) == Emitted::Text(a3 + ")"@));
                assert(Seq::empty() + expr_tokens(l) + seq![opk] + seq![leaf_token(r)] + Seq::empty() =~= expr_tokens(e));
            }
        }
    } else {
        lemma_leaf_emits(e);
    }
}

/// Whether a text is empty or ends a line.
pub open spec fn ends_line(t: Seq<char>) -> bool {
    t.len() == 0 || t.last() == '\n'
}

proof fn lemma_stmt_emits(s: InstrModel)
    requires
        stmt_ok(s),
    ensures
        emits(s, stmt_tokens(s)),
    decreases s,
{
    lemma_opcodes();
    lemma_literal_tokens();
    reveal_strlit(" = ");
    reveal_strlit("print(");
    reveal_strlit(")");
    reveal_strlit("loop ");
    reveal_strlit(" {\n");
    reveal_strlit("}");
    if s.opcode == op::ASSIGN@ {
        if let OperandModel::Value(ValueModel::SimpStr(w)) = s.operands[0] {
            if let OperandModel::Instruction(e) = s.operands[1] {
                lemma_expr_emits(e);
                lemma_expr_opcode(e);
                lemma_name_tokens(w);
                let te = instr_text(e)->Text_0;
                assert(super::emitter::operand_text(s.operands[1], 1) == instr_text(e));
                assert(instr_text(s) == Emitted::Text(w + " = "@ + te));
                lemma_cat(w, " = "@, seq![TokenModel::Ident(w)], seq![TokenModel::Equals]);
                let a1 = w + " = "@;
                assert(a1.last() == ' ');
                lemma_cat(a1, te, seq![TokenModel::Ident(w)] + seq![TokenModel::Equals], expr_tokens(e));
                assert(seq![TokenModel::Ident(w)] + seq![TokenModel::Equals] + expr_tokens(e) =~= stmt_tokens(s));
            }
        }
    } else if s.opcode == op::PRINT@ {
        if let OperandModel::Instruction(x) = s.operands[0] {
            lemma_leaf_emits(x);
            let tx = instr_text(x)->Text_0;
            assert(super::emitter::operand_text(s.operands[0], 0) == instr_text(x));
            assert(instr_text(s) == Emitted::Text("print("@ + tx + ")"@));
            lemma_cat("print("@, tx, seq![TokenModel::Print], seq![leaf_token(x)]);
            let a1 = "print("@ + tx;
            lemma_cat(a1, ")"@, seq![TokenModel::Print] + seq![leaf_token(x)], Seq::empty());
            assert(seq![TokenModel::Print] + seq![leaf_token(x)] + Seq::<TokenModel>::empty() =~= stmt_tokens(s));
        }
    } else {
        if let OperandModel::Instruction(c) = s.operands[0] {
            if let OperandModel::Instruction(b) = s.operands[1] {
                assert(decreases_to!(s => b));
                lemma_leaf_emits(c);
                lemma_ops_emits(b.operands);
                let tc = instr_text(c)->Text_0;
                let tb = statements_text(b.operands)->Text_0;
                let tt = stmts_tokens(b.operands);
                assert(super::emitter::operand_text(s.operands[0], 0) == instr_text(c));
                assert(instr_text(s) == Emitted::Text("loop "@ + tc + " {\n"@ + tb + "}"@));
                lemma_cat("loop "@, tc, seq![TokenModel::Loop], seq![leaf_token(c)]);
                let a1 = "loop "@ + tc;
                let k1 = seq![TokenModel::Loop] + seq![leaf_token(c)];
                lemma_cat(a1, " {\n"@, k1, seq![TokenModel::LBrace]);
                let a2 = a1 + " {\n"@;
                let k2 = k1 + seq![TokenModel::LBrace];
                assert(a2.last() == '\n');
                lemma_cat(a2, tb, k2, tt);
                let a3 = a2 + tb;
                lemma_cat(a3, "}"@, k2 + tt, seq![TokenModel::RBrace]);
                assert(k2 + tt + seq![TokenModel::RBrace] =~= stmt_tokens(s));
            }
        }
    }
}

proof fn lemma_ops_emits(ops: Seq<OperandModel>)
    requires
        ops_ok(ops),
    ensures
        statements_text(ops) matches Emitted::Text(t) && tokens_from(t, 0) == Some(stmts_tokens(ops)) && ends_line(t),
    decreases ops,
{
    if ops.len() > 0 {
        lemma_ops_emits(ops.drop_last());
        assert(decreases_to!(ops => ops[ops.len() - 1]));
        assert(op_ok(ops.last()));
        if let OperandModel::Instruction(t) = ops.last() {
            assert(stmt_ok(t));
            assert(op_tokens(ops.last()) == stmt_tokens(t));
            lemma_stmt_emits(t);
            lemma_literal_tokens();
            let a = statements_text(ops.drop_last())->Text_0;
            let b = instr_text(t)->Text_0;
            lemma_cat(a, b, stmts_tokens(ops.drop_last()), stmt_tokens(t));
            lemma_cat(a + b, seq!['\n'], stmts_tokens(ops.drop_last()) + stmt_tokens(t), Seq::empty());
            assert(stmts_tokens(ops.drop_last()) + stmt_tokens(t) + Seq::<TokenModel>::empty() =~= stmts_tokens(ops));
            assert((a + b + seq!['\n']).last() == '\n');
        }
    }
}

proof fn lemma_program_text(s: Seq<InstrModel>)
    ensures
        program_text(s) == statements_text(as_operands(s)),
    decreases s.len(),
{
    if s.len() > 0 {
        lemma_program_text(s.drop_last());
        assert(as_operands(s).drop_last() =~= as_operands(s.drop_last()));
        assert(as_operands(s).last() == OperandModel::Instruction(s.last()));
    }
}

// # Parsing the tokens of what parsing gives

/// Whether tokens may follow an expression without extending it.
pub open spec fn follows_ok(r: Seq<TokenModel>) -> bool {
    r.len() == 0 || !(r[0] is Plus || r[0] is Minus)
}

/// Whether tokens start a statement.
pub open spec fn starts_stmt(r: Seq<TokenModel>) -> bool {
    r.len() > 0 && (r[0] is Ident || r[0] is Print || r[0] is Loop)
}

/// The instructions of some operands.
pub open spec fn stmts_of(ops: Seq<OperandModel>) -> Seq<InstrModel> {
    ops.map_values(|o: OperandModel| instr_of(o))
}

proof fn lemma_leaf_parses(x: InstrModel, rest: Seq<TokenModel>)
    requires
        leaf_ok(x),
    ensures
        operand_spec(seq![leaf_token(x)] + rest) == Ok::<(InstrModel, Seq<TokenModel>), ParseErrorModel>((x, rest)),
{
    lemma_opcodes();
    let r = seq![leaf_token(x)] + rest;
    assert(r.drop_first() =~= rest);
    match x.operands[0] {
        OperandModel::Value(ValueModel::SimpInt(n)) => {
            assert(x.operands =~= constant_model(n).operands);
        },
        OperandModel::Value(ValueModel::SimpStr(w)) => {
            assert(x.operands =~= variable_model(w).operands);
        },
        _ => {},
    }
}

proof fn lemma_tail_parses(e: InstrModel, rest: Seq<TokenModel>)
    requires
        expr_ok(e),
    ensures
        expr_tail(tail_tokens(e) + rest, first_leaf(e)) == expr_tail(rest, e),
    decreases e,
{
    lemma_opcodes();
    if e.opcode == op::ADD@ || e.opcode == op::SUB@ {
        if let OperandModel::Instruction(l) = e.operands[0] {
            if let OperandModel::Instruction(r) = e.operands[1] {
                let opk = if e.opcode == op::ADD@ { TokenModel::Plus } else { TokenModel::Minus };
                let x = seq![opk, leaf_token(r)] + rest;
                assert(tail_tokens(e) + rest =~= tail_tokens(l) + x);
                lemma_tail_parses(l, x);
                assert(x.drop_first() =~= seq![leaf_token(r)] + rest);
                lemma_leaf_parses(r, rest);
                assert(e.operands =~= pair_model(e.opcode, l, r).operands);
            }
        }
    } else {
        assert(tail_tokens(e) + rest =~= rest);
    }
}

proof fn lemma_expr_parses(e: InstrModel, rest: Seq<TokenModel>)
    requires
        expr_ok(e),
        follows_ok(rest),
    ensures
        expression_spec(expr_tokens(e) + rest) == Ok::<(InstrModel, Seq<TokenModel>), ParseErrorModel>((e, rest)),
{
    lemma_first_leaf(e);
    assert(expr_tokens(e) + rest =~= seq![leaf_token(first_leaf(e))] + (tail_tokens(e) + rest));
    lemma_leaf_parses(first_leaf(e), tail_tokens(e) + rest);
    lemma_tail_parses(e, rest);
}

proof fn lemma_stmt_first(t: InstrModel)
    requires
        stmt_ok(t),
    ensures
        starts_stmt(stmt_tokens(t)),
{
    lemma_opcodes();
}

proof fn lemma_stmts_tokens_front(ops: Seq<OperandModel>)
    requires
        ops.len() > 0,
    ensures
        stmts_tokens(ops) == op_tokens(ops[0]) + stmts_tokens(ops.subrange(1, ops.len() as int)),
    decreases ops.len(),
{
    let tail = ops.subrange(1, ops.len() as int);
    if ops.len() == 1 {
        assert(stmts_tokens(ops.drop_last()) == Seq::<TokenModel>::empty());
        assert(stmts_tokens(tail) == Seq::<TokenModel>::empty());
        assert(op_tokens(ops[0]) + Seq::<TokenModel>::empty() =~= op_tokens(ops[0]));
        assert(Seq::<TokenModel>::empty() + op_tokens(ops[0]) =~= op_tokens(ops[0]));
    } else {
        let dl = ops.drop_last();
        lemma_stmts_tokens_front(dl);
        assert(dl.subrange(1, dl.len() as int) =~= tail.drop_last());
        assert(tail.last() == ops.last());
        assert(stmts_tokens(tail) == stmts_tokens(tail.drop_last()) + op_tokens(tail.last()));
        assert(op_tokens(dl[0]) + stmts_tokens(tail.drop_last()) + op_tokens(ops.last()) =~= op_tokens(
            ops[0],
        ) + stmts_tokens(tail));
    }
}

proof fn lemma_stmts_first(ops: Seq<OperandModel>)
    requires
        all_ok(ops),
        ops.len() > 0,
    ensures
        starts_stmt(stmts_tokens(ops)),
{
    lemma_stmts_tokens_front(ops);
    assert(op_ok(ops[0]));
    if let OperandModel::Instruction(t) = ops[0] {
        lemma_stmt_first(t);
    }
}

proof fn lemma_all_ok_tail(ops: Seq<OperandModel>)
    requires
        all_ok(ops),
        ops.len() > 0,
    ensures
        all_ok(ops.subrange(1, ops.len() as int)),
{
    assert forall|k: int| 0 <= k < ops.subrange(1, ops.len() as int).len() implies op_ok(
        #[trigger] ops.subrange(1, ops.len() as int)[k],
    ) by {
        assert(ops.subrange(1, ops.len() as int)[k] == ops[k + 1]);
    }
}

proof fn lemma_stmts_of_ops(ops: Seq<OperandModel>)
    requires
        all_ok(ops),
    ensures
        as_operands(stmts_of(ops)) == ops,
{
    assert forall|k: int| 0 <= k < ops.len() implies as_operands(stmts_of(ops))[k] == ops[k] by {
        assert(op_ok(ops[k]));
    }
    assert(as_operands(stmts_of(ops)) =~= ops);
}

proof fn lemma_stmt_parses(s: InstrModel, rest: Seq<TokenModel>)
    requires
        stmt_ok(s),
        follows_ok(rest),
    ensures
        statement_spec(stmt_tokens(s) + rest) == Ok::<(InstrModel, Seq<TokenModel>), ParseErrorModel>((s, rest)),
    decreases s,
{
    lemma_opcodes();
    let r = stmt_tokens(s) + rest;
    if s.opcode == op::ASSIGN@ {
        if let OperandModel::Value(ValueModel::SimpStr(w)) = s.operands[0] {
            if let OperandModel::Instruction(e) = s.operands[1] {
                assert(r.drop_first().drop_first() =~= expr_tokens(e) + rest);
                lemma_expr_parses(e, rest);
                assert(s.operands =~= assign_model(w, e).operands);
            }
        }
    } else if s.opcode == op::PRINT@ {
        if let OperandModel::Instruction(x) = s.operands[0] {
            assert(r.drop_first() =~= seq![leaf_token(x)] + rest);
            lemma_leaf_parses(x, rest);
            assert(s.operands =~= print_model(x).operands);
        }
    } else {
        if let OperandModel::Instruction(c) = s.operands[0] {
            if let OperandModel::Instruction(b) = s.operands[1] {
                assert(decreases_to!(s => b));
                let ops = b.operands;
                lemma_ops_ok_all(ops);
                let r4 = stmts_tokens(ops) + (seq![TokenModel::RBrace] + rest);
                let r3 = seq![TokenModel::LBrace] + r4;
                assert(r.drop_first() =~= seq![leaf_token(c)] + r3);
                lemma_leaf_parses(c, r3);
                assert(r3.drop_first() =~= r4);
                lemma_block_parses(ops, rest);
                lemma_stmts_of_ops(ops);
                assert(b == body_model(stmts_of(ops)));
                assert(s.operands =~= pair_model(op::LOOP@, c, body_model(stmts_of(ops))).operands);
                assert(expect_spec(seq![TokenModel::RBrace] + rest, TokenModel::RBrace) == Ok::<Seq<TokenModel>, ParseErrorModel>(rest)) by {
                    assert((seq![TokenModel::RBrace] + rest).drop_first() =~= rest);
                }
            }
        }
    }
}

proof fn lemma_block_parses(ops: Seq<OperandModel>, rest: Seq<TokenModel>)
    requires
        all_ok(ops),
    ensures
        super::parser::block_spec(stmts_tokens(ops) + (seq![TokenModel::RBrace] + rest)) == Ok::<(Seq<InstrModel>, Seq<TokenModel>), ParseErrorModel>((stmts_of(ops), seq![TokenModel::RBrace] + rest)),
    decreases ops,
{
    let end = seq![TokenModel::RBrace] + rest;
    if ops.len() == 0 {
        assert(stmts_tokens(ops) + end =~= end);
        assert(stmts_of(ops) =~= Seq::<InstrModel>::empty());
    } else {
        let tail = ops.subrange(1, ops.len() as int);
        lemma_stmts_tokens_front(ops);
        lemma_all_ok_tail(ops);
        assert(op_ok(ops[0]));
        assert(decreases_to!(ops => ops[0]));
        if let OperandModel::Instruction(t) = ops[0] {
            let r2 = stmts_tokens(tail) + end;
            let r = stmts_tokens(ops) + end;
            assert(r =~= stmt_tokens(t) + r2);
            lemma_stmt_first(t);
            if tail.len() > 0 {
                lemma_stmts_first(tail);
            }
            assert(follows_ok(r2));
            lemma_stmt_parses(t, r2);
            lemma_block_parses(tail, rest);
            assert(seq![t] + stmts_of(tail) =~= stmts_of(ops));
        }
    }
}

proof fn lemma_program_parses(ops: Seq<OperandModel>)
    requires
        all_ok(ops),
    ensures
        program_spec(stmts_tokens(ops)) == Ok::<Seq<InstrModel>, ParseErrorModel>(stmts_of(ops)),
    decreases ops.len(),
{
    if ops.len() == 0 {
        assert(stmts_of(ops) =~= Seq::<InstrModel>::empty());
    } else {
        let tail = ops.subrange(1, ops.len() as int);
        lemma_stmts_tokens_front(ops);
        lemma_all_ok_tail(ops);
        assert(op_ok(ops[0]));
        if let OperandModel::Instruction(t) = ops[0] {
            let r2 = stmts_tokens(tail);
            lemma_stmt_first(t);
            if tail.len() > 0 {
                lemma_stmts_first(tail);
            }
            lemma_stmt_parses(t, r2);
            lemma_program_parses(tail);
            assert(seq![t] + stmts_of(tail) =~= stmts_of(ops));
        }
    }
}

// # What parsing gives has those shapes

/// Whether a token is one that the tokenizer gives: an integer that is not negative,
/// or a name.
pub open spec fn tok_ok(t: TokenModel) -> bool {
    match t {
        TokenModel::Integer(n) => n >= 0,
        TokenModel::Ident(w) => valid_name(w),
        _ => true,
    }
}

/// Whether each of some tokens is one that the tokenizer gives.
pub open spec fn tokens_valid(r: Seq<TokenModel>) -> bool {
    forall|k: int| 0 <= k < r.len() ==> tok_ok(#[trigger] r[k])
}

proof fn lemma_digits_nonneg(d: Seq<char>)
    requires
        forall|k: int| 0 <= k < d.len() ==> is_digit(#[trigger] d[k]),
    ensures
        digits_value(d) >= 0,
    decreases d.len(),
{
    if d.len() > 0 {
        assert forall|k: int| 0 <= k < d.drop_last().len() implies is_digit(#[trigger] d.drop_last()[k]) by {
            assert(d.drop_last()[k] == d[k]);
        }
        lemma_digits_nonneg(d.drop_last());
        assert(is_digit(d[d.len() - 1]));
    }
}

proof fn lemma_valid_cons(t: TokenModel, rest: Seq<TokenModel>)
    requires
        tok_ok(t),
        tokens_valid(rest),
    ensures
        tokens_valid(seq![t] + rest),
{
    assert forall|k: int| 0 <= k < (seq![t] + rest).len() implies tok_ok(#[trigger] (seq![t] + rest)[k]) by {
        if k > 0 {
            assert((seq![t] + rest)[k] == rest[k - 1]);
        }
    }
}

proof fn lemma_valid_drop(r: Seq<TokenModel>)
    requires
        tokens_valid(r),
        r.len() > 0,
    ensures
        tokens_valid(r.drop_first()),
{
    assert forall|k: int| 0 <= k < r.drop_first().len() implies tok_ok(#[trigger] r.drop_first()[k]) by {
        assert(r.drop_first()[k] == r[k + 1]);
    }
}

/// The tokenizer gives integers that are not negative, and names.
proof fn lemma_tokens_valid(s: Seq<char>, i: int)
    requires
        0 <= i,
    ensures
        tokens_from(s, i) matches Some(t) ==> tokens_valid(t),
    decreases s.len() - i,
{
    if i < s.len() {
        let c = s[i];
        lemma_tokens_valid(s, i + 1);
        if c == '=' || c == '+' || c == '-' || c == '{' || c == '}' {
            if let Some(rest) = tokens_from(s, i + 1) {
                lemma_valid_cons(tokens_from(s, i)->0[0], rest);
                assert(tokens_from(s, i)->0 =~= seq![tokens_from(s, i)->0[0]] + rest);
            }
        } else if is_digit(c) {
            let j = digit_run_end(s, i + 1);
            lemma_digit_run_end_bounds(s, i + 1);
            if i < j <= s.len() {
                let d = s.subrange(i, j);
                assert forall|k: int| 0 <= k < d.len() implies is_digit(#[trigger] d[k]) by {
                    assert(d[k] == s[i + k]);
                }
                lemma_digits_nonneg(d);
                lemma_tokens_valid(s, j);
                if let Some(rest) = tokens_from(s, j) {
                    if digits_value(d) <= i64::MAX {
                        lemma_valid_cons(TokenModel::Integer(digits_value(d) as i64), rest);
                    }
                }
            }
        } else if is_ident_start(c) {
            let j = ident_run_end(s, i + 1);
            lemma_ident_run_end_bounds(s, i + 1);
            if i < j <= s.len() {
                let w = s.subrange(i, j);
                lemma_tokens_valid(s, j);
                assert forall|k: int| 1 <= k < w.len() implies is_ident_char(#[trigger] w[k]) by {
                    assert(w[k] == s[i + k]);
                }
                assert(w[0] == c);
                if let Some(rest) = tokens_from(s, j) {
                    lemma_valid_cons(word_token(w), rest);
                }
            }
        }
    }
}

proof fn lemma_operand_shape(r: Seq<TokenModel>)
    requires
        tokens_valid(r),
    ensures
        operand_spec(r) matches Ok((x, r2)) ==> leaf_ok(x) && tokens_valid(r2),
{
    lemma_opcodes();
    if r.len() > 0 {
        lemma_valid_drop(r);
        assert(tok_ok(r[0]));
    }
}

proof fn lemma_expr_tail_shape(r: Seq<TokenModel>, lhs: InstrModel)
    requires
        tokens_valid(r),
        expr_ok(lhs),
    ensures
        expr_tail(r, lhs) matches Ok((e, r2)) ==> expr_ok(e) && tokens_valid(r2),
    decreases r.len(),
{
    lemma_opcodes();
    if r.len() > 0 && (r[0] is Plus || r[0] is Minus) {
        lemma_valid_drop(r);
        lemma_operand_shape(r.drop_first());
        if let Ok((rhs, r2)) = operand_spec(r.drop_first()) {
            if r2.len() < r.len() {
                let combined = if r[0] is Plus {
                    pair_model(op::ADD@, lhs, rhs)
                } else {
                    pair_model(op::SUB@, lhs, rhs)
                };
                assert(expr_ok(combined));
                lemma_expr_tail_shape(r2, combined);
            }
        }
    }
}

proof fn lemma_statement_shape(r: Seq<TokenModel>)
    requires
        tokens_valid(r),
    ensures
        statement_spec(r) matches Ok((s, r2)) ==> stmt_ok(s) && tokens_valid(r2),
    decreases r.len(), 1nat,
{
    lemma_opcodes();
    if r.len() > 0 {
        lemma_valid_drop(r);
        assert(tok_ok(r[0]));
        match r[0] {
            TokenModel::Loop => lemma_loop_shape(r),
            TokenModel::Print => {
                if let Ok(r2) = expect_spec(r, TokenModel::Print) {
                    lemma_operand_shape(r2);
                }
            },
            TokenModel::Ident(_) => {
                if let Ok((name, r2)) = ident_spec(r) {
                    if let Ok(r3) = expect_spec(r2, TokenModel::Equals) {
                        lemma_valid_drop(r2);
                        lemma_operand_shape(r3);
                        if let Ok((lhs, r4)) = operand_spec(r3) {
                            lemma_expr_tail_shape(r4, lhs);
                        }
                    }
                }
            },
            _ => {},
        }
    }
}

proof fn lemma_loop_shape(r: Seq<TokenModel>)
    requires
        tokens_valid(r),
    ensures
        loop_spec(r) matches Ok((s, r6)) ==> stmt_ok(s) && tokens_valid(r6),
    decreases r.len(), 0nat,
{
    lemma_opcodes();
    if let Ok(r2) = expect_spec(r, TokenModel::Loop) {
        lemma_valid_drop(r);
        lemma_operand_shape(r2);
        if let Ok((count, r3)) = operand_spec(r2) {
            if let Ok(r4) = expect_spec(r3, TokenModel::LBrace) {
                lemma_valid_drop(r3);
                if r4.len() < r.len() {
                    lemma_block_shape(r4);
                    if let Ok((stmts, r5)) = block_spec(r4) {
                        if let Ok(r6) = expect_spec(r5, TokenModel::RBrace) {
                            lemma_valid_drop(r5);
                            lemma_ops_ok_all(as_operands(stmts));
                            let b = body_model(stmts);
                            assert(ops_ok(b.operands));
                            assert(stmt_ok(pair_model(op::LOOP@, count, b)));
                        }
                    }
                }
            }
        }
    }
}

proof fn lemma_block_shape(r: Seq<TokenModel>)
    requires
        tokens_valid(r),
    ensures
        block_spec(r) matches Ok((stmts, r3)) ==> all_ok(as_operands(stmts)) && tokens_valid(r3),
    decreases r.len(), 2nat,
{
    if r.len() > 0 && !(r[0] is RBrace) {
        lemma_statement_shape(r);
        if let Ok((s, r2)) = statement_spec(r) {
            if r2.len() < r.len() {
                lemma_block_shape(r2);
                if let Ok((rest, r3)) = block_spec(r2) {
                    let all = as_operands(seq![s] + rest);
                    assert forall|k: int| 0 <= k < all.len() implies op_ok(#[trigger] all[k]) by {
                        if k > 0 {
                            assert(all[k] == as_operands(rest)[k - 1]);
                        }
                    }
                }
            }
        }
    } else {
        assert(as_operands(Seq::<InstrModel>::empty()) =~= Seq::<OperandModel>::empty());
    }
}

proof fn lemma_program_shape(r: Seq<TokenModel>)
    requires
        tokens_valid(r),
    ensures
        program_spec(r) matches Ok(stmts) ==> all_ok(as_operands(stmts)),
    decreases r.len(),
{
    if r.len() > 0 {
        lemma_statement_shape(r);
        if let Ok((s, r2)) = statement_spec(r) {
            if r2.len() < r.len() {
                lemma_program_shape(r2);
                if let Ok(rest) = program_spec(r2) {
                    let all = as_operands(seq![s] + rest);
                    assert forall|k: int| 0 <= k < all.len() implies op_ok(#[trigger] all[k]) by {
                        if k > 0 {
                            assert(all[k] == as_operands(rest)[k - 1]);
                        }
                    }
                }
            }
        }
    } else {
        assert(as_operands(Seq::<InstrModel>::empty()) =~= Seq::<OperandModel>::empty());
    }
}

// # The law

/// Law: the Simp text that the emitter gives for a module that parsing gives parses
/// back to the same module: the parentheses that the emitter writes are skipped, and
/// the additions and subtractions are nested from the left again.
pub proof fn law_emitted_program_parses_back(source: Seq<char>)
    ensures
        parse_spec(source) matches Some(Ok(m)) ==> (program_text(m.instructions) matches Emitted::Text(t) && parse_spec(t) == Some(Ok::<crate::ir::ModuleModel, crate::errors::CompileErrorModel>(m))),
{
    if let Some(toks) = tokens_from(source, 0) {
        lemma_tokens_valid(source, 0);
        lemma_program_shape(toks);
        if let Ok(stmts) = program_spec(toks) {
            let ops = as_operands(stmts);
            lemma_program_text(stmts);
            lemma_ops_ok_all(ops);
            lemma_ops_emits(ops);
            lemma_program_parses(ops);
            assert(stmts_of(ops) =~= stmts);
        }
    }
}

} // verus!
