//! Simp modules from Simp text, by recursive descent over the tokens.
use vstd::prelude::*;

use super::op;
use super::syntax::{
    assign_model, body_model, constant_model, pair_model, print_model, variable_model,
    SimpLanguage,
};
use super::tokens::{token_text, tokenize, tokens_from, tokens_model, Token, TokenModel};
use crate::errors::{CompileError, CompileErrorModel, ParseError, ParseErrorModel};
use crate::ir::{module_result, reversed, instrs_model, language_model, InstrModel, Instruction, Module, ModuleModel};

verus! {

/// Parses Simp text.
pub struct SimpParser;

// # The grammar, over the tokens that remain (the next one first)

/// The error for the next token, which is not what the grammar expects there; its
/// position counts the tokens after it.
pub open spec fn token_error(r: Seq<TokenModel>) -> ParseErrorModel {
    ParseErrorModel::UnexpectedToken { token: token_text(r[0]), position: (r.len() - 1) as nat }
}

/// The error for a missing token.
pub open spec fn eof_error(r: Seq<TokenModel>) -> ParseErrorModel {
    ParseErrorModel::UnexpectedEof { position: r.len() }
}

/// An operand: an integer or a variable.
pub open spec fn operand_spec(r: Seq<TokenModel>) -> Result<(InstrModel, Seq<TokenModel>), ParseErrorModel> {
    if r.len() == 0 {
        Err(eof_error(r))
    } else {
        match r[0] {
            TokenModel::Integer(n) => Ok((constant_model(n), r.drop_first())),
            TokenModel::Ident(s) => Ok((variable_model(s), r.drop_first())),
            _ => Err(token_error(r)),
        }
    }
}

/// The token `t`.
pub open spec fn expect_spec(r: Seq<TokenModel>, t: TokenModel) -> Result<Seq<TokenModel>, ParseErrorModel> {
    if r.len() == 0 {
        Err(eof_error(r))
    } else if r[0] == t {
        Ok(r.drop_first())
    } else {
        Err(token_error(r))
    }
}

/// A name.
pub open spec fn ident_spec(r: Seq<TokenModel>) -> Result<(Seq<char>, Seq<TokenModel>), ParseErrorModel> {
    if r.len() == 0 {
        Err(eof_error(r))
    } else {
        match r[0] {
            TokenModel::Ident(s) => Ok((s, r.drop_first())),
            _ => Err(token_error(r)),
        }
    }
}

/// The rest of an expression after `lhs`: while a `+` or `-` follows, it combines
/// `lhs` with the next operand, from the left.
pub open spec fn expr_tail(r: Seq<TokenModel>, lhs: InstrModel) -> Result<(InstrModel, Seq<TokenModel>), ParseErrorModel>
    decreases r.len(),
{
    if r.len() > 0 && (r[0] is Plus || r[0] is Minus) {
        match operand_spec(r.drop_first()) {
            Ok((rhs, r2)) => if r2.len() < r.len() {
                let combined = if r[0] is Plus {
                    pair_model(op::ADD@, lhs, rhs)
                } else {
                    pair_model(op::SUB@, lhs, rhs)
                };
                expr_tail(r2, combined)
            } else {
                Err(eof_error(r))
            },
            Err(e) => Err(e),
        }
    } else {
        Ok((lhs, r))
    }
}

/// An expression: operands separated by `+` and `-`.
pub open spec fn expression_spec(r: Seq<TokenModel>) -> Result<(InstrModel, Seq<TokenModel>), ParseErrorModel> {
    match operand_spec(r) {
        Ok((lhs, r2)) => expr_tail(r2, lhs),
        Err(e) => Err(e),
    }
}

/// An assignment: a name, `=`, and an expression.
pub open spec fn assignment_spec(r: Seq<TokenModel>) -> Result<(InstrModel, Seq<TokenModel>), ParseErrorModel> {
    match ident_spec(r) {
        Ok((name, r2)) => match expect_spec(r2, TokenModel::Equals) {
            Ok(r3) => match expression_spec(r3) {
                Ok((e, r4)) => Ok((assign_model(name, e), r4)),
                Err(x) => Err(x),
            },
            Err(x) => Err(x),
        },
        Err(x) => Err(x),
    }
}

/// A print statement: `print` and an operand.
pub open spec fn print_spec(r: Seq<TokenModel>) -> Result<(InstrModel, Seq<TokenModel>), ParseErrorModel> {
    match expect_spec(r, TokenModel::Print) {
        Ok(r2) => match operand_spec(r2) {
            Ok((x, r3)) => Ok((print_model(x), r3)),
            Err(e) => Err(e),
        },
        Err(e) => Err(e),
    }
}

/// A statement: a loop, a print, or an assignment, told apart by its first token.
pub open spec fn statement_spec(r: Seq<TokenModel>) -> Result<(InstrModel, Seq<TokenModel>), ParseErrorModel>
    decreases r.len(), 1nat,
{
    if r.len() == 0 {
        Err(eof_error(r))
    } else {
        match r[0] {
            TokenModel::Loop => loop_spec(r),
            TokenModel::Print => print_spec(r),
            TokenModel::Ident(_) => assignment_spec(r),
            _ => Err(token_error(r)),
        }
    }
}

/// A loop: `loop`, the count operand, and a block of statements between braces.
pub open spec fn loop_spec(r: Seq<TokenModel>) -> Result<(InstrModel, Seq<TokenModel>), ParseErrorModel>
    decreases r.len(), 0nat,
{
    match expect_spec(r, TokenModel::Loop) {
        Ok(r2) => match operand_spec(r2) {
            Ok((count, r3)) => match expect_spec(r3, TokenModel::LBrace) {
                Ok(r4) => if r4.len() < r.len() {
                    match block_spec(r4) {
                        Ok((stmts, r5)) => match expect_spec(r5, TokenModel::RBrace) {
                            Ok(r6) => Ok((pair_model(op::LOOP@, count, body_model(stmts)), r6)),
                            Err(e) => Err(e),
                        },
                        Err(e) => Err(e),
                    }
                } else {
                    Err(eof_error(r))
                },
                Err(e) => Err(e),
            },
            Err(e) => Err(e),
        },
        Err(e) => Err(e),
    }
}

/// Statements up to a `}` or the end of the tokens.
pub open spec fn block_spec(r: Seq<TokenModel>) -> Result<(Seq<InstrModel>, Seq<TokenModel>), ParseErrorModel>
    decreases r.len(), 2nat,
{
    if r.len() > 0 && !(r[0] is RBrace) {
        match statement_spec(r) {
            Ok((s, r2)) => if r2.len() < r.len() {
                match block_spec(r2) {
                    Ok((rest, r3)) => Ok((seq![s] + rest, r3)),
                    Err(e) => Err(e),
                }
            } else {
                Err(eof_error(r))
            },
            Err(e) => Err(e),
        }
    } else {
        Ok((Seq::empty(), r))
    }
}

/// A program: statements up to the end of the tokens.
pub open spec fn program_spec(r: Seq<TokenModel>) -> Result<Seq<InstrModel>, ParseErrorModel>
    decreases r.len(),
{
    if r.len() == 0 {
        Ok(Seq::empty())
    } else {
        match statement_spec(r) {
            Ok((s, r2)) => if r2.len() < r.len() {
                match program_spec(r2) {
                    Ok(rest) => Ok(seq![s] + rest),
                    Err(e) => Err(e),
                }
            } else {
                Err(eof_error(r))
            },
            Err(e) => Err(e),
        }
    }
}

/// What parsing Simp text gives: `None` where the tokenizer aborts (a numeral too
/// large for an `i64`), else the module of the program's statements or the error.
pub open spec fn parse_spec(s: Seq<char>) -> Option<Result<ModuleModel, CompileErrorModel>> {
    match tokens_from(s, 0) {
        None => None,
        Some(toks) => Some(
            match program_spec(toks) {
                Ok(stmts) => Ok(ModuleModel { language: language_model(SimpLanguage), instructions: stmts }),
                Err(e) => Err(CompileErrorModel::ParseError(e)),
            },
        ),
    }
}

/// What follows an expression's tail is no longer than where it starts.
proof fn lemma_expr_tail_shrinks(r: Seq<TokenModel>, lhs: InstrModel)
    ensures
        expr_tail(r, lhs) matches Ok((_, r2)) ==> r2.len() <= r.len(),
    decreases r.len(),
{
    if r.len() > 0 && (r[0] is Plus || r[0] is Minus) {
        if let Ok((rhs, r2)) = operand_spec(r.drop_first()) {
            if r2.len() < r.len() {
                let combined = if r[0] is Plus {
                    pair_model(op::ADD@, lhs, rhs)
                } else {
                    pair_model(op::SUB@, lhs, rhs)
                };
                lemma_expr_tail_shrinks(r2, combined);
            }
        }
    }
}

/// What follows a block is no longer than where it starts.
proof fn lemma_block_shrinks(r: Seq<TokenModel>)
    ensures
        block_spec(r) matches Ok((_, r2)) ==> r2.len() <= r.len(),
    decreases r.len(),
{
    if r.len() > 0 && !(r[0] is RBrace) {
        if let Ok((s, r2)) = statement_spec(r) {
            if r2.len() < r.len() {
                lemma_block_shrinks(r2);
            }
        }
    }
}

/// A statement takes at least one token.
proof fn lemma_statement_shrinks(r: Seq<TokenModel>)
    ensures
        statement_spec(r) matches Ok((_, r2)) ==> r2.len() < r.len(),
{
    if r.len() > 0 {
        match r[0] {
            TokenModel::Loop => {
                if let Ok(r2) = expect_spec(r, TokenModel::Loop) {
                    if let Ok((count, r3)) = operand_spec(r2) {
                        if let Ok(r4) = expect_spec(r3, TokenModel::LBrace) {
                            lemma_block_shrinks(r4);
                        }
                    }
                }
            },
            TokenModel::Ident(_) => {
                if let Ok((name, r2)) = ident_spec(r) {
                    if let Ok(r3) = expect_spec(r2, TokenModel::Equals) {
                        if let Ok((lhs, r4)) = operand_spec(r3) {
                            lemma_expr_tail_shrinks(r4, lhs);
                        }
                    }
                }
            },
            _ => {},
        }
    }
}

// # The parser, over a stack of tokens whose top is the next one

/// The tokens that remain, the next one first.
pub open spec fn remaining(tokens: Seq<Token>) -> Seq<TokenModel> {
    tokens_model(tokens).reverse()
}

proof fn lemma_pop(tokens: Seq<Token>)
    requires
        tokens.len() > 0,
    ensures
        remaining(tokens).len() == tokens.len(),
        remaining(tokens)[0] == tokens.last()@,
        remaining(tokens.drop_last()) == remaining(tokens).drop_first(),
{
    assert(remaining(tokens.drop_last()) =~= remaining(tokens).drop_first());
}

/// Whether a result matches the grammar's, with the stack left where the grammar
/// stops.
pub open spec fn parsed<X, M>(
    spec_result: Result<(M, Seq<TokenModel>), ParseErrorModel>,
    r: Result<X, ParseError>,
    after: Seq<Token>,
    model: spec_fn(X) -> M,
) -> bool {
    match spec_result {
        Ok((m, rest)) => r matches Ok(x) && model(x) == m && remaining(after) == rest,
        Err(e) => r matches Err(x) && x@ == e,
    }
}

fn token_error_of(tok: &Token, left: usize) -> (r: ParseError)
    ensures
        r@ == (ParseErrorModel::UnexpectedToken { token: token_text(tok@), position: left as nat }),
{
    ParseError::UnexpectedToken { token: tok.text(), position: left }
}

fn parse_operand(tokens: &mut Vec<Token>) -> (r: Result<Instruction, ParseError>)
    ensures
        parsed(operand_spec(remaining(old(tokens)@)), r, final(tokens)@, |i: Instruction| i@),
{
    proof {
        if old(tokens)@.len() > 0 {
            lemma_pop(old(tokens)@);
        }
    }
    match tokens.pop() {
        Some(Token::Integer(n)) => Ok(super::syntax::constant(n)),
        Some(Token::Ident(name)) => Ok(super::syntax::variable(name.as_str())),
        Some(tok) => Err(token_error_of(&tok, tokens.len())),
        None => Err(ParseError::UnexpectedEof { position: tokens.len() }),
    }
}

fn expect(tokens: &mut Vec<Token>, expected: Token) -> (r: Result<(), ParseError>)
    ensures
        match expect_spec(remaining(old(tokens)@), expected@) {
            Ok(rest) => r is Ok && remaining(final(tokens)@) == rest,
            Err(e) => r matches Err(x) && x@ == e,
        },
{
    proof {
        if old(tokens)@.len() > 0 {
            lemma_pop(old(tokens)@);
        }
    }
    match tokens.pop() {
        Some(tok) => {
            if tok.same_as(&expected) {
                Ok(())
            } else {
                Err(token_error_of(&tok, tokens.len()))
            }
        },
        None => Err(ParseError::UnexpectedEof { position: tokens.len() }),
    }
}

fn expect_ident(tokens: &mut Vec<Token>) -> (r: Result<String, ParseError>)
    ensures
        parsed(ident_spec(remaining(old(tokens)@)), r, final(tokens)@, |s: String| s@),
{
    proof {
        if old(tokens)@.len() > 0 {
            lemma_pop(old(tokens)@);
        }
    }
    match tokens.pop() {
        Some(Token::Ident(name)) => Ok(name),
        Some(tok) => Err(token_error_of(&tok, tokens.len())),
        None => Err(ParseError::UnexpectedEof { position: tokens.len() }),
    }
}

/// Whether the next token is `+` or `-`.
fn next_is_sign(tokens: &Vec<Token>) -> (r: bool)
    ensures
        r == (remaining(tokens@).len() > 0 && (remaining(tokens@)[0] is Plus || remaining(
            tokens@,
        )[0] is Minus)),
{
    if tokens.len() == 0 {
        return false;
    }
    proof {
        lemma_pop(tokens@);
    }
    match &tokens[tokens.len() - 1] {
        Token::Plus | Token::Minus => true,
        _ => false,
    }
}

fn parse_expression(tokens: &mut Vec<Token>) -> (r: Result<Instruction, ParseError>)
    ensures
        parsed(expression_spec(remaining(old(tokens)@)), r, final(tokens)@, |i: Instruction| i@),
{
    let mut lhs = match parse_operand(tokens) {
        Ok(i) => i,
        Err(e) => {
            return Err(e);
        },
    };
    while next_is_sign(tokens)
        invariant
            expression_spec(remaining(old(tokens)@)) == expr_tail(remaining(tokens@), lhs@),
        decreases tokens@.len(),
    {
        let ghost before = remaining(tokens@);
        proof {
            lemma_pop(tokens@);
        }
        let sign = tokens.pop().unwrap();
        let rhs = match parse_operand(tokens) {
            Ok(i) => i,
            Err(e) => {
                return Err(e);
            },
        };
        lhs = match sign {
            Token::Plus => super::syntax::add(lhs, rhs),
            _ => crate::simp::syntax::sub(lhs, rhs),
        };
    }
    Ok(lhs)
}

fn parse_assignment(tokens: &mut Vec<Token>) -> (r: Result<Instruction, ParseError>)
    ensures
        parsed(assignment_spec(remaining(old(tokens)@)), r, final(tokens)@, |i: Instruction| i@),
{
    let name = match expect_ident(tokens) {
        Ok(n) => n,
        Err(e) => {
            return Err(e);
        },
    };
    match expect(tokens, Token::Equals) {
        Ok(()) => {},
        Err(e) => {
            return Err(e);
        },
    }
    let expr = match parse_expression(tokens) {
        Ok(e) => e,
        Err(e) => {
            return Err(e);
        },
    };
    Ok(super::syntax::assign(name.as_str(), expr))
}

fn parse_print(tokens: &mut Vec<Token>) -> (r: Result<Instruction, ParseError>)
    ensures
        parsed(print_spec(remaining(old(tokens)@)), r, final(tokens)@, |i: Instruction| i@),
{
    match expect(tokens, Token::Print) {
        Ok(()) => {},
        Err(e) => {
            return Err(e);
        },
    }
    let operand = match parse_operand(tokens) {
        Ok(o) => o,
        Err(e) => {
            return Err(e);
        },
    };
    Ok(super::syntax::print(operand))
}

fn parse_statement(tokens: &mut Vec<Token>) -> (r: Result<Instruction, ParseError>)
    ensures
        parsed(statement_spec(remaining(old(tokens)@)), r, final(tokens)@, |i: Instruction| i@),
    decreases old(tokens)@.len(), 1nat,
{
    if tokens.len() == 0 {
        return Err(ParseError::UnexpectedEof { position: tokens.len() });
    }
    proof {
        lemma_pop(tokens@);
    }
    let n = tokens.len();
    match &tokens[n - 1] {
        Token::Loop => parse_loop(tokens),
        Token::Print => parse_print(tokens),
        Token::Ident(_) => parse_assignment(tokens),
        tok => Err(token_error_of(tok, n - 1)),
    }
}

fn parse_loop(tokens: &mut Vec<Token>) -> (r: Result<Instruction, ParseError>)
    ensures
        parsed(loop_spec(remaining(old(tokens)@)), r, final(tokens)@, |i: Instruction| i@),
    decreases old(tokens)@.len(), 0nat,
{
    match expect(tokens, Token::Loop) {
        Ok(()) => {},
        Err(e) => {
            return Err(e);
        },
    }
    let count = match parse_operand(tokens) {
        Ok(c) => c,
        Err(e) => {
            return Err(e);
        },
    };
    match expect(tokens, Token::LBrace) {
        Ok(()) => {},
        Err(e) => {
            return Err(e);
        },
    }
    let mut body_stmts: Vec<Instruction> = Vec::new();
    let ghost start = remaining(tokens@);
    assert(instrs_model(body_stmts@) =~= Seq::empty());
    proof {
        if let Ok((stmts, r5)) = block_spec(start) {
            assert(Seq::<InstrModel>::empty() + stmts =~= stmts);
        }
    }
    while tokens.len() > 0 && !tokens[tokens.len() - 1].same_as(&Token::RBrace)
        invariant
            block_spec(start) == (match block_spec(remaining(tokens@)) {
                Ok((rest, r)) => Ok((instrs_model(body_stmts@) + rest, r)),
                Err(e) => Err(e),
            }),
            loop_spec(remaining(old(tokens)@)) == (match block_spec(start) {
                Ok((stmts, r5)) => match expect_spec(r5, TokenModel::RBrace) {
                    Ok(r6) => Ok((pair_model(op::LOOP@, count@, body_model(stmts)), r6)),
                    Err(e) => Err(e),
                },
                Err(e) => Err(e),
            }),
            start.len() < remaining(old(tokens)@).len(),
            remaining(tokens@).len() <= start.len(),
        decreases tokens@.len(),
    {
        proof {
            lemma_pop(tokens@);
        }
        let ghost before = instrs_model(body_stmts@);
        let ghost before_rem = remaining(tokens@);
        proof {
            lemma_statement_shrinks(before_rem);
        }
        let stmt = match parse_statement(tokens) {
            Ok(s) => s,
            Err(e) => {
                return Err(e);
            },
        };
        body_stmts.push(stmt);
        proof {
            let r = remaining(tokens@);
            if let Ok((rest, r3)) = block_spec(r) {
                assert(instrs_model(body_stmts@) + rest =~= before + (seq![stmt@] + rest));
            }
        }
    }
    proof {
        if tokens@.len() > 0 {
            lemma_pop(tokens@);
        }
        assert(instrs_model(body_stmts@) + Seq::<InstrModel>::empty() =~= instrs_model(body_stmts@));
    }
    match expect(tokens, Token::RBrace) {
        Ok(()) => {},
        Err(e) => {
            return Err(e);
        },
    }
    Ok(super::syntax::loop_of(count, super::syntax::body(body_stmts)))
}

fn parse_program(tokens: &mut Vec<Token>) -> (r: Result<Vec<Instruction>, ParseError>)
    ensures
        match program_spec(remaining(old(tokens)@)) {
            Ok(s) => r matches Ok(v) && instrs_model(v@) == s,
            Err(e) => r matches Err(x) && x@ == e,
        },
{
    let mut statements: Vec<Instruction> = Vec::new();
    let ghost start = remaining(tokens@);
    assert(instrs_model(statements@) =~= Seq::empty());
    assert(Seq::<InstrModel>::empty() + program_spec(start)->Ok_0 =~= program_spec(start)->Ok_0);
    while tokens.len() > 0
        invariant
            program_spec(start) == (match program_spec(remaining(tokens@)) {
                Ok(rest) => Ok(instrs_model(statements@) + rest),
                Err(e) => Err(e),
            }),
            start == remaining(old(tokens)@),
        decreases tokens@.len(),
    {
        let ghost before = instrs_model(statements@);
        proof {
            lemma_statement_shrinks(remaining(tokens@));
        }
        let stmt = match parse_statement(tokens) {
            Ok(s) => s,
            Err(e) => {
                return Err(e);
            },
        };
        statements.push(stmt);
        proof {
            if let Ok(rest) = program_spec(remaining(tokens@)) {
                assert(instrs_model(statements@) + rest =~= before + (seq![stmt@] + rest));
            }
        }
    }
    assert(instrs_model(statements@) + Seq::<InstrModel>::empty() =~= instrs_model(statements@));
    Ok(statements)
}

/// Parses Simp text into a Simp module; `None` where a numeral is too large for an
/// `i64`.
pub fn try_parse(source: &str) -> (r: Option<Result<Module, CompileError>>)
    ensures
        match parse_spec(source@) {
            None => r is None,
            Some(x) => r matches Some(y) && module_result(y) == x,
        },
{
    let tokens = match tokenize(source) {
        Some(t) => t,
        None => {
            return None;
        },
    };
    let mut stack = reversed(tokens);
    assert(remaining(stack@) =~= tokens_model(tokens@));
    let mut module = Module::new(SimpLanguage);
    match parse_program(&mut stack) {
        Ok(instructions) => {
            module.instructions = instructions;
            Some(Ok(module))
        },
        Err(e) => Some(Err(CompileError::ParseError(e))),
    }
}

/// Parses Simp text into a Simp module whose instructions are the program's
/// statements, or the error at the first token that the grammar does not accept.
pub fn parse(source: &str) -> (r: Result<Module, CompileError>)
    requires
        parse_spec(source@) is Some,
    ensures
        parse_spec(source@) == Some(module_result(r)),
{
    match try_parse(source) {
        Some(r) => r,
        None => vstd::pervasive::unreached(),
    }
}

impl SimpParser {
    /// Parses Simp text as [`try_parse`] does.
    pub fn try_parse(&self, source: &str) -> (r: Option<Result<Module, CompileError>>)
        ensures
            match parse_spec(source@) {
                None => r is None,
                Some(x) => r matches Some(y) && module_result(y) == x,
            },
    {
        try_parse(source)
    }

    /// Parses Simp text as [`parse`] does.
    pub fn parse(&self, source: &str) -> (r: Result<Module, CompileError>)
        requires
            parse_spec(source@) is Some,
        ensures
            parse_spec(source@) == Some(module_result(r)),
    {
        parse(source)
    }
}

} // verus!
