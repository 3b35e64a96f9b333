//! Brainfuck instructions from Brainfuck text.
use vstd::prelude::*;
use vstd::std_specs::iter::IteratorSpec;

use super::op;
use super::syntax::{
    decr, emit_instr, emit_operands, emit_seq, incr, input, leaf_model, loop_model, loop_of,
    output, ptr_left, ptr_right, wf_instr, wf_operands, wf_program, BrainfuckLanguage,
};
use crate::errors::{CompileError, ParseError, ParseErrorModel};
use crate::ir::{as_operands, instrs_model, language_model, InstrModel, Instruction, Module, ModuleModel};

verus! {

/// Parses Brainfuck text.
pub struct BrainfuckParser;

// # Brackets and commands in the text

/// How a character changes the nesting of brackets.
pub open spec fn bracket_delta(c: char) -> int {
    if c == '[' {
        1
    } else if c == ']' {
        -1
    } else {
        0
    }
}

/// The number of `[` minus the number of `]` in a text.
pub open spec fn depth(s: Seq<char>) -> int
    decreases s.len(),
{
    if s.len() == 0 {
        0
    } else {
        depth(s.drop_last()) + bracket_delta(s.last())
    }
}

/// Whether position `i` of `s` holds a `]` that closes no `[` before it.
pub open spec fn unmatched_close_at(s: Seq<char>, i: int) -> bool {
    0 <= i < s.len() && s[i] == ']' && depth(s.take(i)) == 0
}

/// Whether every `]` of `s` closes a `[` before it.
pub open spec fn closes_matched(s: Seq<char>) -> bool {
    forall|j: int| !unmatched_close_at(s, j)
}

/// Whether a character is one of the eight Brainfuck commands.
pub open spec fn is_command_char(c: char) -> bool {
    c == '>' || c == '<' || c == '+' || c == '-' || c == '.' || c == ',' || c == '[' || c == ']'
}

/// The Brainfuck commands of a text, in order: every other character is a comment.
pub open spec fn commands(s: Seq<char>) -> Seq<char>
    decreases s.len(),
{
    if s.len() == 0 {
        Seq::empty()
    } else if is_command_char(s.last()) {
        commands(s.drop_last()).push(s.last())
    } else {
        commands(s.drop_last())
    }
}

/// What parsing `s` gives, described by the text of the result: the instructions
/// whose text is the commands of `s` (there is only one such program, see
/// `lemma_emit_injective`), or the first `]` that closes nothing, or, where a `[` is
/// never closed, the end of the text.
pub open spec fn parse_result_ok(s: Seq<char>, m: crate::ir::ModuleModel) -> bool {
    &&& m.language == language_model(BrainfuckLanguage)
    &&& wf_program(m.instructions)
    &&& emit_seq(m.instructions) == Some(commands(s))
}

// # The stack of open loops

/// The text of a program that is well formed.
pub open spec fn program_text(s: Seq<InstrModel>) -> Seq<char> {
    match emit_seq(s) {
        Some(t) => t,
        None => Seq::empty(),
    }
}

/// The text of a stack of open loop bodies: the outermost body, then for each open
/// loop a `[` and its body so far.
pub open spec fn stack_text(fs: Seq<Seq<InstrModel>>) -> Seq<char>
    decreases fs.len(),
{
    if fs.len() == 0 {
        Seq::empty()
    } else if fs.len() == 1 {
        program_text(fs[0])
    } else {
        stack_text(fs.drop_last()) + seq!['['] + program_text(fs.last())
    }
}

/// The bodies held by a parse stack.
pub open spec fn stack_bodies(stack: Seq<(usize, Vec<Instruction>)>) -> Seq<Seq<InstrModel>> {
    stack.map_values(|f: (usize, Vec<Instruction>)| instrs_model(f.1@))
}

/// Whether every body on the stack is a well-formed program.
pub open spec fn stack_wf(fs: Seq<Seq<InstrModel>>) -> bool {
    forall|k: int| 0 <= k < fs.len() ==> wf_program(#[trigger] fs[k])
}

/// Appending an instruction to a program appends its text.
pub proof fn lemma_emit_seq_push(s: Seq<InstrModel>, i: InstrModel)
    ensures
        emit_seq(s.push(i)) == (match (emit_seq(s), emit_instr(i)) {
            (Some(a), Some(b)) => Some(a + b),
            _ => None,
        }),
        wf_program(s.push(i)) == (wf_program(s) && wf_instr(i)),
{
    assert(as_operands(s.push(i)) =~= as_operands(s).push(crate::ir::OperandModel::Instruction(i)));
    assert(as_operands(s.push(i)).drop_last() =~= as_operands(s));
}

/// A well-formed program has a text.
pub proof fn lemma_wf_emits(i: InstrModel)
    requires
        wf_instr(i),
    ensures
        emit_instr(i) is Some,
    decreases i,
{
    if i.opcode == op::LOOP@ {
        lemma_wf_operands_emit(i.operands);
    }
}

/// Well-formed operands have a text.
pub proof fn lemma_wf_operands_emit(ops: Seq<crate::ir::OperandModel>)
    requires
        wf_operands(ops),
    ensures
        emit_operands(ops) is Some,
    decreases ops,
{
    if ops.len() > 0 {
        if let crate::ir::OperandModel::Instruction(i) = ops.last() {
            lemma_wf_operands_emit(ops.drop_last());
            lemma_wf_emits(i);
        }
    }
}

proof fn lemma_stack_text_push_top(fs: Seq<Seq<InstrModel>>, i: InstrModel)
    requires
        fs.len() >= 1,
        wf_program(fs.last()),
        wf_instr(i),
    ensures
        wf_program(fs.last().push(i)),
        stack_text(fs.update(fs.len() - 1, fs.last().push(i))) == stack_text(fs) + program_text(
            seq![i],
        ),
{
    let g = fs.update(fs.len() - 1, fs.last().push(i));
    lemma_emit_seq_push(fs.last(), i);
    lemma_emit_seq_push(Seq::empty(), i);
    assert(Seq::<InstrModel>::empty().push(i) =~= seq![i]);
    lemma_wf_emits(i);
    lemma_wf_operands_emit(as_operands(fs.last()));
    assert(emit_seq(Seq::<InstrModel>::empty()) == Some(Seq::<char>::empty())) by {
        assert(as_operands(Seq::<InstrModel>::empty()) =~= Seq::empty());
    }
    if fs.len() > 1 {
        assert(g.drop_last() =~= fs.drop_last());
    }
}

proof fn lemma_commands_push(s: Seq<char>, c: char)
    ensures
        commands(s.push(c)) == (if is_command_char(c) {
            commands(s).push(c)
        } else {
            commands(s)
        }),
        depth(s.push(c)) == depth(s) + bracket_delta(c),
{
    assert(s.push(c).drop_last() =~= s);
}

/// The opcodes of Brainfuck are distinct, and the six commands have their characters.
pub proof fn lemma_opcodes()
    ensures
        super::syntax::command_char(op::PTR_RIGHT@) == Some('>'),
        super::syntax::command_char(op::PTR_LEFT@) == Some('<'),
        super::syntax::command_char(op::INCR@) == Some('+'),
        super::syntax::command_char(op::DECR@) == Some('-'),
        super::syntax::command_char(op::OUTPUT@) == Some('.'),
        super::syntax::command_char(op::INPUT@) == Some(','),
        super::syntax::command_char(op::LOOP@) is None,
        op::LOOP@ != op::PTR_RIGHT@,
        op::LOOP@ != op::PTR_LEFT@,
        op::LOOP@ != op::INCR@,
        op::LOOP@ != op::DECR@,
        op::LOOP@ != op::OUTPUT@,
        op::LOOP@ != op::INPUT@,
{
    reveal_strlit("bf.right");
    reveal_strlit("bf.left");
    reveal_strlit("bf.incr");
    reveal_strlit("bf.decr");
    reveal_strlit("bf.output");
    reveal_strlit("bf.input");
    reveal_strlit("bf.loop");
    assert(op::PTR_RIGHT@.len() == 8 && op::PTR_RIGHT@[3] == 'r' && op::PTR_RIGHT@[4] == 'i');
    assert(op::PTR_LEFT@.len() == 7 && op::PTR_LEFT@[3] == 'l' && op::PTR_LEFT@[4] == 'e');
    assert(op::INCR@.len() == 7 && op::INCR@[3] == 'i' && op::INCR@[4] == 'n');
    assert(op::DECR@.len() == 7 && op::DECR@[3] == 'd' && op::DECR@[4] == 'e');
    assert(op::OUTPUT@.len() == 9 && op::OUTPUT@[3] == 'o' && op::OUTPUT@[4] == 'u');
    assert(op::INPUT@.len() == 8 && op::INPUT@[3] == 'i' && op::INPUT@[4] == 'n');
    assert(op::LOOP@.len() == 7 && op::LOOP@[3] == 'l' && op::LOOP@[4] == 'o');
}

/// The text of a single well-formed instruction.
proof fn lemma_single_text(i: InstrModel)
    requires
        wf_instr(i),
    ensures
        emit_instr(i) matches Some(t) && program_text(seq![i]) == t,
{
    lemma_wf_emits(i);
    lemma_emit_seq_push(Seq::empty(), i);
    assert(Seq::<InstrModel>::empty().push(i) =~= seq![i]);
    assert(emit_seq(Seq::<InstrModel>::empty()) == Some(Seq::<char>::empty())) by {
        assert(as_operands(Seq::<InstrModel>::empty()) =~= Seq::empty());
    }
    assert(emit_instr(i)->0 =~= Seq::<char>::empty() + emit_instr(i)->0);
}

/// The text of a loop is its body's text between brackets.
proof fn lemma_loop_text(b: Seq<InstrModel>)
    requires
        wf_program(b),
    ensures
        wf_instr(loop_model(b)),
        program_text(seq![loop_model(b)]) == seq!['['] + program_text(b) + seq![']'],
{
    lemma_wf_operands_emit(as_operands(b));
    lemma_single_text(loop_model(b));
}

/// The text of a command.
proof fn lemma_leaf_text(opcode: Seq<char>, c: char)
    requires
        super::syntax::command_char(opcode) == Some(c),
    ensures
        wf_instr(leaf_model(opcode)),
        program_text(seq![leaf_model(opcode)]) == seq![c],
{
    lemma_opcodes();
    lemma_single_text(leaf_model(opcode));
}

// # The parser

/// The innermost open body of the stack.
fn top(stack: &mut Vec<(usize, Vec<Instruction>)>) -> (r: &mut Vec<Instruction>)
    requires
        old(stack)@.len() > 0,
    ensures
        *r == old(stack)@.last().1,
        final(stack)@ == old(stack)@.update(
            old(stack)@.len() - 1,
            (old(stack)@.last().0, *final(r)),
        ),
{
    let n = stack.len();
    &mut stack[n - 1].1
}

/// Parses Brainfuck text. Every character other than the eight commands is a comment.
/// The instructions are those whose Brainfuck text is the commands of `source`. A `]`
/// that closes no `[` is an unexpected token at its position; a `[` that is never
/// closed is an unexpected end of file at the length of the text. Positions count
/// characters.
pub fn parse(source: &str) -> (r: Result<Module, ParseError>)
    ensures
        match r {
            Ok(m) => closes_matched(source@) && depth(source@) == 0 && parse_result_ok(
                source@,
                m@,
            ),
            Err(ParseError::UnexpectedToken { token, position }) => {
                &&& token@ == "]"@
                &&& unmatched_close_at(source@, position as int)
                &&& forall|j: int| 0 <= j < position ==> !unmatched_close_at(source@, j)
            },
            Err(ParseError::UnexpectedEof { position }) => {
                &&& position == source@.len()
                &&& closes_matched(source@)
                &&& depth(source@) > 0
            },
            Err(ParseError::InvalidInstruction(_)) => false,
        },
{
    let n = source.unicode_len();
    let mut stack: Vec<(usize, Vec<Instruction>)> = Vec::new();
    stack.push((0, Vec::new()));
    let mut length: usize = 0;
    let mut pos: usize = 0;
    let mut chars = source.chars();
    proof {
        lemma_opcodes();
        assert(source@.skip(0) =~= source@);
        assert(source@.take(0) =~= Seq::<char>::empty());
        assert(stack@[0].1@ =~= Seq::<Instruction>::empty());
        assert(instrs_model(stack@[0].1@) =~= Seq::<InstrModel>::empty());
        assert(stack_bodies(stack@) =~= seq![Seq::<InstrModel>::empty()]);
        assert(emit_seq(Seq::<InstrModel>::empty()) == Some(Seq::<char>::empty())) by {
            assert(as_operands(Seq::<InstrModel>::empty()) =~= Seq::empty());
        }
    }
    loop
        invariant
            n == source@.len(),
            pos <= n,
            length == pos,
            chars.remaining() == source@.skip(pos as int),
            stack@.len() >= 1,
            depth(source@.take(pos as int)) == stack@.len() - 1,
            forall|j: int| 0 <= j < pos ==> !unmatched_close_at(source@, j),
            stack_wf(stack_bodies(stack@)),
            stack_text(stack_bodies(stack@)) == commands(source@.take(pos as int)),
        ensures
            pos == n,
        decreases n - pos,
    {
        let ghost before = stack@;
        let ghost fs = stack_bodies(stack@);
        let next = chars.next();
        let ch = match next {
            Some(c) => c,
            None => {
                assert(source@.skip(pos as int).len() == 0);
                break ;
            },
        };
        assert(ch == source@[pos as int]);
        assert(source@.take(pos + 1) =~= source@.take(pos as int).push(ch));
        proof {
            lemma_commands_push(source@.take(pos as int), ch);
        }
        if ch == ']' {
            if stack.len() == 1 {
                assert(unmatched_close_at(source@, pos as int));
                proof {
                    reveal_strlit("]");
                }
                return Err(ParseError::UnexpectedToken { token: "]".to_owned(), position: pos });
            }
            let frame = stack.pop().unwrap();
            let body = frame.1;
            let ghost inner = stack_bodies(stack@);
            assert(inner =~= fs.drop_last());
            assert(instrs_model(body@) == fs.last());
            let l = loop_of(body);
            let ghost mid = stack@;
            proof {
                assert(wf_program(fs[fs.len() - 1]));
                lemma_loop_text(fs.last());
                assert(wf_program(inner[inner.len() - 1]));
                lemma_stack_text_push_top(inner, l@);
                if fs.len() > 2 {
                    assert(fs.drop_last().drop_last() =~= inner.drop_last());
                }
            }
            top(&mut stack).push(l);
            proof {
                let g = stack_bodies(stack@);
                assert(stack@.len() == mid.len());
                assert(stack@[mid.len() - 1].1@ == mid[mid.len() - 1].1@.push(l));
                assert(instrs_model(stack@[mid.len() - 1].1@) =~= instrs_model(
                    mid[mid.len() - 1].1@,
                ).push(l@));
                assert forall|k: int| 0 <= k < mid.len() - 1 implies stack@[k] == mid[k] by {}
                assert(g =~= inner.update(inner.len() - 1, inner.last().push(l@)));
                assert forall|k: int| 0 <= k < g.len() implies wf_program(#[trigger] g[k]) by {
                    if k < g.len() - 1 {
                        assert(g[k] == fs[k]);
                    }
                }
            }
        } else if ch == '[' {
            stack.push((pos, Vec::new()));
            proof {
                let g = stack_bodies(stack@);
                assert(stack@.last().1@ =~= Seq::<Instruction>::empty());
                assert(instrs_model(stack@.last().1@) =~= Seq::<InstrModel>::empty());
                assert(g =~= fs.push(Seq::empty()));
                assert(g.drop_last() =~= fs);
                assert(emit_seq(Seq::<InstrModel>::empty()) == Some(Seq::<char>::empty())) by {
                    assert(as_operands(Seq::<InstrModel>::empty()) =~= Seq::empty());
                }
                assert(program_text(Seq::empty()) =~= Seq::<char>::empty());
                assert(stack_text(g) =~= stack_text(fs) + seq!['[']);
                assert forall|k: int| 0 <= k < g.len() implies wf_program(#[trigger] g[k]) by {
                    if k < g.len() - 1 {
                        assert(g[k] == fs[k]);
                    } else {
                        assert(as_operands(Seq::<InstrModel>::empty()) =~= Seq::empty());
                    }
                }
            }
        } else if ch == '>' || ch == '<' || ch == '+' || ch == '-' || ch == '.' || ch == ',' {
            let i = if ch == '>' {
                ptr_right()
            } else if ch == '<' {
                ptr_left()
            } else if ch == '+' {
                incr()
            } else if ch == '-' {
                decr()
            } else if ch == '.' {
                output()
            } else {
                input()
            };
            proof {
                lemma_opcodes();
                lemma_leaf_text(i@.opcode, ch);
                assert(wf_program(fs[fs.len() - 1]));
                lemma_stack_text_push_top(fs, i@);
            }
            top(&mut stack).push(i);
            proof {
                let g = stack_bodies(stack@);
                assert(stack@.len() == before.len());
                assert(stack@[before.len() - 1].1@ == before[before.len() - 1].1@.push(i));
                assert(instrs_model(stack@[before.len() - 1].1@) =~= instrs_model(
                    before[before.len() - 1].1@,
                ).push(i@));
                assert forall|k: int| 0 <= k < before.len() - 1 implies stack@[k] == before[k] by {}
                assert(g =~= fs.update(fs.len() - 1, fs.last().push(i@)));
                assert forall|k: int| 0 <= k < g.len() implies wf_program(#[trigger] g[k]) by {
                    if k < g.len() - 1 {
                        assert(g[k] == fs[k]);
                    }
                }
            }
        }
        pos = pos + 1;
        length = pos;
    }
    assert(source@.take(pos as int) =~= source@);
    if stack.len() > 1 {
        return Err(ParseError::UnexpectedEof { position: length });
    }
    let frame = stack.pop().unwrap();
    let mut module = Module::new(BrainfuckLanguage);
    module.instructions = frame.1;
    proof {
        let fs = stack_bodies(seq![frame]);
        assert(fs[0] == instrs_model(frame.1@));
        lemma_wf_operands_emit(as_operands(fs[0]));
    }
    Ok(module)
}

/// What parsing `s` may give, in the terms of the models: the result of [`parse`].
pub open spec fn parse_outcome(s: Seq<char>, r: Result<ModuleModel, ParseErrorModel>) -> bool {
    match r {
        Ok(m) => closes_matched(s) && depth(s) == 0 && parse_result_ok(s, m),
        Err(ParseErrorModel::UnexpectedToken { token, position }) => {
            &&& token == "]"@
            &&& unmatched_close_at(s, position as int)
            &&& forall|j: int| 0 <= j < position ==> !unmatched_close_at(s, j)
        },
        Err(ParseErrorModel::UnexpectedEof { position }) => {
            &&& position == s.len()
            &&& closes_matched(s)
            &&& depth(s) > 0
        },
        Err(ParseErrorModel::InvalidInstruction(_)) => false,
    }
}

impl BrainfuckParser {
    /// Parses Brainfuck text as [`parse`] does, with its error as a compile error.
    pub fn parse(&self, source: &str) -> (r: Result<Module, CompileError>)
        ensures
            match r {
                Ok(m) => parse_outcome(source@, Ok(m@)),
                Err(CompileError::ParseError(e)) => parse_outcome(source@, Err(e@)),
                Err(CompileError::VerifyError(_)) => false,
            },
    {
        match parse(source) {
            Ok(m) => Ok(m),
            Err(e) => Err(CompileError::from(e)),
        }
    }
}

} // verus!
