use lib::better_brainfuck::emitter::BetterBrainfuckEmitter;
use lib::better_brainfuck::{self as bbf, BetterBrainfuckLanguage};
use lib::brainfuck::emitter::emit;
use lib::brainfuck::{self as bf, BrainfuckLanguage};
use lib::errors::{CompileError, VerifyError};
use lib::better_brainfuck::BetterBrainfuckValue;
use lib::ir::{Instruction, Module, Operand, Value};
use lib::pipeline::Transformation;
use lib::transforms::bbf_opt::BBFOptMerge;
use lib::transforms::bbf_to_bf::BBFToBF;
use lib::transforms::bf_to_bbf::BFToBBF;
use lib::transforms::simp_to_bf::SimpToBrainfuck;

fn bbf_module(instructions: Vec<Instruction>) -> Module {
    let mut m = Module::new(BetterBrainfuckLanguage);
    for i in instructions {
        m.push(i);
    }
    m
}

fn bbf_text(m: &Module) -> String {
    BetterBrainfuckEmitter.emit(m).unwrap()
}

#[test]
fn bf_to_bbf_translates_each_command() {
    let module = bf::parser::parse(">+[-].,<").unwrap();
    let out = BFToBBF::new().run(module).unwrap();
    assert_eq!(out.language.name, "better-brainfuck");
    assert_eq!(bbf_text(&out), ">1 +1 \n[\n  -1  \n]\n.,<1 ");
}

#[test]
fn bf_to_bbf_aborts_on_unknown_opcode() {
    let mut m = Module::new(BrainfuckLanguage);
    m.push(bbf::output());
    assert!(BFToBBF::new().try_run(m).is_none());
}

#[test]
fn bbf_to_bf_expands_amounts() {
    let m = bbf_module(vec![bbf::move_ptr(2), bbf::add(-3), bbf::loop_of(vec![bbf::move_ptr(-1)]), bbf::add(0)]);
    let out = BBFToBF::new().run(m).unwrap();
    assert_eq!(out.language.name, "brainfuck");
    assert_eq!(emit(&out.instructions), Ok(">>---[<]".to_string()));
}

#[test]
fn bbf_to_bf_unknown_opcode_is_an_error() {
    let m = bbf_module(vec![bbf::output(), bf::incr()]);
    assert_eq!(
        BBFToBF::new().run(m).err(),
        Some(CompileError::VerifyError(VerifyError::UnknownOpcode("bf.incr".to_string())))
    );
}

#[test]
fn bbf_to_bf_missing_amount_is_an_error() {
    let m = bbf_module(vec![Instruction::new(bbf::op::MOVE, vec![])]);
    assert_eq!(
        BBFToBF::new().run(m).err(),
        Some(CompileError::VerifyError(VerifyError::InvalidOperand { position: 0 }))
    );
}

#[test]
fn bbf_to_bf_aborts_on_minimum_amount() {
    let m = bbf_module(vec![bbf::add(i64::MIN)]);
    assert!(BBFToBF::new().try_run(m).is_none());
}

#[test]
fn bf_bbf_bf_roundtrip() {
    let source = "+[->>+<<]>.,";
    let m = bf::parser::parse(source).unwrap();
    let there = BFToBBF::new().run(m).unwrap();
    let back = BBFToBF::new().run(there).unwrap();
    assert_eq!(emit(&back.instructions), Ok(source.to_string()));
}

#[test]
fn merge_names() {
    assert_eq!(BBFOptMerge::new(bbf::op::MOVE).name(), "bbf-opt-merge-bbf.move");
    assert_eq!(BBFOptMerge::new("MiXeD.Op").name(), "bbf-opt-merge-mixed.op");
}

#[test]
fn merge_consecutive_moves() {
    let m = bbf_module(vec![
        bbf::move_ptr(1),
        bbf::move_ptr(2),
        bbf::add(1),
        bbf::move_ptr(-3),
        bbf::move_ptr(3),
        bbf::output(),
        bbf::move_ptr(-2),
    ]);
    let out = BBFOptMerge::new(bbf::op::MOVE).run(m).unwrap();
    assert_eq!(out.language.name, "better-brainfuck");
    assert_eq!(bbf_text(&out), ">3 +1 .<2 ");
}

#[test]
fn merge_consecutive_adds_inside_loops() {
    let m = bbf_module(vec![bbf::loop_of(vec![bbf::add(-1), bbf::add(-1), bbf::move_ptr(1), bbf::move_ptr(1)])]);
    let out = BBFOptMerge::new(bbf::op::ADD).run(m).unwrap();
    assert_eq!(bbf_text(&out), "\n[\n  -2    >1    >1  \n]\n");
}

#[test]
fn merge_aborts_on_overflow() {
    let m = bbf_module(vec![bbf::add(i64::MAX), bbf::add(1)]);
    assert!(BBFOptMerge::new(bbf::op::ADD).try_run(m).is_none());
}

#[test]
fn merge_instruction_amount_is_an_error() {
    let bad = Instruction::new(bbf::op::MOVE, vec![Operand::Instruction(Box::new(bbf::output()))]);
    let m = bbf_module(vec![bad]);
    assert_eq!(
        BBFOptMerge::new(bbf::op::MOVE).run(m).err(),
        Some(CompileError::VerifyError(VerifyError::InvalidOperand { position: 0 }))
    );
}

#[test]
fn simp_to_brainfuck_print_constant() {
    let m = lib::simp::parser::parse("print 3").unwrap();
    let mut t = SimpToBrainfuck::new();
    assert_eq!(t.name(), "simp-brainfuck");
    let out = t.run(m).unwrap();
    assert_eq!(out.language.name, "brainfuck");
    assert_eq!(emit(&out.instructions), Ok("[-]>[-]<+++.".to_string()));
}

#[test]
fn simp_to_brainfuck_assignment() {
    let m = lib::simp::parser::parse("x = 2\nprint x").unwrap();
    let out = SimpToBrainfuck::new().run(m).unwrap();
    assert_eq!(
        emit(&out.instructions),
        Ok(">[-]>[-]<>>[-]<<++<[-]>[<+>>+<-]>[<+>-]<[-]>[-]<<[>+>+<<-]>>[<<+>>-]<.".to_string())
    );
}

#[test]
fn simp_to_brainfuck_undefined_variable_aborts() {
    let m = lib::simp::parser::parse("print y").unwrap();
    assert!(SimpToBrainfuck::new().try_run(m).is_none());
}

#[test]
fn simp_to_brainfuck_keeps_its_frame_between_runs() {
    let mut t = SimpToBrainfuck::new();
    let first = t.run(lib::simp::parser::parse("x = 1\nprint x").unwrap()).unwrap();
    let second = t.run(lib::simp::parser::parse("x = 1\nprint x").unwrap()).unwrap();
    assert_eq!(emit(&first.instructions), emit(&second.instructions));
}

#[test]
fn simp_output_translates_to_bbf_and_back() {
    let m = lib::simp::parser::parse("x = 3\ny = x - 1\nloop y {\n x = x + 1\n}\nprint x").unwrap();
    let bf_out = SimpToBrainfuck::new().run(m).unwrap();
    let text = emit(&bf_out.instructions).unwrap();
    let there = BFToBBF::new().try_run(bf_out).unwrap().unwrap();
    let back = BBFToBF::new().run(there).unwrap();
    assert_eq!(emit(&back.instructions), Ok(text));
}

#[test]
fn merging_twice_changes_nothing() {
    let m = bbf_module(vec![
        bbf::move_ptr(1),
        bbf::move_ptr(1),
        bbf::loop_of(vec![bbf::move_ptr(2), bbf::move_ptr(-2), bbf::add(1), bbf::move_ptr(4)]),
        bbf::move_ptr(-1),
    ]);
    let mut opt = BBFOptMerge::new(bbf::op::MOVE);
    let once = opt.run(m).unwrap();
    let text = bbf_text(&once);
    assert_eq!(text, ">2 \n[\n  +1    >4  \n]\n<1 ");
    let twice = opt.run(once).unwrap();
    assert_eq!(bbf_text(&twice), text);
}

/// Runs Better Brainfuck instructions on a tape of bytes (unbounded both ways) with
/// a pointer, collecting the output; `None` once `fuel` loop rounds are used up.
fn run_bbf(instrs: &[Instruction], tape: &mut std::collections::HashMap<i64, u8>, ptr: &mut i64, out: &mut Vec<u8>, fuel: &mut u32) -> Option<()> {
    for i in instrs {
        let amount = match i.operands.first() {
            Some(Operand::Value(Value::BetterBrainfuck(BetterBrainfuckValue(a)))) => Some(*a),
            _ => None,
        };
        let cell = *tape.get(ptr).unwrap_or(&0);
        match i.opcode.as_str() {
            bbf::op::MOVE => *ptr += amount?,
            bbf::op::ADD => {
                tape.insert(*ptr, ((cell as i64 + amount?).rem_euclid(256)) as u8);
            },
            bbf::op::OUTPUT => out.push(cell),
            bbf::op::INPUT => {
                tape.insert(*ptr, 0);
            },
            bbf::op::LOOP => {
                while *tape.get(ptr).unwrap_or(&0) != 0 {
                    if *fuel == 0 {
                        return None;
                    }
                    *fuel -= 1;
                    let children: Vec<&Instruction> = i
                        .operands
                        .iter()
                        .map(|o| match o {
                            Operand::Instruction(c) => &**c,
                            Operand::Value(_) => panic!("value in a loop"),
                        })
                        .collect();
                    for c in children {
                        run_bbf(std::slice::from_ref(c), tape, ptr, out, fuel)?;
                    }
                }
            },
            _ => return None,
        }
    }
    Some(())
}

fn behaviour(instrs: &[Instruction]) -> (Vec<u8>, i64, Vec<(i64, u8)>) {
    let mut tape = std::collections::HashMap::new();
    let mut ptr = 0;
    let mut out = Vec::new();
    let mut fuel = 10_000;
    run_bbf(instrs, &mut tape, &mut ptr, &mut out, &mut fuel).unwrap();
    let mut cells: Vec<(i64, u8)> = tape.into_iter().filter(|(_, v)| *v != 0).collect();
    cells.sort();
    (out, ptr, cells)
}

#[test]
fn merging_keeps_what_the_program_does() {
    let program = || vec![
        bbf::add(200),
        bbf::add(100),
        bbf::move_ptr(1),
        bbf::move_ptr(1),
        bbf::add(3),
        bbf::loop_of(vec![bbf::add(-1), bbf::move_ptr(-1), bbf::move_ptr(-1), bbf::add(2), bbf::output(), bbf::move_ptr(2)]),
        bbf::move_ptr(-2),
        bbf::output(),
    ];
    let before = behaviour(&program());
    assert_eq!(before.0, vec![46, 48, 50, 50]);
    for opcode in [bbf::op::MOVE, bbf::op::ADD] {
        let merged = BBFOptMerge::new(opcode).run(bbf_module(program())).unwrap();
        assert_eq!(behaviour(&merged.instructions), before);
    }
}

/// Runs Brainfuck text on a tape of bytes, and gives what it outputs; the pointer
/// must stay at or above cell zero.
fn run_bf_text(text: &str) -> Vec<u8> {
    let code: Vec<char> = text.chars().collect();
    let mut tape: std::collections::HashMap<i64, u8> = std::collections::HashMap::new();
    let mut ptr: i64 = 0;
    let mut pc: usize = 0;
    let mut out: Vec<u8> = Vec::new();
    let mut steps: u64 = 0;
    while pc < code.len() {
        steps += 1;
        assert!(steps < 10_000_000, "the program runs too long");
        let cell = tape.entry(ptr).or_insert(0);
        match code[pc] {
            '>' => ptr += 1,
            '<' => {
                ptr -= 1;
                assert!(ptr >= 0, "the pointer went below cell zero");
            }
            '+' => *cell = cell.wrapping_add(1),
            '-' => *cell = cell.wrapping_sub(1),
            '.' => out.push(*cell),
            '[' => {
                if *cell == 0 {
                    let mut depth = 1;
                    while depth > 0 {
                        pc += 1;
                        if code[pc] == '[' {
                            depth += 1;
                        } else if code[pc] == ']' {
                            depth -= 1;
                        }
                    }
                }
            }
            ']' => {
                if *cell != 0 {
                    let mut depth = 1;
                    while depth > 0 {
                        pc -= 1;
                        if code[pc] == ']' {
                            depth += 1;
                        } else if code[pc] == '[' {
                            depth -= 1;
                        }
                    }
                }
            }
            _ => {}
        }
        pc += 1;
    }
    out
}

#[test]
fn compiled_simp_prints_what_the_program_prints() {
    let source = "x = 3\ny = x + 2\nprint y\nloop 2 {\n print x\n x = x - 1\n}\nprint 300\nz = 1 - 2\nprint z";
    let m = lib::simp::parser::parse(source).unwrap();
    let out = SimpToBrainfuck::new().run(m).unwrap();
    let text = emit(&out.instructions).unwrap();
    assert_eq!(run_bf_text(&text), vec![5, 3, 2, 44, 255]);
}
