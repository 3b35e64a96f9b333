# kompiladilo

A small compiler framework, verified with Verus. A language is a name and the
definitions of its instructions; a module is a sequence of instructions of one
language; transformations turn a module into another and chain into pipelines;
parsers and emitters go between modules and text.

Layout of `src/`:

- `ir`: values, operands, instructions, instruction definitions, the `Language`
  trait with its checking of instructions, and modules.
- `errors`: verification, parse and compile errors and their messages.
- `equality`, `render`: equality of operands and instructions, and their text.
- `pipeline`: the `Transformation` trait, the passes of this library and pipelines,
  with the laws of running them in order.
- `brainfuck`, `better_brainfuck`, `simp`: the three languages, their constructors,
  parsers and emitters. `brainfuck::laws` proves that emitting and parsing
  Brainfuck are inverse on well-formed programs; with `simp::laws`, that what the
  parsers and constructors build passes the languages' checks; `simp::roundtrip`,
  that the Simp text emitted for a parsed program parses back to it. The
  `semantics` modules say what running a program of each language does.
- `transforms`: Simp to Brainfuck, Brainfuck to Better Brainfuck and back, and the
  merging optimization of Better Brainfuck. The laws beside them prove the round
  trip between the two Brainfuck dialects, that the Simp compiler gives well-formed
  Brainfuck that brings the data pointer back after every statement, that the
  Brainfuck it gives prints what the Simp program prints (`simp_semantics`, for
  programs whose loops hold no loops), and that merging keeps what a program does,
  leaves merged code and is idempotent.
- `compiler`: the Simp to Brainfuck compiler that chains all of the above.
- `text`: decimal numerals and the few std text functions that the languages use.

`app/main.rs` is the command-line driver: it reads a Simp file, compiles it and
writes the Brainfuck file.
