//! A small compiler framework: languages given by the instructions they define,
//! modules of instructions, transformations between languages, and parsers and
//! emitters between modules and text.
pub mod better_brainfuck;
pub mod brainfuck;
pub mod compiler;
pub mod equality;
pub mod errors;
pub mod ir;
pub mod pipeline;
pub mod render;
pub mod simp;
pub mod text;
pub mod transforms;
