//! Brainfuck: eight commands over a tape of cells and a data pointer.
//! A loop is one instruction whose operands are the instructions of its body.
pub mod emitter;
pub mod laws;
pub mod op;
pub mod parser;
pub mod semantics;
pub mod syntax;

pub use syntax::{
    decr, incr, input, loop_of, output, ptr_left, ptr_right, BrainfuckLanguage,
};
