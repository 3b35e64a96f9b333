//! Better Brainfuck: a more structured Brainfuck that is easier to optimize.
//! Moves and additions carry an amount.
pub mod emitter;
pub mod op;
pub mod semantics;
pub mod syntax;

pub use syntax::{
    add, input, loop_of, move_ptr, output, BetterBrainfuckLanguage, BetterBrainfuckValue,
};
