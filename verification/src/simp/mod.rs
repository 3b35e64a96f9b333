//! Simp: a small imperative language with integers, variables, addition,
//! subtraction, counted loops and printing.
pub mod emitter;
pub mod laws;
pub mod op;
pub mod parser;
pub mod roundtrip;
pub mod semantics;
pub mod syntax;
pub mod tokens;

pub use syntax::{
    add, assign, body, constant, loop_of, print, sub, variable, SimpLanguage, SimpValue,
};
