//! Opcodes of Better Brainfuck.
use vstd::prelude::*;

verus! {

/// Moves the data pointer by its amount.
pub const MOVE: &'static str = "bbf.move";

/// Adds its amount to the current cell.
pub const ADD: &'static str = "bbf.add";

pub const OUTPUT: &'static str = "bbf.output";

pub const INPUT: &'static str = "bbf.input";

/// Takes any number of child instructions.
pub const LOOP: &'static str = "bbf.loop";

} // verus!
