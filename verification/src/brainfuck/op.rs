//! Opcodes of Brainfuck.
use vstd::prelude::*;

verus! {

pub const PTR_RIGHT: &'static str = "bf.right";

pub const PTR_LEFT: &'static str = "bf.left";

pub const INCR: &'static str = "bf.incr";

pub const DECR: &'static str = "bf.decr";

pub const OUTPUT: &'static str = "bf.output";

pub const INPUT: &'static str = "bf.input";

/// Takes any number of child instructions.
pub const LOOP: &'static str = "bf.loop";

} // verus!
