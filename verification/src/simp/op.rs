//! Opcodes of Simp.
use vstd::prelude::*;

verus! {

/// Operands: the variable's name, then the expression.
pub const ASSIGN: &'static str = "simp.assign";

/// Operands: the left and the right expression.
pub const ADD: &'static str = "simp.add";

/// Operands: the left and the right expression.
pub const SUB: &'static str = "simp.sub";

/// Operands: the count, then the body.
pub const LOOP: &'static str = "simp.loop";

/// Takes any number of statements.
pub const BODY: &'static str = "simp.body";

/// Operand: the expression to print.
pub const PRINT: &'static str = "simp.print";

/// Operand: the integer.
pub const CONSTANT: &'static str = "simp.const";

/// Operand: the variable's name.
pub const VARIABLE: &'static str = "simp.var";

} // verus!
