//! Errors raised while verifying, parsing and compiling modules.
use vstd::prelude::*;

use crate::ir::{KindModel, OperandKind};
use crate::text::{debug_quoted, debug_quoted_text, decimal, push_decimal};

verus! {

/// An instruction does not fit the definition that its language gives of it.
#[derive(Debug, Clone, PartialEq, Eq)]
pub enum VerifyError {
    UnknownOpcode(String),
    ArityMismatch { opcode: String, expected: usize, got: usize },
    OperandTypeMismatch {
        opcode: String,
        position: usize,
        expected: OperandKind,
        got: OperandKind,
    },
    InvalidOperand { position: usize },
}

/// Source text that a parser refuses.
#[derive(Debug, Clone, PartialEq, Eq)]
pub enum ParseError {
    UnexpectedToken { token: String, position: usize },
    UnexpectedEof { position: usize },
    InvalidInstruction(VerifyError),
}

/// Any error that a compilation can end in.
#[derive(Debug, Clone, PartialEq, Eq)]
pub enum CompileError {
    VerifyError(VerifyError),
    ParseError(ParseError),
}

/// Mathematical model of a [`VerifyError`].
pub enum VerifyErrorModel {
    UnknownOpcode(Seq<char>),
    ArityMismatch { opcode: Seq<char>, expected: nat, got: nat },
    OperandTypeMismatch { opcode: Seq<char>, position: nat, expected: KindModel, got: KindModel },
    InvalidOperand { position: nat },
}

/// Mathematical model of a [`ParseError`].
pub enum ParseErrorModel {
    UnexpectedToken { token: Seq<char>, position: nat },
    UnexpectedEof { position: nat },
    InvalidInstruction(VerifyErrorModel),
}

/// Mathematical model of a [`CompileError`].
pub enum CompileErrorModel {
    VerifyError(VerifyErrorModel),
    ParseError(ParseErrorModel),
}

impl View for VerifyError {
    type V = VerifyErrorModel;

    open spec fn view(&self) -> VerifyErrorModel {
        match self {
            VerifyError::UnknownOpcode(op) => VerifyErrorModel::UnknownOpcode(op@),
            VerifyError::ArityMismatch { opcode, expected, got } => VerifyErrorModel::ArityMismatch {
                opcode: opcode@,
                expected: *expected as nat,
                got: *got as nat,
            },
            VerifyError::OperandTypeMismatch { opcode, position, expected, got } =>
                VerifyErrorModel::OperandTypeMismatch {
                opcode: opcode@,
                position: *position as nat,
                expected: expected@,
                got: got@,
            },
            VerifyError::InvalidOperand { position } => VerifyErrorModel::InvalidOperand {
                position: *position as nat,
            },
        }
    }
}

impl View for ParseError {
    type V = ParseErrorModel;

    open spec fn view(&self) -> ParseErrorModel {
        match self {
            ParseError::UnexpectedToken { token, position } => ParseErrorModel::UnexpectedToken {
                token: token@,
                position: *position as nat,
            },
            ParseError::UnexpectedEof { position } => ParseErrorModel::UnexpectedEof {
                position: *position as nat,
            },
            ParseError::InvalidInstruction(e) => ParseErrorModel::InvalidInstruction(e@),
        }
    }
}

impl View for CompileError {
    type V = CompileErrorModel;

    open spec fn view(&self) -> CompileErrorModel {
        match self {
            CompileError::VerifyError(e) => CompileErrorModel::VerifyError(e@),
            CompileError::ParseError(e) => CompileErrorModel::ParseError(e@),
        }
    }
}

impl From<VerifyError> for CompileError {
    fn from(e: VerifyError) -> (r: Self) {
        CompileError::VerifyError(e)
    }
}

impl vstd::std_specs::convert::FromSpecImpl<VerifyError> for CompileError {
    open spec fn obeys_from_spec() -> bool {
        true
    }

    open spec fn from_spec(e: VerifyError) -> Self {
        CompileError::VerifyError(e)
    }
}

impl From<ParseError> for CompileError {
    fn from(e: ParseError) -> (r: Self) {
        CompileError::ParseError(e)
    }
}

impl vstd::std_specs::convert::FromSpecImpl<ParseError> for CompileError {
    open spec fn obeys_from_spec() -> bool {
        true
    }

    open spec fn from_spec(e: ParseError) -> Self {
        CompileError::ParseError(e)
    }
}

impl From<VerifyError> for ParseError {
    fn from(e: VerifyError) -> (r: Self) {
        ParseError::InvalidInstruction(e)
    }
}

impl vstd::std_specs::convert::FromSpecImpl<VerifyError> for ParseError {
    open spec fn obeys_from_spec() -> bool {
        true
    }

    open spec fn from_spec(e: VerifyError) -> Self {
        ParseError::InvalidInstruction(e)
    }
}

/// The text of the `Debug` form of an operand kind.
pub open spec fn kind_debug_text(k: KindModel) -> Seq<char> {
    match k {
        KindModel::Value(t) => "Value(ValueType("@ + debug_quoted_text(t) + "))"@,
        KindModel::Instruction => "Instruction"@,
    }
}

/// The human-readable message of a verification error.
pub open spec fn verify_error_message(e: VerifyErrorModel) -> Seq<char> {
    match e {
        VerifyErrorModel::UnknownOpcode(op) => "unknown opcode '"@ + op + "'"@,
        VerifyErrorModel::ArityMismatch { opcode, expected, got } => "'"@ + opcode
            + "' expects "@ + decimal(expected as int) + " operand(s), got "@ + decimal(
            got as int,
        ),
        VerifyErrorModel::OperandTypeMismatch { opcode, position, expected, got } => "'"@ + opcode
            + "' operand "@ + decimal(position as int) + ": expected "@ + kind_debug_text(expected)
            + ", got "@ + kind_debug_text(got),
        VerifyErrorModel::InvalidOperand { position } => "invalid operand at position "@
            + decimal(position as int),
    }
}

/// The human-readable message of a parse error.
pub open spec fn parse_error_message(e: ParseErrorModel) -> Seq<char> {
    match e {
        ParseErrorModel::UnexpectedToken { token, position } => "unexpected token '"@ + token
            + "' at position "@ + decimal(position as int),
        ParseErrorModel::InvalidInstruction(v) => "invalid instruction: "@ + verify_error_message(
            v,
        ),
        ParseErrorModel::UnexpectedEof { position } => "unexpected end of file at position "@
            + decimal(position as int),
    }
}

/// The human-readable message of a compilation error.
pub open spec fn compile_error_message(e: CompileErrorModel) -> Seq<char> {
    match e {
        CompileErrorModel::VerifyError(v) => "verification error: "@ + verify_error_message(v),
        CompileErrorModel::ParseError(p) => "parse error: "@ + parse_error_message(p),
    }
}

fn push_kind_debug(out: &mut String, k: &OperandKind)
    ensures
        final(out)@ == old(out)@ + kind_debug_text(k@),
{
    match k {
        OperandKind::Value(t) => {
            out.append("Value(ValueType(");
            let q = debug_quoted(t.0.as_str());
            out.append(q.as_str());
            out.append("))");
        },
        OperandKind::Instruction => {
            out.append("Instruction");
        },
    }
}

impl VerifyError {
    /// The message that this error displays.
    pub fn message(&self) -> (r: String)
        ensures
            r@ == verify_error_message(self@),
    {
        let mut out = String::new();
        match self {
            VerifyError::UnknownOpcode(op) => {
                out.append("unknown opcode '");
                out.append(op.as_str());
                out.append("'");
            },
            VerifyError::ArityMismatch { opcode, expected, got } => {
                out.append("'");
                out.append(opcode.as_str());
                out.append("' expects ");
                push_decimal(&mut out, *expected as i128);
                out.append(" operand(s), got ");
                push_decimal(&mut out, *got as i128);
            },
            VerifyError::OperandTypeMismatch { opcode, position, expected, got } => {
                out.append("'");
                out.append(opcode.as_str());
                out.append("' operand ");
                push_decimal(&mut out, *position as i128);
                out.append(": expected ");
                push_kind_debug(&mut out, expected);
                out.append(", got ");
                push_kind_debug(&mut out, got);
            },
            VerifyError::InvalidOperand { position } => {
                out.append("invalid operand at position ");
                push_decimal(&mut out, *position as i128);
            },
        }
        assert(out@ == verify_error_message(self@));
        out
    }
}

impl ParseError {
    /// The message that this error displays.
    pub fn message(&self) -> (r: String)
        ensures
            r@ == parse_error_message(self@),
    {
        let mut out = String::new();
        match self {
            ParseError::UnexpectedToken { token, position } => {
                out.append("unexpected token '");
                out.append(token.as_str());
                out.append("' at position ");
                push_decimal(&mut out, *position as i128);
            },
            ParseError::InvalidInstruction(e) => {
                out.append("invalid instruction: ");
                let m = e.message();
                out.append(m.as_str());
            },
            ParseError::UnexpectedEof { position } => {
                out.append("unexpected end of file at position ");
                push_decimal(&mut out, *position as i128);
            },
        }
        assert(out@ == parse_error_message(self@));
        out
    }
}

impl CompileError {
    /// The message that this error displays.
    pub fn message(&self) -> (r: String)
        ensures
            r@ == compile_error_message(self@),
    {
        let mut out = String::new();
        match self {
            CompileError::VerifyError(e) => {
                out.append("verification error: ");
                let m = e.message();
                out.append(m.as_str());
            },
            CompileError::ParseError(e) => {
                out.append("parse error: ");
                let m = e.message();
                out.append(m.as_str());
            },
        }
        assert(out@ == compile_error_message(self@));
        out
    }
}

} // verus!
