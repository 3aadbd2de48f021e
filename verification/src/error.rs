//! The error model: what can go wrong while scanning one token, and the
//! diagnostic data every failure carries.

use vstd::prelude::*;
use crate::tokens::{Span, TokenKind};

verus! {

/// The base a numeric literal was written in, as selected by its radix
/// prefix (`0b`, `0o`, `0x`) or by the absence of one.
#[derive(Clone, Copy, Debug, PartialEq, Eq, Structural)]
pub enum NumericBase {
    Binary,
    Octal,
    Decimal,
    Hexadecimal,
}

/// Why a syntactically recognized literal failed to parse.
#[derive(Clone, Copy, Debug, PartialEq, Eq, Structural)]
pub enum LiteralError {
    /// A radix prefix with no digits after it.
    Empty,
    /// A digit that does not exist in the literal's base.
    InvalidDigit,
    /// The value does not fit in the integer payload type.
    Overflow,
    /// A run with a decimal point that is not a well-formed float.
    MalformedFloat,
}

/// The human-readable message attached to an error, as a closed set that
/// a renderer turns into text.
#[derive(Clone, Copy, Debug, PartialEq, Eq, Structural)]
pub enum ErrorMessage {
    /// A string literal still open when the input ended.
    UnterminatedString,
    /// An opening quote as the very last byte of the input.
    UnterminatedStringAtEnd,
    /// A literal with a radix prefix also contained a decimal point.
    FloatWithRadixPrefix(NumericBase),
    /// An integer run that failed to parse in its base.
    IntegerParseFailed(NumericBase),
    /// A float run that failed to parse.
    FloatParseFailed,
}

/// The kind of a scanning error.
#[derive(Clone, Copy, Debug, PartialEq, Eq, Structural)]
pub enum ScannerErrorKind {
    /// A construct was opened and never closed; carries the partial token.
    Unmatched { token: Option<TokenKind> },
    /// A construct reached the end of input mid-way; carries the partial
    /// token for diagnostics.
    IncompleteToken { token: Option<TokenKind> },
    /// A literal was syntactically recognized but failed semantic parsing.
    IncorrectLiteral { parse_error: Option<LiteralError> },
}

/// One scanning failure: its kind, the 1-based line and the byte offset at
/// which the offending construct began, an optional message, and an
/// optional slice of the source around the failure for diagnostics.
#[derive(Clone, Copy, Debug, PartialEq, Eq, Structural)]
pub struct ScannerError {
    pub kind: ScannerErrorKind,
    pub line: usize,
    pub pos: usize,
    pub message: Option<ErrorMessage>,
    pub context: Option<Span>,
}

} // verus!
