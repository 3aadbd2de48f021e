//! The token model: every kind of token the scanner can emit, and the
//! byte spans that literal payloads occupy in the source buffer.

use vstd::prelude::*;

verus! {

/// A half-open byte range `[start, end)` into the source buffer.
///
/// Tokens do not copy their payload out of the source; they carry the
/// range it occupies, and the consumer re-slices the buffer it holds.
#[derive(Clone, Copy, Debug, PartialEq, Eq, Structural)]
pub struct Span {
    pub start: usize,
    pub end: usize,
}

/// One keyword of the scanned language.
#[derive(Clone, Copy, Debug, PartialEq, Eq, Structural)]
pub enum Keyword {
    Class,
    Switch,
    Case,
}

/// The closed set of token kinds.
///
/// Literals carry their payload: identifiers, strings and floats as the
/// span of source bytes they were read from (string spans exclude the
/// surrounding quotes), integers as their parsed value.
#[derive(Clone, Copy, Debug, PartialEq, Eq, Structural)]
pub enum TokenKind {
    OPar,
    CPar,
    OBrace,
    CBrace,
    Comma,
    Dot,
    Semicolon,
    Colon,
    Hashtag,
    Walrus,
    Div,
    DivAssign,
    Mul,
    MulAssign,
    Sub,
    SubAssign,
    Add,
    AddAssign,
    Equal,
    NotEqual,
    Bang,
    Reassignment,
    Greater,
    GreaterOrEqual,
    Less,
    LessOrEqual,
    BitOr,
    BitOrAssign,
    BitXor,
    BitXorAssign,
    Rem,
    RemAssign,
    BitAnd,
    BitAndAssign,
    LeftShift,
    LeftShiftAssign,
    RightShift,
    RightShiftAssign,
    Ident(Span),
    Str(Span),
    Integer(i64),
    Float(Span),
    Keyword(Keyword),
}

impl TokenKind {
    /// The payload span of a literal token, if it carries one.
    pub open spec fn spec_payload(self) -> Option<Span> {
        match self {
            TokenKind::Ident(sp) => Some(sp),
            TokenKind::Str(sp) => Some(sp),
            TokenKind::Float(sp) => Some(sp),
            _ => None,
        }
    }

    /// A quick test used by the keyword overlay and its laws.
    pub open spec fn is_ident(self) -> bool {
        self matches TokenKind::Ident(_)
    }
}

impl Span {
    /// Length of the range, for consumers that re-slice the source.
    pub fn len(&self) -> (r: usize)
        requires
            self.start <= self.end,
        ensures
            r == self.end - self.start,
    {
        self.end - self.start
    }
}

} // verus!
