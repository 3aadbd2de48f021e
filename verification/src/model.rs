//! The mathematical model of the scanner: spec functions over the source
//! bytes that say, for every position, what the next call must produce —
//! where whitespace and comments end, where each kind of token ends, what
//! value a numeric run denotes, and how the line counter evolves.

use vstd::prelude::*;
use crate::tokens::{Span, TokenKind};
use crate::error::{ErrorMessage, LiteralError, NumericBase, ScannerError, ScannerErrorKind};

verus! {

// ---------------------------------------------------------------------------
// Byte constants (ASCII codes; Verus takes no byte literals in spec code)
// ---------------------------------------------------------------------------

pub const B_TAB: u8 = 9;
pub const B_NL: u8 = 10;
pub const B_FF: u8 = 12;
pub const B_CR: u8 = 13;
pub const B_SPACE: u8 = 32;
pub const B_BANG: u8 = 33;
pub const B_DQUOTE: u8 = 34;
pub const B_HASH: u8 = 35;
pub const B_PERCENT: u8 = 37;
pub const B_AMP: u8 = 38;
pub const B_SQUOTE: u8 = 39;
pub const B_LPAREN: u8 = 40;
pub const B_RPAREN: u8 = 41;
pub const B_STAR: u8 = 42;
pub const B_PLUS: u8 = 43;
pub const B_COMMA: u8 = 44;
pub const B_MINUS: u8 = 45;
pub const B_DOT: u8 = 46;
pub const B_SLASH: u8 = 47;
pub const B_0: u8 = 48;
pub const B_9: u8 = 57;
pub const B_COLON: u8 = 58;
pub const B_SEMI: u8 = 59;
pub const B_LT: u8 = 60;
pub const B_EQ: u8 = 61;
pub const B_GT: u8 = 62;
pub const B_UPPER_A: u8 = 65;
pub const B_UPPER_E: u8 = 69;
pub const B_UPPER_Z: u8 = 90;
pub const B_BACKSLASH: u8 = 92;
pub const B_CARET: u8 = 94;
pub const B_LOWER_A: u8 = 97;
pub const B_LOWER_B: u8 = 98;
pub const B_LOWER_E: u8 = 101;
pub const B_LOWER_O: u8 = 111;
pub const B_LOWER_X: u8 = 120;
pub const B_LOWER_Z: u8 = 122;
pub const B_LBRACE: u8 = 123;
pub const B_PIPE: u8 = 124;
pub const B_RBRACE: u8 = 125;

// ---------------------------------------------------------------------------
// Byte classes
// ---------------------------------------------------------------------------

/// The line separator.
pub open spec fn is_newline(b: u8) -> bool {
    b == B_NL
}

/// ASCII whitespace other than the newline: space, tab, form feed,
/// carriage return.
pub open spec fn is_blank(b: u8) -> bool {
    b == B_SPACE || b == B_TAB || b == B_FF || b == B_CR
}

/// Any ASCII whitespace byte.
pub open spec fn is_ws_byte(b: u8) -> bool {
    is_blank(b) || is_newline(b)
}

pub open spec fn is_ascii_digit(b: u8) -> bool {
    B_0 <= b && b <= B_9
}

pub open spec fn is_ascii_alnum(b: u8) -> bool {
    is_ascii_digit(b) || (B_LOWER_A <= b && b <= B_LOWER_Z) || (B_UPPER_A <= b && b <= B_UPPER_Z)
}

/// A byte that ends the greedy numeric run: whitespace, or anything that is
/// neither ASCII alphanumeric nor a dot.
pub open spec fn is_numeric_terminator(b: u8) -> bool {
    is_ws_byte(b) || (!is_ascii_alnum(b) && b != B_DOT)
}

// ---------------------------------------------------------------------------
// Line counting
// ---------------------------------------------------------------------------

/// How many newline bytes a sequence holds.
pub open spec fn count_newlines(s: Seq<u8>) -> nat
    decreases s.len(),
{
    if s.len() == 0 {
        0
    } else {
        count_newlines(s.drop_last()) + if is_newline(s.last()) {
            1nat
        } else {
            0nat
        }
    }
}

/// The 1-based line number of position `pos`: one plus the newlines
/// strictly before it.
pub open spec fn line_at(s: Seq<u8>, pos: int) -> nat {
    1 + count_newlines(s.take(pos))
}

pub proof fn lemma_count_newlines_le_len(s: Seq<u8>)
    ensures
        count_newlines(s) <= s.len(),
    decreases s.len(),
{
    if s.len() > 0 {
        lemma_count_newlines_le_len(s.drop_last());
    }
}

/// Extending the counted prefix by one byte adds one exactly when that byte
/// is a newline.
pub proof fn lemma_count_newlines_step(s: Seq<u8>, i: int)
    requires
        0 <= i < s.len(),
    ensures
        count_newlines(s.take(i + 1)) == count_newlines(s.take(i)) + if is_newline(s[i]) {
            1nat
        } else {
            0nat
        },
{
    assert(s.take(i + 1).drop_last() =~= s.take(i));
    assert(s.take(i + 1).last() == s[i]);
}

/// A stretch without newlines does not change the line number.
pub proof fn lemma_line_at_no_newlines(s: Seq<u8>, a: int, b: int)
    requires
        0 <= a <= b <= s.len(),
        forall|k: int| a <= k < b ==> !is_newline(#[trigger] s[k]),
    ensures
        line_at(s, b) == line_at(s, a),
    decreases b - a,
{
    if a < b {
        lemma_count_newlines_step(s, b - 1);
        lemma_line_at_no_newlines(s, a, b - 1);
    }
}

// ---------------------------------------------------------------------------
// Whitespace and comments
// ---------------------------------------------------------------------------

/// The first newline at or after `i`, or the input length: a `//` comment
/// runs up to there, leaving the newline itself unconsumed.
pub open spec fn line_comment_end(s: Seq<u8>, i: int) -> int
    decreases s.len() - i,
{
    if i < 0 || i >= s.len() {
        s.len() as int
    } else if is_newline(s[i]) {
        i
    } else {
        line_comment_end(s, i + 1)
    }
}

/// The position just past the first `*/` at or after `i`, or the input
/// length when the block comment is never closed (accepted silently).
pub open spec fn block_comment_end(s: Seq<u8>, i: int) -> int
    decreases s.len() - i,
{
    if i < 0 || i + 1 >= s.len() {
        s.len() as int
    } else if s[i] == B_STAR && s[i + 1] == B_SLASH {
        i + 2
    } else {
        block_comment_end(s, i + 1)
    }
}

pub proof fn lemma_line_comment_end_bounds(s: Seq<u8>, i: int)
    requires
        0 <= i <= s.len(),
    ensures
        i <= line_comment_end(s, i) <= s.len(),
    decreases s.len() - i,
{
    if i < s.len() && !is_newline(s[i]) {
        lemma_line_comment_end_bounds(s, i + 1);
    }
}

pub proof fn lemma_block_comment_end_bounds(s: Seq<u8>, i: int)
    requires
        0 <= i <= s.len(),
    ensures
        i <= block_comment_end(s, i) <= s.len(),
    decreases s.len() - i,
{
    if i + 1 < s.len() && !(s[i] == B_STAR && s[i + 1] == B_SLASH) {
        lemma_block_comment_end_bounds(s, i + 1);
    }
}

/// Where the next token begins: the first position at or after `pos` that
/// is neither whitespace nor inside a `//` or `/* ... */` comment, or the
/// input length if only trivia remains.
pub open spec fn skip_trivia(s: Seq<u8>, pos: int) -> int
    decreases s.len() - pos,
        when 0 <= pos <= s.len()
        via skip_trivia_decreases
{
    if pos >= s.len() {
        s.len() as int
    } else if is_ws_byte(s[pos]) {
        skip_trivia(s, pos + 1)
    } else if s[pos] == B_SLASH && pos + 1 < s.len() && s[pos + 1] == B_SLASH {
        skip_trivia(s, line_comment_end(s, pos + 2))
    } else if s[pos] == B_SLASH && pos + 1 < s.len() && s[pos + 1] == B_STAR {
        skip_trivia(s, block_comment_end(s, pos + 2))
    } else {
        pos
    }
}

#[via_fn]
proof fn skip_trivia_decreases(s: Seq<u8>, pos: int) {
    if 0 <= pos < s.len() {
        if s[pos] == B_SLASH && pos + 1 < s.len() && s[pos + 1] == B_SLASH {
            lemma_line_comment_end_bounds(s, pos + 2);
        }
        if s[pos] == B_SLASH && pos + 1 < s.len() && s[pos + 1] == B_STAR {
            lemma_block_comment_end_bounds(s, pos + 2);
        }
    }
}

/// A position at which the dispatch really reads a token: in range, not
/// whitespace, and not the start of a comment.
pub open spec fn is_significant(s: Seq<u8>, p: int) -> bool {
    &&& 0 <= p < s.len()
    &&& !is_ws_byte(s[p])
    &&& !(s[p] == B_SLASH && p + 1 < s.len() && (s[p + 1] == B_SLASH || s[p + 1] == B_STAR))
}

pub proof fn lemma_skip_trivia_bounds(s: Seq<u8>, pos: int)
    requires
        0 <= pos <= s.len(),
    ensures
        pos <= skip_trivia(s, pos) <= s.len(),
        skip_trivia(s, pos) < s.len() ==> is_significant(s, skip_trivia(s, pos)),
    decreases s.len() - pos,
{
    if pos < s.len() {
        if is_ws_byte(s[pos]) {
            lemma_skip_trivia_bounds(s, pos + 1);
        } else if s[pos] == B_SLASH && pos + 1 < s.len() && s[pos + 1] == B_SLASH {
            lemma_line_comment_end_bounds(s, pos + 2);
            lemma_skip_trivia_bounds(s, line_comment_end(s, pos + 2));
        } else if s[pos] == B_SLASH && pos + 1 < s.len() && s[pos + 1] == B_STAR {
            lemma_block_comment_end_bounds(s, pos + 2);
            lemma_skip_trivia_bounds(s, block_comment_end(s, pos + 2));
        }
    }
}

// ---------------------------------------------------------------------------
// String literals
// ---------------------------------------------------------------------------

/// The first position at or after `i` holding the closing quote: the byte
/// equals the opening quote and the byte before it is not a backslash.
/// Returns the input length when the string never closes.
pub open spec fn string_end(s: Seq<u8>, quote: u8, i: int) -> int
    decreases s.len() - i,
{
    if i < 1 || i >= s.len() {
        s.len() as int
    } else if s[i] == quote && s[i - 1] != B_BACKSLASH {
        i
    } else {
        string_end(s, quote, i + 1)
    }
}

pub proof fn lemma_string_end_bounds(s: Seq<u8>, quote: u8, i: int)
    requires
        1 <= i <= s.len(),
    ensures
        i <= string_end(s, quote, i) <= s.len(),
    decreases s.len() - i,
{
    if i < s.len() && !(s[i] == quote && s[i - 1] != B_BACKSLASH) {
        lemma_string_end_bounds(s, quote, i + 1);
    }
}

// ---------------------------------------------------------------------------
// Numeric literals
// ---------------------------------------------------------------------------

/// The end of the greedy numeric run that starts at `i`: the first
/// position at or after `i` holding a numeric terminator, or the length.
pub open spec fn numeric_run_end(s: Seq<u8>, i: int) -> int
    decreases s.len() - i,
{
    if i < 0 || i >= s.len() {
        s.len() as int
    } else if is_numeric_terminator(s[i]) {
        i
    } else {
        numeric_run_end(s, i + 1)
    }
}

pub proof fn lemma_numeric_run_end_bounds(s: Seq<u8>, i: int)
    requires
        0 <= i <= s.len(),
    ensures
        i <= numeric_run_end(s, i) <= s.len(),
        forall|k: int| i <= k < numeric_run_end(s, i) ==> !is_numeric_terminator(#[trigger] s[k]),
    decreases s.len() - i,
{
    if i < s.len() && !is_numeric_terminator(s[i]) {
        lemma_numeric_run_end_bounds(s, i + 1);
    }
}

/// The numeric value of one ASCII digit or letter, `36` (out of range for
/// every base in use) for anything else.
pub open spec fn digit_value(b: u8) -> int {
    if B_0 <= b && b <= B_9 {
        b - B_0
    } else if B_LOWER_A <= b && b <= B_LOWER_Z {
        b - B_LOWER_A + 10
    } else if B_UPPER_A <= b && b <= B_UPPER_Z {
        b - B_UPPER_A + 10
    } else {
        36
    }
}

/// Left-to-right accumulation of the digits `s[i..e)` in the given base,
/// starting from `acc`: the first invalid digit or the first step past
/// `i64::MAX` fails, exactly as a left-to-right checked parser does.
pub open spec fn parse_int_from(s: Seq<u8>, i: int, e: int, radix: int, acc: int) -> Result<
    int,
    LiteralError,
>
    decreases e - i,
{
    if i >= e {
        Ok(acc)
    } else if !(digit_value(s[i]) < radix) {
        Err(LiteralError::InvalidDigit)
    } else if acc * radix + digit_value(s[i]) > i64::MAX {
        Err(LiteralError::Overflow)
    } else {
        parse_int_from(s, i + 1, e, radix, acc * radix + digit_value(s[i]))
    }
}

/// The value of the digit run `s[start..e)` in the given base, or why it
/// has none. An empty run is an error: a radix prefix needs digits.
pub open spec fn parse_int_range(s: Seq<u8>, start: int, e: int, radix: int) -> Result<
    int,
    LiteralError,
>
{
    if start >= e {
        Err(LiteralError::Empty)
    } else {
        parse_int_from(s, start, e, radix, 0)
    }
}

/// The first position in `[i, e)` holding a non-digit, or `e`.
pub open spec fn digits_end(s: Seq<u8>, i: int, e: int) -> int
    decreases e - i,
{
    if i >= e {
        e
    } else if !is_ascii_digit(s[i]) {
        i
    } else {
        digits_end(s, i + 1, e)
    }
}

/// Whether any byte of `s[start..e)` is a dot: a dotted run is classified
/// as a float literal.
pub open spec fn has_dot(s: Seq<u8>, start: int, e: int) -> bool {
    exists|k: int| start <= k < e && #[trigger] s[k] == B_DOT
}

/// Whether the run `s[start..e)` is a well-formed float: one or more
/// digits, a dot, optional fraction digits, and an optional exponent part
/// with at least one digit.
pub open spec fn is_float_range(s: Seq<u8>, start: int, e: int) -> bool {
    let i = digits_end(s, start, e);
    &&& start < i
    &&& i < e && s[i] == B_DOT
    &&& {
        let j = digits_end(s, i + 1, e);
        ||| j == e
        ||| ((s[j] == B_LOWER_E || s[j] == B_UPPER_E) && j + 1 < e && digits_end(s, j + 1, e) == e)
    }
}

/// The radix and base selected by a `0b`/`0x`/`0o` prefix at `p`, if any.
pub open spec fn radix_prefix(s: Seq<u8>, p: int) -> Option<(int, NumericBase)> {
    if p + 1 < s.len() && s[p] == B_0 {
        if s[p + 1] == B_LOWER_B {
            Some((2int, NumericBase::Binary))
        } else if s[p + 1] == B_LOWER_X {
            Some((16int, NumericBase::Hexadecimal))
        } else if s[p + 1] == B_LOWER_O {
            Some((8int, NumericBase::Octal))
        } else {
            None
        }
    } else {
        None
    }
}

/// An error whose construct began at `p`, with the line it began on.
pub open spec fn error_at(
    s: Seq<u8>,
    p: int,
    kind: ScannerErrorKind,
    message: Option<ErrorMessage>,
    context: Option<Span>,
) -> ScannerError {
    ScannerError { kind, line: line_at(s, p) as usize, pos: p as usize, message, context }
}

/// The token or error produced by a numeric run whose payload starts at
/// `start` (just past any radix prefix), and the position after it.
pub open spec fn scan_number_in(
    s: Seq<u8>,
    p: int,
    start: int,
    radix: int,
    base: NumericBase,
    prefixed: bool,
) -> (Result<TokenKind, ScannerError>, int) {
    let e = numeric_run_end(s, start);
    let ctx = Some(Span { start: p as usize, end: e as usize });
    if has_dot(s, start, e) {
        if prefixed {
            (
                Err(
                    error_at(
                        s,
                        p,
                        ScannerErrorKind::IncorrectLiteral { parse_error: None },
                        Some(ErrorMessage::FloatWithRadixPrefix(base)),
                        ctx,
                    ),
                ),
                e,
            )
        } else if is_float_range(s, start, e) {
            (Ok(TokenKind::Float(Span { start: p as usize, end: e as usize })), e)
        } else {
            (
                Err(
                    error_at(
                        s,
                        p,
                        ScannerErrorKind::IncorrectLiteral {
                            parse_error: Some(LiteralError::MalformedFloat),
                        },
                        Some(ErrorMessage::FloatParseFailed),
                        ctx,
                    ),
                ),
                e,
            )
        }
    } else {
        match parse_int_range(s, start, e, radix) {
            Ok(v) => (Ok(TokenKind::Integer(v as i64)), e),
            Err(le) => (
                Err(
                    error_at(
                        s,
                        p,
                        ScannerErrorKind::IncorrectLiteral { parse_error: Some(le) },
                        Some(ErrorMessage::IntegerParseFailed(base)),
                        ctx,
                    ),
                ),
                e,
            ),
        }
    }
}

/// The token or error produced by a numeric literal beginning at `p`.
pub open spec fn scan_number(s: Seq<u8>, p: int) -> (Result<TokenKind, ScannerError>, int) {
    match radix_prefix(s, p) {
        Some((radix, base)) => scan_number_in(s, p, p + 2, radix, base, true),
        None => scan_number_in(s, p, p, 10, NumericBase::Decimal, false),
    }
}

/// The token or error produced by a string literal whose opening quote
/// stands at `p`, and the position after it.
pub open spec fn scan_string(s: Seq<u8>, p: int) -> (Result<TokenKind, ScannerError>, int) {
    let len = s.len() as int;
    if p + 1 >= len {
        (
            Err(
                error_at(
                    s,
                    p,
                    ScannerErrorKind::IncompleteToken {
                        token: Some(
                            TokenKind::Str(Span { start: (p + 1) as usize, end: (p + 1) as usize }),
                        ),
                    },
                    Some(ErrorMessage::UnterminatedStringAtEnd),
                    None,
                ),
            ),
            p + 1,
        )
    } else {
        let e = string_end(s, s[p], p + 1);
        if e < len {
            (Ok(TokenKind::Str(Span { start: (p + 1) as usize, end: e as usize })), e + 1)
        } else {
            (
                Err(
                    error_at(
                        s,
                        p,
                        ScannerErrorKind::Unmatched {
                            token: Some(TokenKind::Str(Span { start: p as usize, end: len as usize })),
                        },
                        Some(ErrorMessage::UnterminatedString),
                        Some(Span { start: p as usize, end: len as usize }),
                    ),
                ),
                len,
            )
        }
    }
}

/// The end of the identifier that starts just before `i`: identifiers run
/// to the next whitespace byte or the end of input.
pub open spec fn ident_end(s: Seq<u8>, i: int) -> int
    decreases s.len() - i,
{
    if i < 0 || i >= s.len() {
        s.len() as int
    } else if is_ws_byte(s[i]) {
        i
    } else {
        ident_end(s, i + 1)
    }
}

pub proof fn lemma_ident_end_bounds(s: Seq<u8>, i: int)
    requires
        0 <= i <= s.len(),
    ensures
        i <= ident_end(s, i) <= s.len(),
        forall|k: int| i <= k < ident_end(s, i) ==> !is_ws_byte(#[trigger] s[k]),
    decreases s.len() - i,
{
    if i < s.len() && !is_ws_byte(s[i]) {
        lemma_ident_end_bounds(s, i + 1);
    }
}

/// An operator that may be followed by `=` to form its compound-assignment
/// companion.
pub open spec fn op_or_assign(
    s: Seq<u8>,
    p: int,
    simple: TokenKind,
    compound: TokenKind,
) -> (Result<TokenKind, ScannerError>, int) {
    if p + 1 < s.len() && s[p + 1] == B_EQ {
        (Ok(compound), p + 2)
    } else {
        (Ok(simple), p + 1)
    }
}

/// The full dispatch: the token or error read at the significant position
/// `p`, together with the cursor position just past it.
pub open spec fn scan_token(s: Seq<u8>, p: int) -> (Result<TokenKind, ScannerError>, int) {
    let b = s[p];
    if b == B_LPAREN {
        (Ok(TokenKind::OPar), p + 1)
    } else if b == B_RPAREN {
        (Ok(TokenKind::CPar), p + 1)
    } else if b == B_LBRACE {
        (Ok(TokenKind::OBrace), p + 1)
    } else if b == B_RBRACE {
        (Ok(TokenKind::CBrace), p + 1)
    } else if b == B_COMMA {
        (Ok(TokenKind::Comma), p + 1)
    } else if b == B_DOT {
        (Ok(TokenKind::Dot), p + 1)
    } else if b == B_SEMI {
        (Ok(TokenKind::Semicolon), p + 1)
    } else if b == B_HASH {
        (Ok(TokenKind::Hashtag), p + 1)
    } else if b == B_PLUS {
        op_or_assign(s, p, TokenKind::Add, TokenKind::AddAssign)
    } else if b == B_MINUS {
        op_or_assign(s, p, TokenKind::Sub, TokenKind::SubAssign)
    } else if b == B_STAR {
        op_or_assign(s, p, TokenKind::Mul, TokenKind::MulAssign)
    } else if b == B_SLASH {
        op_or_assign(s, p, TokenKind::Div, TokenKind::DivAssign)
    } else if b == B_PERCENT {
        op_or_assign(s, p, TokenKind::Rem, TokenKind::RemAssign)
    } else if b == B_EQ {
        op_or_assign(s, p, TokenKind::Reassignment, TokenKind::Equal)
    } else if b == B_BANG {
        op_or_assign(s, p, TokenKind::Bang, TokenKind::NotEqual)
    } else if b == B_COLON {
        op_or_assign(s, p, TokenKind::Colon, TokenKind::Walrus)
    } else if b == B_PIPE {
        op_or_assign(s, p, TokenKind::BitOr, TokenKind::BitOrAssign)
    } else if b == B_CARET {
        op_or_assign(s, p, TokenKind::BitXor, TokenKind::BitXorAssign)
    } else if b == B_AMP {
        op_or_assign(s, p, TokenKind::BitAnd, TokenKind::BitAndAssign)
    } else if b == B_GT {
        if p + 1 < s.len() && s[p + 1] == B_EQ {
            (Ok(TokenKind::GreaterOrEqual), p + 2)
        } else if p + 1 < s.len() && s[p + 1] == B_GT {
            if p + 2 < s.len() && s[p + 2] == B_EQ {
                (Ok(TokenKind::RightShiftAssign), p + 3)
            } else {
                (Ok(TokenKind::RightShift), p + 2)
            }
        } else {
            (Ok(TokenKind::Greater), p + 1)
        }
    } else if b == B_LT {
        if p + 1 < s.len() && s[p + 1] == B_EQ {
            (Ok(TokenKind::LessOrEqual), p + 2)
        } else if p + 1 < s.len() && s[p + 1] == B_LT {
            if p + 2 < s.len() && s[p + 2] == B_EQ {
                (Ok(TokenKind::LeftShiftAssign), p + 3)
            } else {
                (Ok(TokenKind::LeftShift), p + 2)
            }
        } else {
            (Ok(TokenKind::Less), p + 1)
        }
    } else if b == B_DQUOTE || b == B_SQUOTE {
        scan_string(s, p)
    } else if is_ascii_digit(b) {
        scan_number(s, p)
    } else {
        let e = ident_end(s, p + 1);
        (Ok(TokenKind::Ident(Span { start: p as usize, end: e as usize })), e)
    }
}

/// What one call to the scanner returns when the cursor stands at `pos`:
/// end of input, a token, or an error.
pub open spec fn next_result(s: Seq<u8>, pos: int) -> Option<Result<TokenKind, ScannerError>> {
    let p = skip_trivia(s, pos);
    if p >= s.len() {
        None
    } else {
        Some(scan_token(s, p).0)
    }
}

/// Where the cursor stands after that call.
pub open spec fn next_cursor(s: Seq<u8>, pos: int) -> int {
    let p = skip_trivia(s, pos);
    if p >= s.len() {
        s.len() as int
    } else {
        scan_token(s, p).1
    }
}

/// Every payload a successful token carries is a sub-range of the source.
pub proof fn lemma_token_payload_in_source(s: Seq<u8>, p: int)
    requires
        0 <= p < s.len(),
        s.len() < usize::MAX,
    ensures
        match scan_token(s, p).0 {
            Ok(t) => match t.spec_payload() {
                Some(sp) => sp.start <= sp.end <= s.len(),
                None => true,
            },
            Err(_) => true,
        },
{
    let b = s[p];
    if b == B_DQUOTE || b == B_SQUOTE {
        if p + 1 < s.len() {
            lemma_string_end_bounds(s, b, p + 1);
        }
    } else if is_ascii_digit(b) {
        match radix_prefix(s, p) {
            Some((radix, base)) => {
                lemma_numeric_run_end_bounds(s, p + 2);
            },
            None => {
                assert(!is_numeric_terminator(s[p]));
                assert(numeric_run_end(s, p) == numeric_run_end(s, p + 1));
                lemma_numeric_run_end_bounds(s, p + 1);
            },
        }
    } else {
        lemma_ident_end_bounds(s, p + 1);
    }
}

/// Every token or error ends past the position it began at and within the
/// input: each successful call makes forward progress.
pub proof fn lemma_scan_token_bounds(s: Seq<u8>, p: int)
    requires
        0 <= p < s.len(),
    ensures
        p < scan_token(s, p).1 <= s.len(),
{
    let b = s[p];
    if b == B_DQUOTE || b == B_SQUOTE {
        if p + 1 < s.len() {
            lemma_string_end_bounds(s, b, p + 1);
        }
    } else if is_ascii_digit(b) {
        match radix_prefix(s, p) {
            Some((radix, base)) => {
                lemma_numeric_run_end_bounds(s, p + 2);
            },
            None => {
                assert(!is_numeric_terminator(s[p]));
                assert(numeric_run_end(s, p) == numeric_run_end(s, p + 1));
                lemma_numeric_run_end_bounds(s, p + 1);
            },
        }
    } else {
        lemma_ident_end_bounds(s, p + 1);
    }
}

} // verus!
