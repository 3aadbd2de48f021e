//! The scanner: a cursor over a borrowed byte buffer that yields one token,
//! error, or end-of-input signal per call, proven equal to the model in
//! [`crate::model`].

use vstd::prelude::*;
use crate::tokens::{Span, TokenKind};
use crate::error::{ErrorMessage, LiteralError, NumericBase, ScannerError, ScannerErrorKind};
use crate::model::{
    B_0, B_9, B_AMP, B_BACKSLASH, B_BANG, B_CARET, B_COLON, B_COMMA, B_CR, B_DOT, B_DQUOTE, B_EQ,
    B_FF, B_GT, B_HASH, B_LBRACE, B_LOWER_A, B_LOWER_B, B_LOWER_E, B_LOWER_O, B_LOWER_X,
    B_LOWER_Z, B_LPAREN, B_LT, B_MINUS, B_NL, B_PERCENT, B_PIPE, B_PLUS, B_RBRACE, B_RPAREN,
    B_SEMI, B_SLASH, B_SPACE, B_SQUOTE, B_STAR, B_TAB, B_UPPER_A, B_UPPER_E, B_UPPER_Z,
    block_comment_end, digit_value, digits_end, has_dot, ident_end, is_ascii_digit,
    is_float_range, is_newline, is_numeric_terminator, is_significant, is_ws_byte,
    lemma_count_newlines_le_len, lemma_count_newlines_step, lemma_ident_end_bounds,
    lemma_line_at_no_newlines, lemma_numeric_run_end_bounds, lemma_scan_token_bounds,
    lemma_skip_trivia_bounds, line_at, line_comment_end, next_cursor, next_result,
    numeric_run_end, op_or_assign, parse_int_from, radix_prefix, scan_number, scan_number_in,
    scan_string, scan_token, skip_trivia, string_end,
};

verus! {

/// The scanner state: the borrowed source, the cursor position in bytes,
/// and the 1-based line counter.
#[derive(Debug)]
pub struct Scanner<'a> {
    pub source: &'a [u8],
    pub pos: usize,
    pub line: usize,
}

/// True exactly when `b` is ASCII whitespace.
fn ws_byte(b: u8) -> (r: bool)
    ensures
        r == is_ws_byte(b),
{
    b == B_SPACE || b == B_TAB || b == B_NL || b == B_CR || b == B_FF
}

/// True exactly when `b` is an ASCII digit.
fn digit_byte(b: u8) -> (r: bool)
    ensures
        r == is_ascii_digit(b),
{
    B_0 <= b && b <= B_9
}

/// True exactly when `b` ends a greedy numeric run.
fn numeric_terminator_byte(b: u8) -> (r: bool)
    ensures
        r == is_numeric_terminator(b),
{
    let alnum = (B_0 <= b && b <= B_9) || (B_LOWER_A <= b && b <= B_LOWER_Z) || (B_UPPER_A <= b
        && b <= B_UPPER_Z);
    ws_byte(b) || (!alnum && b != B_DOT)
}

/// The numeric value of an ASCII digit or letter, 36 for anything else.
fn digit_value_byte(b: u8) -> (r: u8)
    ensures
        r as int == digit_value(b),
        r <= 36,
{
    if B_0 <= b && b <= B_9 {
        b - B_0
    } else if B_LOWER_A <= b && b <= B_LOWER_Z {
        b - B_LOWER_A + 10
    } else if B_UPPER_A <= b && b <= B_UPPER_Z {
        b - B_UPPER_A + 10
    } else {
        36
    }
}

/// The first non-digit position in `s[i..e)`, or `e`.
fn digits_end_in(s: &[u8], i: usize, e: usize) -> (r: usize)
    requires
        i <= e <= s@.len(),
    ensures
        r as int == digits_end(s@, i as int, e as int),
        i <= r <= e,
{
    let mut k: usize = i;
    while k < e && digit_byte(s[k])
        invariant
            i <= k <= e <= s@.len(),
            digits_end(s@, i as int, e as int) == digits_end(s@, k as int, e as int),
        decreases e - k,
    {
        k = k + 1;
    }
    k
}

/// Whether `s[start..e)` is a well-formed float run: digits, a dot,
/// optional fraction digits, and an optional exponent with digits.
fn float_run_ok(s: &[u8], start: usize, e: usize) -> (r: bool)
    requires
        start <= e <= s@.len(),
    ensures
        r == is_float_range(s@, start as int, e as int),
{
    let i = digits_end_in(s, start, e);
    if i <= start || i >= e || s[i] != B_DOT {
        return false;
    }
    let j = digits_end_in(s, i + 1, e);
    if j == e {
        return true;
    }
    (s[j] == B_LOWER_E || s[j] == B_UPPER_E) && j + 1 < e && digits_end_in(s, j + 1, e) == e
}

/// Re-slice a payload span out of the source buffer the consumer holds.
pub fn span_slice<'s>(source: &'s [u8], sp: Span) -> (r: &'s [u8])
    requires
        sp.start <= sp.end <= source@.len(),
    ensures
        r@ == source@.subrange(sp.start as int, sp.end as int),
{
    &source[sp.start..sp.end]
}

impl<'a> Scanner<'a> {
    /// The scanner's invariant: the cursor stays inside the source and the
    /// line counter equals one plus the newlines consumed so far.
    pub open spec fn wf(self) -> bool {
        &&& self.source@.len() < usize::MAX
        &&& self.pos <= self.source@.len()
        &&& self.line == line_at(self.source@, self.pos as int)
    }

    /// A fresh scanner at the start of the source, on line 1.
    pub fn new(source: &'a [u8]) -> (r: Scanner<'a>)
        requires
            source@.len() < usize::MAX,
        ensures
            r.wf(),
            r.source@ == source@,
            r.pos == 0,
            r.line == 1,
    {
        proof {
            assert(source@.take(0) =~= Seq::<u8>::empty());
        }
        Scanner { source, pos: 0, line: 1 }
    }

    /// Read an operator that may take an `=` suffix: consumes one byte, or
    /// two when the next byte is `=`.
    fn op2(&mut self, simple: TokenKind, compound: TokenKind) -> (r: TokenKind)
        requires
            old(self).wf(),
            old(self).pos < old(self).source@.len(),
            !is_ws_byte(old(self).source@[old(self).pos as int]),
        ensures
            final(self).wf(),
            final(self).source@ == old(self).source@,
            op_or_assign(old(self).source@, old(self).pos as int, simple, compound) == (
                Ok::<TokenKind, ScannerError>(r),
                final(self).pos as int,
            ),
    {
        let ghost sq = self.source@;
        let p = self.pos;
        let r: TokenKind;
        if p + 1 < self.source.len() && self.source[p + 1] == B_EQ {
            self.pos = p + 2;
            r = compound;
        } else {
            self.pos = p + 1;
            r = simple;
        }
        proof {
            lemma_line_at_no_newlines(sq, p as int, self.pos as int);
        }
        r
    }

    /// Read a string literal whose opening quote stands at the cursor.
    fn scan_string_tok(&mut self) -> (r: Result<TokenKind, ScannerError>)
        requires
            old(self).wf(),
            old(self).pos < old(self).source@.len(),
            old(self).source@[old(self).pos as int] == B_DQUOTE || old(self).source@[old(
                self,
            ).pos as int] == B_SQUOTE,
        ensures
            final(self).wf(),
            final(self).source@ == old(self).source@,
            r == scan_string(old(self).source@, old(self).pos as int).0,
            final(self).pos as int == scan_string(old(self).source@, old(self).pos as int).1,
    {
        let ghost sq = self.source@;
        let len = self.source.len();
        let p = self.pos;
        let start_line = self.line;
        if p + 1 >= len {
            proof {
                lemma_line_at_no_newlines(sq, p as int, p as int + 1);
            }
            self.pos = p + 1;
            return Err(
                ScannerError {
                    kind: ScannerErrorKind::IncompleteToken {
                        token: Some(TokenKind::Str(Span { start: p + 1, end: p + 1 })),
                    },
                    line: start_line,
                    pos: p,
                    message: Some(ErrorMessage::UnterminatedStringAtEnd),
                    context: None,
                },
            );
        }
        let quote = self.source[p];
        proof {
            lemma_count_newlines_step(sq, p as int);
        }
        let mut i: usize = p + 1;
        while i < len && !(self.source[i] == quote && self.source[i - 1] != B_BACKSLASH)
            invariant
                self.source@ == sq,
                len == sq.len(),
                len < usize::MAX,
                p < len,
                p + 1 <= i <= len,
                self.pos == p,
                quote == sq[p as int],
                quote == B_DQUOTE || quote == B_SQUOTE,
                string_end(sq, quote, p as int + 1) == string_end(sq, quote, i as int),
                self.line == line_at(sq, i as int),
            decreases len - i,
        {
            proof {
                lemma_count_newlines_step(sq, i as int);
                lemma_count_newlines_le_len(sq.take(i as int));
            }
            if self.source[i] == B_NL {
                self.line = self.line + 1;
            }
            i = i + 1;
        }
        assert(i as int == string_end(sq, quote, p as int + 1));
        if i < len {
            proof {
                lemma_count_newlines_step(sq, i as int);
            }
            self.pos = i + 1;
            Ok(TokenKind::Str(Span { start: p + 1, end: i }))
        } else {
            self.pos = len;
            Err(
                ScannerError {
                    kind: ScannerErrorKind::Unmatched {
                        token: Some(TokenKind::Str(Span { start: p, end: len })),
                    },
                    line: start_line,
                    pos: p,
                    message: Some(ErrorMessage::UnterminatedString),
                    context: Some(Span { start: p, end: len }),
                },
            )
        }
    }

    /// Read a numeric literal whose first digit stands at the cursor.
    fn scan_number_tok(&mut self) -> (r: Result<TokenKind, ScannerError>)
        requires
            old(self).wf(),
            old(self).pos < old(self).source@.len(),
            is_ascii_digit(old(self).source@[old(self).pos as int]),
        ensures
            final(self).wf(),
            final(self).source@ == old(self).source@,
            r == scan_number(old(self).source@, old(self).pos as int).0,
            final(self).pos as int == scan_number(old(self).source@, old(self).pos as int).1,
    {
        let ghost sq = self.source@;
        let len = self.source.len();
        let p = self.pos;
        let line0 = self.line;

        // Radix prefix.
        let prefixed: bool;
        let radix: u8;
        let base: NumericBase;
        let start: usize;
        if p + 1 < len && self.source[p] == B_0 && (self.source[p + 1] == B_LOWER_B || self.source[p
            + 1] == B_LOWER_X || self.source[p + 1] == B_LOWER_O) {
            prefixed = true;
            start = p + 2;
            if self.source[p + 1] == B_LOWER_B {
                radix = 2;
                base = NumericBase::Binary;
            } else if self.source[p + 1] == B_LOWER_X {
                radix = 16;
                base = NumericBase::Hexadecimal;
            } else {
                radix = 8;
                base = NumericBase::Octal;
            }
        } else {
            prefixed = false;
            start = p;
            radix = 10;
            base = NumericBase::Decimal;
        }
        proof {
            assert(radix_prefix(sq, p as int) == if prefixed {
                Some((radix as int, base))
            } else {
                None::<(int, NumericBase)>
            });
            assert(scan_number(sq, p as int) == scan_number_in(
                sq,
                p as int,
                start as int,
                radix as int,
                base,
                prefixed,
            ));
        }

        // The greedy numeric run.
        let mut e: usize = start;
        while e < len && !numeric_terminator_byte(self.source[e])
            invariant
                self.source@ == sq,
                len == sq.len(),
                start <= e <= len,
                numeric_run_end(sq, start as int) == numeric_run_end(sq, e as int),
            decreases len - e,
        {
            e = e + 1;
        }
        assert(e as int == numeric_run_end(sq, start as int));
        let ctx = Some(Span { start: p, end: e });

        // The run holds no whitespace, so no newline either: the line
        // counter is unaffected; neither is a prefix byte a newline.
        proof {
            lemma_numeric_run_end_bounds(sq, start as int);
            assert(forall|k: int| p <= k < e ==> !is_newline(#[trigger] sq[k]));
            lemma_line_at_no_newlines(sq, p as int, e as int);
        }
        self.pos = e;

        // Is there a dot anywhere in the run?
        let mut k: usize = start;
        while k < e && self.source[k] != B_DOT
            invariant
                self.source@ == sq,
                len == sq.len(),
                start <= k <= e <= len,
                forall|j: int| start <= j < k ==> #[trigger] sq[j] != B_DOT,
            decreases e - k,
        {
            k = k + 1;
        }
        let dot = k < e;
        proof {
            if dot {
                assert(sq[k as int] == B_DOT);
            }
            assert(dot == has_dot(sq, start as int, e as int));
        }

        if dot {
            if prefixed {
                return Err(
                    ScannerError {
                        kind: ScannerErrorKind::IncorrectLiteral { parse_error: None },
                        line: line0,
                        pos: p,
                        message: Some(ErrorMessage::FloatWithRadixPrefix(base)),
                        context: ctx,
                    },
                );
            }
            if float_run_ok(self.source, start, e) {
                return Ok(TokenKind::Float(Span { start: p, end: e }));
            }
            return Err(
                ScannerError {
                    kind: ScannerErrorKind::IncorrectLiteral {
                        parse_error: Some(LiteralError::MalformedFloat),
                    },
                    line: line0,
                    pos: p,
                    message: Some(ErrorMessage::FloatParseFailed),
                    context: ctx,
                },
            );
        }

        // Integer: left-to-right checked accumulation in the chosen base.
        if start >= e {
            return Err(
                ScannerError {
                    kind: ScannerErrorKind::IncorrectLiteral {
                        parse_error: Some(LiteralError::Empty),
                    },
                    line: line0,
                    pos: p,
                    message: Some(ErrorMessage::IntegerParseFailed(base)),
                    context: ctx,
                },
            );
        }
        let mut acc: i64 = 0;
        let mut i: usize = start;
        let mut fail: Option<LiteralError> = None;
        loop
            invariant_except_break
                fail is None,
                parse_int_from(sq, start as int, e as int, radix as int, 0) == parse_int_from(
                    sq,
                    i as int,
                    e as int,
                    radix as int,
                    acc as int,
                ),
            invariant
                self.source@ == sq,
                len == sq.len(),
                start <= i <= e <= len,
                2 <= radix <= 16,
                0 <= acc,
            ensures
                fail is None ==> parse_int_from(sq, start as int, e as int, radix as int, 0)
                    == Ok::<int, LiteralError>(acc as int),
                fail matches Some(le) ==> parse_int_from(sq, start as int, e as int, radix as int, 0)
                    == Err::<int, LiteralError>(le),
            decreases e - i,
        {
            if i >= e {
                break;
            }
            let dv = digit_value_byte(self.source[i]);
            if dv >= radix {
                fail = Some(LiteralError::InvalidDigit);
                break;
            }
            assert((acc as int) * (radix as int) <= 0x7fff_ffff_ffff_ffff * 16) by (nonlinear_arith)
                requires
                    0 <= acc <= i64::MAX,
                    0 <= radix <= 16,
            ;
            let wide: u128 = (acc as u128) * (radix as u128) + (dv as u128);
            if wide > i64::MAX as u128 {
                fail = Some(LiteralError::Overflow);
                break;
            }
            acc = wide as i64;
            i = i + 1;
        }
        match fail {
            None => Ok(TokenKind::Integer(acc)),
            Some(le) => Err(
                ScannerError {
                    kind: ScannerErrorKind::IncorrectLiteral { parse_error: Some(le) },
                    line: line0,
                    pos: p,
                    message: Some(ErrorMessage::IntegerParseFailed(base)),
                    context: ctx,
                },
            ),
        }
    }

    /// Read an identifier: it runs to the next whitespace byte or the end
    /// of the input.
    fn scan_ident_tok(&mut self) -> (r: TokenKind)
        requires
            old(self).wf(),
            old(self).pos < old(self).source@.len(),
            !is_ws_byte(old(self).source@[old(self).pos as int]),
        ensures
            final(self).wf(),
            final(self).source@ == old(self).source@,
            r == TokenKind::Ident(
                Span {
                    start: old(self).pos,
                    end: ident_end(old(self).source@, old(self).pos as int + 1) as usize,
                },
            ),
            final(self).pos as int == ident_end(old(self).source@, old(self).pos as int + 1),
    {
        let ghost sq = self.source@;
        let len = self.source.len();
        let p = self.pos;
        let mut i: usize = p + 1;
        while i < len && !ws_byte(self.source[i])
            invariant
                self.source@ == sq,
                len == sq.len(),
                p + 1 <= i <= len,
                ident_end(sq, p as int + 1) == ident_end(sq, i as int),
            decreases len - i,
        {
            i = i + 1;
        }
        proof {
            assert(i as int == ident_end(sq, p as int + 1));
            lemma_ident_end_bounds(sq, p as int + 1);
            assert(forall|k: int| p <= k < i ==> !is_newline(#[trigger] sq[k]));
            lemma_line_at_no_newlines(sq, p as int, i as int);
        }
        self.pos = i;
        TokenKind::Ident(Span { start: p, end: i })
    }

    /// Produce the next token of the source, an error describing why one
    /// could not be read, or `None` once only trivia remains.
    ///
    /// The result and the cursor movement are pinned exactly by the model:
    /// whitespace and comments are skipped (counting lines), and the token
    /// or error read at the first significant byte is returned, the cursor
    /// standing just past it. Every `Some` call makes forward progress.
    pub fn next(&mut self) -> (r: Option<Result<TokenKind, ScannerError>>)
        requires
            old(self).wf(),
        ensures
            final(self).wf(),
            final(self).source@ == old(self).source@,
            r == next_result(old(self).source@, old(self).pos as int),
            final(self).pos as int == next_cursor(old(self).source@, old(self).pos as int),
            r is Some ==> old(self).pos < final(self).pos,
            r is None ==> final(self).pos == old(self).source@.len(),
    {
        let ghost sq = self.source@;
        let len = self.source.len();
        let ghost pos0 = self.pos as int;

        // Skip whitespace and comments, counting every newline consumed.
        loop
            invariant
                self.source@ == sq,
                len == sq.len(),
                len < usize::MAX,
                pos0 <= self.pos <= len,
                self.line == line_at(sq, self.pos as int),
                skip_trivia(sq, pos0) == skip_trivia(sq, self.pos as int),
            ensures
                self.source@ == sq,
                pos0 <= self.pos <= len,
                self.line == line_at(sq, self.pos as int),
                self.pos as int == skip_trivia(sq, pos0),
            decreases len - self.pos,
        {
            if self.pos >= len {
                break;
            }
            let b = self.source[self.pos];
            if b == B_NL {
                proof {
                    lemma_count_newlines_step(sq, self.pos as int);
                    lemma_count_newlines_le_len(sq.take(self.pos as int));
                }
                self.line = self.line + 1;
                self.pos = self.pos + 1;
            } else if b == B_SPACE || b == B_TAB || b == B_FF || b == B_CR {
                proof {
                    lemma_count_newlines_step(sq, self.pos as int);
                }
                self.pos = self.pos + 1;
            } else if b == B_SLASH && self.pos + 1 < len && self.source[self.pos + 1] == B_SLASH {
                // A line comment: runs to the newline, which stays
                // unconsumed so the next round counts it.
                let ghost c = self.pos as int + 2;
                proof {
                    lemma_count_newlines_step(sq, self.pos as int);
                    lemma_count_newlines_step(sq, self.pos as int + 1);
                }
                let mut i: usize = self.pos + 2;
                while i < len && self.source[i] != B_NL
                    invariant
                        self.source@ == sq,
                        len == sq.len(),
                        c <= i as int <= len,
                        self.line == line_at(sq, i as int),
                        line_comment_end(sq, c) == line_comment_end(sq, i as int),
                    decreases len - i,
                {
                    proof {
                        lemma_count_newlines_step(sq, i as int);
                    }
                    i = i + 1;
                }
                assert(i as int == line_comment_end(sq, c));
                self.pos = i;
            } else if b == B_SLASH && self.pos + 1 < len && self.source[self.pos + 1] == B_STAR {
                // A block comment: runs past the first `*/`, or silently
                // to the end of the input when it never closes.
                let ghost c = self.pos as int + 2;
                proof {
                    lemma_count_newlines_step(sq, self.pos as int);
                    lemma_count_newlines_step(sq, self.pos as int + 1);
                }
                let mut i: usize = self.pos + 2;
                while i + 1 < len && !(self.source[i] == B_STAR && self.source[i + 1] == B_SLASH)
                    invariant
                        self.source@ == sq,
                        len == sq.len(),
                        len < usize::MAX,
                        c <= i as int <= len,
                        self.line == line_at(sq, i as int),
                        block_comment_end(sq, c) == block_comment_end(sq, i as int),
                    decreases len - i,
                {
                    proof {
                        lemma_count_newlines_step(sq, i as int);
                        lemma_count_newlines_le_len(sq.take(i as int));
                    }
                    if self.source[i] == B_NL {
                        self.line = self.line + 1;
                    }
                    i = i + 1;
                }
                if i + 1 < len {
                    // Consume the closing `*/`; neither byte is a newline.
                    proof {
                        lemma_count_newlines_step(sq, i as int);
                        lemma_count_newlines_step(sq, i as int + 1);
                    }
                    i = i + 2;
                } else if i < len {
                    // The single trailing byte of an unterminated comment.
                    proof {
                        lemma_count_newlines_step(sq, i as int);
                        lemma_count_newlines_le_len(sq.take(i as int));
                    }
                    if self.source[i] == B_NL {
                        self.line = self.line + 1;
                    }
                    i = i + 1;
                }
                assert(i as int == block_comment_end(sq, c));
                self.pos = i;
            } else {
                break;
            }
        }

        if self.pos >= len {
            return None;
        }

        let ghost pi = self.pos as int;
        proof {
            lemma_skip_trivia_bounds(sq, pos0);
            assert(skip_trivia(sq, pos0) == pi);
            assert(is_significant(sq, pi));
        }

        let p = self.pos;
        let b = self.source[p];
        let res: Result<TokenKind, ScannerError>;
        if b == B_LPAREN {
            res = Ok(TokenKind::OPar);
            self.pos = p + 1;
            proof {
                lemma_line_at_no_newlines(sq, pi, pi + 1);
            }
        } else if b == B_RPAREN {
            res = Ok(TokenKind::CPar);
            self.pos = p + 1;
            proof {
                lemma_line_at_no_newlines(sq, pi, pi + 1);
            }
        } else if b == B_LBRACE {
            res = Ok(TokenKind::OBrace);
            self.pos = p + 1;
            proof {
                lemma_line_at_no_newlines(sq, pi, pi + 1);
            }
        } else if b == B_RBRACE {
            res = Ok(TokenKind::CBrace);
            self.pos = p + 1;
            proof {
                lemma_line_at_no_newlines(sq, pi, pi + 1);
            }
        } else if b == B_COMMA {
            res = Ok(TokenKind::Comma);
            self.pos = p + 1;
            proof {
                lemma_line_at_no_newlines(sq, pi, pi + 1);
            }
        } else if b == B_DOT {
            res = Ok(TokenKind::Dot);
            self.pos = p + 1;
            proof {
                lemma_line_at_no_newlines(sq, pi, pi + 1);
            }
        } else if b == B_SEMI {
            res = Ok(TokenKind::Semicolon);
            self.pos = p + 1;
            proof {
                lemma_line_at_no_newlines(sq, pi, pi + 1);
            }
        } else if b == B_HASH {
            res = Ok(TokenKind::Hashtag);
            self.pos = p + 1;
            proof {
                lemma_line_at_no_newlines(sq, pi, pi + 1);
            }
        } else if b == B_PLUS {
            res = Ok(self.op2(TokenKind::Add, TokenKind::AddAssign));
        } else if b == B_MINUS {
            res = Ok(self.op2(TokenKind::Sub, TokenKind::SubAssign));
        } else if b == B_STAR {
            res = Ok(self.op2(TokenKind::Mul, TokenKind::MulAssign));
        } else if b == B_SLASH {
            res = Ok(self.op2(TokenKind::Div, TokenKind::DivAssign));
        } else if b == B_PERCENT {
            res = Ok(self.op2(TokenKind::Rem, TokenKind::RemAssign));
        } else if b == B_EQ {
            res = Ok(self.op2(TokenKind::Reassignment, TokenKind::Equal));
        } else if b == B_BANG {
            res = Ok(self.op2(TokenKind::Bang, TokenKind::NotEqual));
        } else if b == B_COLON {
            res = Ok(self.op2(TokenKind::Colon, TokenKind::Walrus));
        } else if b == B_PIPE {
            res = Ok(self.op2(TokenKind::BitOr, TokenKind::BitOrAssign));
        } else if b == B_CARET {
            res = Ok(self.op2(TokenKind::BitXor, TokenKind::BitXorAssign));
        } else if b == B_AMP {
            res = Ok(self.op2(TokenKind::BitAnd, TokenKind::BitAndAssign));
        } else if b == B_GT {
            if p + 1 < len && self.source[p + 1] == B_EQ {
                res = Ok(TokenKind::GreaterOrEqual);
                self.pos = p + 2;
            } else if p + 1 < len && self.source[p + 1] == B_GT {
                if p + 2 < len && self.source[p + 2] == B_EQ {
                    res = Ok(TokenKind::RightShiftAssign);
                    self.pos = p + 3;
                } else {
                    res = Ok(TokenKind::RightShift);
                    self.pos = p + 2;
                }
            } else {
                res = Ok(TokenKind::Greater);
                self.pos = p + 1;
            }
            proof {
                lemma_line_at_no_newlines(sq, pi, self.pos as int);
            }
        } else if b == B_LT {
            if p + 1 < len && self.source[p + 1] == B_EQ {
                res = Ok(TokenKind::LessOrEqual);
                self.pos = p + 2;
            } else if p + 1 < len && self.source[p + 1] == B_LT {
                if p + 2 < len && self.source[p + 2] == B_EQ {
                    res = Ok(TokenKind::LeftShiftAssign);
                    self.pos = p + 3;
                } else {
                    res = Ok(TokenKind::LeftShift);
                    self.pos = p + 2;
                }
            } else {
                res = Ok(TokenKind::Less);
                self.pos = p + 1;
            }
            proof {
                lemma_line_at_no_newlines(sq, pi, self.pos as int);
            }
        } else if b == B_DQUOTE || b == B_SQUOTE {
            res = self.scan_string_tok();
        } else if digit_byte(b) {
            res = self.scan_number_tok();
        } else {
            res = Ok(self.scan_ident_tok());
        }

        proof {
            assert(res == scan_token(sq, pi).0);
            assert(self.pos as int == scan_token(sq, pi).1);
            lemma_scan_token_bounds(sq, pi);
        }
        Some(res)
    }
}

} // verus!
