//! Laws of the scanner, stated once over the model and proved for every
//! input: forward progress, payload containment, the line counter's final
//! value, whitespace exclusion, and how the keyword overlay behaves.

use vstd::prelude::*;
use crate::tokens::{Keyword, TokenKind};
use crate::error::ScannerError;
use crate::model::{
    B_COLON, B_COMMA, B_DOT, B_EQ, B_HASH, B_LBRACE, B_LPAREN, B_RBRACE, B_RPAREN, B_SEMI,
    count_newlines, is_ascii_digit, is_numeric_terminator, is_significant, is_ws_byte,
    lemma_ident_end_bounds, lemma_numeric_run_end_bounds, lemma_scan_token_bounds,
    lemma_skip_trivia_bounds, lemma_token_payload_in_source, line_at, next_cursor, next_result,
    numeric_run_end, radix_prefix, scan_token, skip_trivia,
};
use crate::keywords::{overlay_result, overlay_token};

verus! {

/// Every call either signals end-of-input with the cursor on the input's
/// end, or moves the cursor strictly forward: repeated calls cannot loop
/// forever.
pub proof fn lemma_next_progress(s: Seq<u8>, pos: int)
    requires
        0 <= pos <= s.len(),
    ensures
        next_result(s, pos) is Some ==> pos < next_cursor(s, pos) <= s.len(),
        next_result(s, pos) is None ==> next_cursor(s, pos) == s.len(),
{
    lemma_skip_trivia_bounds(s, pos);
    if skip_trivia(s, pos) < s.len() {
        lemma_scan_token_bounds(s, skip_trivia(s, pos));
    }
}

/// Every payload span a successful token carries is a sub-range of the
/// source buffer.
pub proof fn lemma_payload_in_source(s: Seq<u8>, pos: int)
    requires
        0 <= pos <= s.len(),
        s.len() < usize::MAX,
    ensures
        match next_result(s, pos) {
            Some(Ok(t)) => match t.spec_payload() {
                Some(sp) => sp.start <= sp.end <= s.len(),
                None => true,
            },
            _ => true,
        },
{
    lemma_skip_trivia_bounds(s, pos);
    if skip_trivia(s, pos) < s.len() {
        lemma_token_payload_in_source(s, skip_trivia(s, pos));
    }
}

/// Once the cursor has consumed the whole source, the line counter equals
/// one plus the number of newline bytes in it.
pub proof fn lemma_line_counter_at_end(s: Seq<u8>)
    ensures
        line_at(s, s.len() as int) == 1 + count_newlines(s),
{
    assert(s.take(s.len() as int) =~= s);
}

/// No whitespace byte lies inside the extent of an emitted token, except
/// inside a string literal.
pub proof fn lemma_no_ws_inside_tokens(s: Seq<u8>, pos: int)
    requires
        0 <= pos <= s.len(),
    ensures
        match next_result(s, pos) {
            Some(Ok(t)) => !(t matches TokenKind::Str(_)) ==> forall|k: int|
                skip_trivia(s, pos) <= k < next_cursor(s, pos) ==> !is_ws_byte(#[trigger] s[k]),
            _ => true,
        },
{
    lemma_skip_trivia_bounds(s, pos);
    let p = skip_trivia(s, pos);
    if p < s.len() {
        let b = s[p];
        if is_ascii_digit(b) {
            match radix_prefix(s, p) {
                Some((radix, base)) => {
                    lemma_numeric_run_end_bounds(s, p + 2);
                },
                None => {
                    assert(!is_numeric_terminator(s[p]));
                    assert(numeric_run_end(s, p) == numeric_run_end(s, p + 1));
                    lemma_numeric_run_end_bounds(s, p + 1);
                },
            }
        } else {
            lemma_ident_end_bounds(s, p + 1);
        }
    }
}

/// The keyword overlay keeps the stream's shape: end-of-input and errors
/// pass through unchanged, and so does every token that is not an
/// identifier. In particular it preserves the stream's length.
pub proof fn lemma_overlay_preserves_non_idents(
    s: Seq<u8>,
    rows: Seq<(Seq<u8>, Keyword)>,
    r: Option<Result<TokenKind, ScannerError>>,
)
    ensures
        (overlay_result(s, rows, r) is Some) == (r is Some),
        match r {
            Some(Ok(t)) => !t.is_ident() ==> overlay_result(s, rows, r) == r,
            _ => overlay_result(s, rows, r) == r,
        },
{
}

/// Applying the keyword overlay twice with the same table yields the same
/// result as applying it once: a reclassified keyword is no identifier, and
/// an identifier the table misses stays one that it still misses.
pub proof fn lemma_overlay_idempotent(
    s: Seq<u8>,
    rows: Seq<(Seq<u8>, Keyword)>,
    r: Option<Result<TokenKind, ScannerError>>,
)
    ensures
        overlay_result(s, rows, overlay_result(s, rows, r)) == overlay_result(s, rows, r),
{
    match r {
        Some(Ok(t)) => {
            assert(overlay_token(s, rows, overlay_token(s, rows, t)) == overlay_token(s, rows, t));
        },
        _ => {},
    }
}

/// The nine single-byte punctuation marks.
pub open spec fn is_single_punct(b: u8) -> bool {
    b == B_LPAREN || b == B_RPAREN || b == B_LBRACE || b == B_RBRACE || b == B_COMMA || b == B_DOT
        || b == B_SEMI || b == B_COLON || b == B_HASH
}

/// The token kind a single punctuation byte scans to.
pub open spec fn punct_kind(b: u8) -> TokenKind {
    if b == B_LPAREN {
        TokenKind::OPar
    } else if b == B_RPAREN {
        TokenKind::CPar
    } else if b == B_LBRACE {
        TokenKind::OBrace
    } else if b == B_RBRACE {
        TokenKind::CBrace
    } else if b == B_COMMA {
        TokenKind::Comma
    } else if b == B_DOT {
        TokenKind::Dot
    } else if b == B_SEMI {
        TokenKind::Semicolon
    } else if b == B_COLON {
        TokenKind::Colon
    } else {
        TokenKind::Hashtag
    }
}

/// The kinds of all tokens the scanner emits from `pos` on, errors left
/// out: what a consumer collects by calling `next` until end-of-input.
pub open spec fn scan_kinds(s: Seq<u8>, pos: int) -> Seq<TokenKind>
    decreases s.len() - pos,
        when 0 <= pos <= s.len()
        via scan_kinds_decreases
{
    let p = skip_trivia(s, pos);
    if p >= s.len() {
        Seq::empty()
    } else {
        match scan_token(s, p).0 {
            Ok(t) => seq![t] + scan_kinds(s, scan_token(s, p).1),
            Err(_) => scan_kinds(s, scan_token(s, p).1),
        }
    }
}

#[via_fn]
proof fn scan_kinds_decreases(s: Seq<u8>, pos: int) {
    lemma_skip_trivia_bounds(s, pos);
    if skip_trivia(s, pos) < s.len() {
        lemma_scan_token_bounds(s, skip_trivia(s, pos));
    }
}

/// An input's bytes read one by one, whitespace dropped, each punctuation
/// byte as its token kind: the input "modulo whitespace".
pub open spec fn punct_render(s: Seq<u8>, pos: int) -> Seq<TokenKind>
    decreases s.len() - pos,
{
    if pos < 0 || pos >= s.len() {
        Seq::empty()
    } else if is_ws_byte(s[pos]) {
        punct_render(s, pos + 1)
    } else {
        seq![punct_kind(s[pos])] + punct_render(s, pos + 1)
    }
}

/// On an input of punctuation and whitespace alone, the emitted kinds
/// reproduce the input modulo whitespace, byte for byte.
pub proof fn lemma_punct_ws_stream(s: Seq<u8>, pos: int)
    requires
        0 <= pos <= s.len(),
        forall|k: int| 0 <= k < s.len() ==> is_ws_byte(#[trigger] s[k]) || is_single_punct(s[k]),
    ensures
        scan_kinds(s, pos) == punct_render(s, pos),
    decreases s.len() - pos,
{
    if pos >= s.len() {
    } else if is_ws_byte(s[pos]) {
        lemma_punct_ws_stream(s, pos + 1);
    } else {
        assert(is_single_punct(s[pos]));
        assert(skip_trivia(s, pos) == pos);
        assert(scan_token(s, pos).0 == Ok::<TokenKind, ScannerError>(punct_kind(s[pos])));
        assert(scan_token(s, pos).1 == pos + 1);
        lemma_punct_ws_stream(s, pos + 1);
        assert(scan_kinds(s, pos) == seq![punct_kind(s[pos])] + scan_kinds(s, pos + 1));
    }
}

} // verus!
