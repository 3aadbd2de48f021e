use azura::error::{ErrorMessage, LiteralError, NumericBase, ScannerError, ScannerErrorKind};
use azura::scanner::{span_slice, Scanner};
use azura::tokens::{Span, TokenKind};

fn collect(src: &[u8]) -> Vec<Result<TokenKind, ScannerError>> {
    let mut scanner = Scanner::new(src);
    let mut out = Vec::new();
    while let Some(item) = scanner.next() {
        out.push(item);
    }
    out
}

fn kinds(src: &[u8]) -> Vec<TokenKind> {
    collect(src)
        .into_iter()
        .map(|item| item.expect("expected a token, found an error"))
        .collect()
}

#[test]
fn empty_input_ends_immediately() {
    let mut scanner = Scanner::new(b"");
    assert!(scanner.next().is_none());
    assert!(scanner.next().is_none());
    assert_eq!(scanner.line, 1);
}

#[test]
fn integers_and_addition() {
    assert_eq!(
        kinds(b"100 + 4"),
        vec![TokenKind::Integer(100), TokenKind::Add, TokenKind::Integer(4)]
    );
}

#[test]
fn line_comment_then_integer_counts_lines() {
    let mut scanner = Scanner::new(b"// c\n1");
    assert_eq!(scanner.next(), Some(Ok(TokenKind::Integer(1))));
    assert_eq!(scanner.next(), None);
    assert_eq!(scanner.line, 2);
}

#[test]
fn string_with_escaped_quote_kept_verbatim() {
    let src = b"\"hi\\\"there\"";
    let toks = kinds(src);
    assert_eq!(toks.len(), 1);
    match toks[0] {
        TokenKind::Str(sp) => {
            assert_eq!(span_slice(src, sp), b"hi\\\"there");
        }
        ref other => panic!("expected a string token, found {:?}", other),
    }
}

#[test]
fn radix_prefixed_integers() {
    assert_eq!(
        kinds(b"0x1F + 0b1010"),
        vec![TokenKind::Integer(31), TokenKind::Add, TokenKind::Integer(10)]
    );
    assert_eq!(kinds(b"0o17"), vec![TokenKind::Integer(15)]);
    assert_eq!(kinds(b"0x1f"), vec![TokenKind::Integer(31)]);
}

#[test]
fn shift_operators() {
    assert_eq!(
        kinds(b"2 << 1"),
        vec![TokenKind::Integer(2), TokenKind::LeftShift, TokenKind::Integer(1)]
    );
    assert_eq!(
        kinds(b"a >> b"),
        vec![
            TokenKind::Ident(Span { start: 0, end: 1 }),
            TokenKind::RightShift,
            TokenKind::Ident(Span { start: 5, end: 6 }),
        ]
    );
    assert_eq!(kinds(b"<<= >>="), vec![TokenKind::LeftShiftAssign, TokenKind::RightShiftAssign]);
}

#[test]
fn operator_table() {
    assert_eq!(
        kinds(b"+ += - -= * *= / /= % %="),
        vec![
            TokenKind::Add,
            TokenKind::AddAssign,
            TokenKind::Sub,
            TokenKind::SubAssign,
            TokenKind::Mul,
            TokenKind::MulAssign,
            TokenKind::Div,
            TokenKind::DivAssign,
            TokenKind::Rem,
            TokenKind::RemAssign,
        ]
    );
    assert_eq!(
        kinds(b"= == ! != > >= < <="),
        vec![
            TokenKind::Reassignment,
            TokenKind::Equal,
            TokenKind::Bang,
            TokenKind::NotEqual,
            TokenKind::Greater,
            TokenKind::GreaterOrEqual,
            TokenKind::Less,
            TokenKind::LessOrEqual,
        ]
    );
    assert_eq!(
        kinds(b"| |= ^ ^= & &= : :="),
        vec![
            TokenKind::BitOr,
            TokenKind::BitOrAssign,
            TokenKind::BitXor,
            TokenKind::BitXorAssign,
            TokenKind::BitAnd,
            TokenKind::BitAndAssign,
            TokenKind::Colon,
            TokenKind::Walrus,
        ]
    );
}

#[test]
fn punctuation_reproduced_modulo_whitespace() {
    assert_eq!(
        kinds(b"( ) {},. ;:#"),
        vec![
            TokenKind::OPar,
            TokenKind::CPar,
            TokenKind::OBrace,
            TokenKind::CBrace,
            TokenKind::Comma,
            TokenKind::Dot,
            TokenKind::Semicolon,
            TokenKind::Colon,
            TokenKind::Hashtag,
        ]
    );
}

#[test]
fn unterminated_string_is_unmatched_with_partial_payload() {
    let src = b"\"abc";
    let out = collect(src);
    assert_eq!(out.len(), 1);
    match &out[0] {
        Err(e) => {
            assert_eq!(e.line, 1);
            assert_eq!(e.pos, 0);
            assert_eq!(e.message, Some(ErrorMessage::UnterminatedString));
            assert_eq!(e.context, Some(Span { start: 0, end: 4 }));
            match e.kind {
                ScannerErrorKind::Unmatched { token: Some(TokenKind::Str(sp)) } => {
                    assert_eq!(span_slice(src, sp), b"\"abc");
                }
                ref other => panic!("expected an unmatched string, found {:?}", other),
            }
        }
        Ok(t) => panic!("expected an error, found {:?}", t),
    }
}

#[test]
fn quote_as_last_byte_is_incomplete_token() {
    let out = collect(b"1 '");
    assert_eq!(out[0], Ok(TokenKind::Integer(1)));
    match &out[1] {
        Err(e) => {
            assert_eq!(e.pos, 2);
            assert_eq!(e.message, Some(ErrorMessage::UnterminatedStringAtEnd));
            assert!(matches!(
                e.kind,
                ScannerErrorKind::IncompleteToken { token: Some(TokenKind::Str(_)) }
            ));
        }
        Ok(t) => panic!("expected an error, found {:?}", t),
    }
}

#[test]
fn line_comment_at_end_of_input_is_benign() {
    assert_eq!(collect(b"// tail comment"), vec![]);
}

#[test]
fn tiny_block_comments_are_benign() {
    assert_eq!(collect(b"/**/"), vec![]);
    assert_eq!(collect(b"/***/"), vec![]);
    assert_eq!(collect(b"/* * */"), vec![]);
    assert_eq!(kinds(b"/**/1"), vec![TokenKind::Integer(1)]);
}

#[test]
fn unterminated_block_comment_is_silently_accepted() {
    assert_eq!(collect(b"1 /* no close"), vec![Ok(TokenKind::Integer(1))]);
}

#[test]
fn block_comment_counts_lines() {
    let mut scanner = Scanner::new(b"/* a\nb\nc */ 7");
    assert_eq!(scanner.next(), Some(Ok(TokenKind::Integer(7))));
    assert_eq!(scanner.next(), None);
    assert_eq!(scanner.line, 3);
}

#[test]
fn string_with_newline_counts_lines() {
    let mut scanner = Scanner::new(b"\"a\nb\" 5");
    assert!(matches!(scanner.next(), Some(Ok(TokenKind::Str(_)))));
    assert_eq!(scanner.next(), Some(Ok(TokenKind::Integer(5))));
    assert_eq!(scanner.next(), None);
    assert_eq!(scanner.line, 2);
}

#[test]
fn line_counter_is_one_plus_newlines() {
    let src = b"1\n 2\n/*\n*/\n\"x\ny\"\n";
    let mut scanner = Scanner::new(src);
    while scanner.next().is_some() {}
    let newlines = src.iter().filter(|b| **b == b'\n').count();
    assert_eq!(scanner.line, 1 + newlines);
}

#[test]
fn radix_prefix_without_digits_is_incorrect_literal() {
    for src in [&b"0b"[..], &b"0x"[..], &b"0o"[..]] {
        let out = collect(src);
        assert_eq!(out.len(), 1, "input {:?}", src);
        match &out[0] {
            Err(e) => {
                assert_eq!(
                    e.kind,
                    ScannerErrorKind::IncorrectLiteral { parse_error: Some(LiteralError::Empty) }
                );
                assert_eq!(e.pos, 0);
            }
            Ok(t) => panic!("expected an error, found {:?}", t),
        }
    }
}

#[test]
fn integer_overflow_is_incorrect_literal() {
    let out = collect(b"99999999999999999999");
    match &out[0] {
        Err(e) => {
            assert_eq!(
                e.kind,
                ScannerErrorKind::IncorrectLiteral { parse_error: Some(LiteralError::Overflow) }
            );
            assert_eq!(e.message, Some(ErrorMessage::IntegerParseFailed(NumericBase::Decimal)));
        }
        Ok(t) => panic!("expected an error, found {:?}", t),
    }
    // The largest value still fits.
    assert_eq!(kinds(b"9223372036854775807"), vec![TokenKind::Integer(i64::MAX)]);
}

#[test]
fn digit_outside_radix_is_incorrect_literal() {
    let out = collect(b"0b102");
    match &out[0] {
        Err(e) => {
            assert_eq!(
                e.kind,
                ScannerErrorKind::IncorrectLiteral {
                    parse_error: Some(LiteralError::InvalidDigit)
                }
            );
            assert_eq!(e.message, Some(ErrorMessage::IntegerParseFailed(NumericBase::Binary)));
        }
        Ok(t) => panic!("expected an error, found {:?}", t),
    }
    assert!(matches!(collect(b"0z")[0], Err(_)));
}

#[test]
fn float_with_radix_prefix_is_incorrect_literal() {
    let out = collect(b"0b1010.5");
    assert_eq!(out.len(), 1);
    match &out[0] {
        Err(e) => {
            assert_eq!(e.kind, ScannerErrorKind::IncorrectLiteral { parse_error: None });
            assert_eq!(
                e.message,
                Some(ErrorMessage::FloatWithRadixPrefix(NumericBase::Binary))
            );
            assert_eq!(e.context, Some(Span { start: 0, end: 8 }));
        }
        Ok(t) => panic!("expected an error, found {:?}", t),
    }
}

#[test]
fn well_formed_floats_scan_as_float_spans() {
    let src = b"1.5 0.25e3 7. 2.E4";
    let toks = kinds(src);
    assert_eq!(toks.len(), 4);
    let expected: [&[u8]; 4] = [b"1.5", b"0.25e3", b"7.", b"2.E4"];
    for (tok, want) in toks.iter().zip(expected.iter()) {
        match tok {
            TokenKind::Float(sp) => assert_eq!(span_slice(src, *sp), *want),
            other => panic!("expected a float token, found {:?}", other),
        }
    }
}

#[test]
fn malformed_floats_are_incorrect_literals() {
    for src in [&b"0.1.1"[..], &b"1.2e"[..], &b"1x2.3"[..], &b"1.2e3f"[..]] {
        let out = collect(src);
        assert_eq!(out.len(), 1, "input {:?}", src);
        match &out[0] {
            Err(e) => {
                assert_eq!(
                    e.kind,
                    ScannerErrorKind::IncorrectLiteral {
                        parse_error: Some(LiteralError::MalformedFloat)
                    }
                );
                assert_eq!(e.message, Some(ErrorMessage::FloatParseFailed));
            }
            Ok(t) => panic!("expected an error, found {:?}", t),
        }
    }
}

#[test]
fn error_resumes_at_next_token() {
    let out = collect(b"0b 1");
    assert_eq!(out.len(), 2);
    assert!(out[0].is_err());
    assert_eq!(out[1], Ok(TokenKind::Integer(1)));
}

#[test]
fn identifiers_run_to_whitespace() {
    // The identifier fallback stops only at whitespace, so punctuation
    // within a run stays part of the identifier.
    let src = b"a+b cd";
    assert_eq!(
        kinds(src),
        vec![
            TokenKind::Ident(Span { start: 0, end: 3 }),
            TokenKind::Ident(Span { start: 4, end: 6 }),
        ]
    );
    assert_eq!(span_slice(src, Span { start: 0, end: 3 }), b"a+b");
}

#[test]
fn payload_spans_lie_inside_the_source() {
    let src = b"alpha \"s\" 1.5 42";
    for item in collect(src) {
        let span = match item.expect("no errors expected") {
            TokenKind::Ident(sp) | TokenKind::Str(sp) | TokenKind::Float(sp) => Some(sp),
            _ => None,
        };
        if let Some(sp) = span {
            assert!(sp.start <= sp.end && sp.end <= src.len());
        }
    }
}

#[test]
fn tokens_contain_no_whitespace_outside_strings() {
    let src = b"  ab cd\t12 3.5\n() ";
    let mut scanner = Scanner::new(src);
    loop {
        let before = scanner.pos;
        let Some(item) = scanner.next() else { break };
        let after = scanner.pos;
        if let Ok(tok) = item {
            if !matches!(tok, TokenKind::Str(_)) {
                // No byte of the token's extent is whitespace; the extent
                // ends where the cursor stopped.
                let extent = &src[before..after];
                let token_bytes: Vec<u8> = extent
                    .iter()
                    .copied()
                    .skip_while(|b| b.is_ascii_whitespace())
                    .collect();
                assert!(token_bytes.iter().all(|b| !b.is_ascii_whitespace()));
            }
        }
    }
}

#[test]
fn progress_on_every_call() {
    let src = b"ab 0b 0.1.1 \"x 'y /* z";
    let mut scanner = Scanner::new(src);
    let mut guard = 0usize;
    loop {
        let before = scanner.pos;
        match scanner.next() {
            Some(_) => assert!(scanner.pos > before, "no progress at {}", before),
            None => {
                assert_eq!(scanner.pos, src.len());
                break;
            }
        }
        guard += 1;
        assert!(guard <= src.len(), "too many calls for the input length");
    }
}

#[test]
fn comment_opener_needs_its_own_terminator() {
    // In `/*/` the opener's star does not double as the closer's: the
    // comment runs unterminated to the end of the input.
    assert_eq!(collect(b"/*/"), vec![]);
    assert_eq!(collect(b"/*/ x"), vec![]);
    assert_eq!(kinds(b"/*/*/ x"), vec![TokenKind::Ident(Span { start: 6, end: 7 })]);
}

#[test]
fn comment_ends_a_numeric_run_but_not_an_identifier() {
    assert_eq!(kinds(b"1//b"), vec![TokenKind::Integer(1)]);
    // The identifier fallback runs to whitespace, so the slashes stay in.
    assert_eq!(kinds(b"a//b"), vec![TokenKind::Ident(Span { start: 0, end: 4 })]);
}

#[test]
fn single_quoted_strings() {
    let src = b"'a\"b'";
    let toks = kinds(src);
    assert_eq!(toks.len(), 1);
    match toks[0] {
        TokenKind::Str(sp) => assert_eq!(span_slice(src, sp), b"a\"b"),
        ref other => panic!("expected a string token, found {:?}", other),
    }
}
