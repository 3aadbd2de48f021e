use azura::error::ScannerErrorKind;
use azura::keywords::{Keyword, KeywordTable};
use azura::scanner::{span_slice, Scanner};
use azura::tokens::{Span, TokenKind};

fn keyword_kinds(src: &[u8], table: KeywordTable) -> Vec<TokenKind> {
    let mut scanner = Scanner::new(src).with_keywords(table);
    let mut out = Vec::new();
    while let Some(item) = scanner.next() {
        out.push(item.expect("expected a token, found an error"));
    }
    out
}

#[test]
fn default_table_lookups() {
    let table = KeywordTable::default_keywords();
    assert_eq!(table.get(b"class"), Some(Keyword::Class));
    assert_eq!(table.get(b"switch"), Some(Keyword::Switch));
    assert_eq!(table.get(b"case"), Some(Keyword::Case));
    assert_eq!(table.get(b"other"), None);
    assert_eq!(table.get(b""), None);
    assert_eq!(table.get(b"clas"), None);
    assert_eq!(table.get(b"classs"), None);
}

#[test]
fn first_matching_row_wins() {
    let mut table = KeywordTable::new();
    table.push(b"x".to_vec(), Keyword::Class);
    table.push(b"x".to_vec(), Keyword::Case);
    assert_eq!(table.get(b"x"), Some(Keyword::Class));
}

#[test]
fn keywords_overlaid_on_identifiers() {
    let src = b"switch x { case 1 }";
    let toks = keyword_kinds(src, KeywordTable::default_keywords());
    assert_eq!(toks.len(), 6);
    assert_eq!(toks[0], TokenKind::Keyword(Keyword::Switch));
    match toks[1] {
        TokenKind::Ident(sp) => assert_eq!(span_slice(src, sp), b"x"),
        ref other => panic!("expected an identifier, found {:?}", other),
    }
    assert_eq!(toks[2], TokenKind::OBrace);
    assert_eq!(toks[3], TokenKind::Keyword(Keyword::Case));
    assert_eq!(toks[4], TokenKind::Integer(1));
    assert_eq!(toks[5], TokenKind::CBrace);
}

#[test]
fn overlay_passes_errors_and_other_tokens_through() {
    let src = b"class + 0b \"s\"";
    let mut scanner = Scanner::new(src).with_keywords(KeywordTable::default_keywords());
    assert_eq!(scanner.next(), Some(Ok(TokenKind::Keyword(Keyword::Class))));
    assert_eq!(scanner.next(), Some(Ok(TokenKind::Add)));
    match scanner.next() {
        Some(Err(e)) => {
            assert!(matches!(e.kind, ScannerErrorKind::IncorrectLiteral { .. }));
        }
        other => panic!("expected an error, found {:?}", other),
    }
    assert_eq!(scanner.next(), Some(Ok(TokenKind::Str(Span { start: 12, end: 13 }))));
    assert_eq!(scanner.next(), None);
}

#[test]
fn overlay_preserves_stream_length() {
    let src = b"switch 0x case // c\n}";
    let plain: usize = {
        let mut scanner = Scanner::new(src);
        let mut n = 0usize;
        while scanner.next().is_some() {
            n += 1;
        }
        n
    };
    let overlaid = {
        let mut scanner = Scanner::new(src).with_keywords(KeywordTable::default_keywords());
        let mut n = 0usize;
        while scanner.next().is_some() {
            n += 1;
        }
        n
    };
    assert_eq!(plain, overlaid);
}

#[test]
fn overlay_leaves_no_table_identifier_behind() {
    // A second pass with the same table would change nothing: every token
    // that is still an identifier misses the table, and keyword tokens are
    // not identifiers.
    let src = b"class switch case other cases";
    let table = KeywordTable::default_keywords();
    let toks = keyword_kinds(src, KeywordTable::default_keywords());
    assert_eq!(toks.len(), 5);
    for tok in &toks {
        if let TokenKind::Ident(sp) = tok {
            assert_eq!(table.get(span_slice(src, *sp)), None);
        }
    }
    assert_eq!(toks[0], TokenKind::Keyword(Keyword::Class));
    assert_eq!(toks[1], TokenKind::Keyword(Keyword::Switch));
    assert_eq!(toks[2], TokenKind::Keyword(Keyword::Case));
    assert!(matches!(toks[3], TokenKind::Ident(_)));
    assert!(matches!(toks[4], TokenKind::Ident(_)));
}

#[test]
fn empty_table_changes_nothing() {
    let src = b"class switch case";
    let toks = keyword_kinds(src, KeywordTable::new());
    assert_eq!(toks.len(), 3);
    for tok in &toks {
        assert!(matches!(tok, TokenKind::Ident(_)));
    }
}
