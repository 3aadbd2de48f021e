//! The keyword overlay: a lookup table from identifier bytes to keywords,
//! and a decorator over the scanner that reclassifies identifier tokens
//! through it, leaving every other token and every error untouched.

use vstd::prelude::*;
pub use crate::tokens::Keyword;
use crate::tokens::{Span, TokenKind};
use crate::error::ScannerError;
use crate::scanner::Scanner;
use crate::model::{
    lemma_skip_trivia_bounds, lemma_token_payload_in_source, next_cursor, next_result, skip_trivia,
};

verus! {

/// First match wins: the keyword of the first row whose word equals `key`.
pub open spec fn table_lookup(rows: Seq<(Seq<u8>, Keyword)>, key: Seq<u8>) -> Option<Keyword>
    decreases rows.len(),
{
    if rows.len() == 0 {
        None
    } else if rows[0].0 == key {
        Some(rows[0].1)
    } else {
        table_lookup(rows.drop_first(), key)
    }
}

/// The identifier bytes of the three built-in keywords.
pub open spec fn kw_class_bytes() -> Seq<u8> {
    seq![99u8, 108u8, 97u8, 115u8, 115u8]
}

pub open spec fn kw_switch_bytes() -> Seq<u8> {
    seq![115u8, 119u8, 105u8, 116u8, 99u8, 104u8]
}

pub open spec fn kw_case_bytes() -> Seq<u8> {
    seq![99u8, 97u8, 115u8, 101u8]
}

/// A keyword table: rows of identifier bytes and the keyword each maps to.
/// Lookup takes the first matching row.
pub struct KeywordTable {
    pub entries: Vec<(Vec<u8>, Keyword)>,
}

/// Equality of a row's word with a candidate key, byte for byte.
fn bytes_eq(a: &Vec<u8>, b: &[u8]) -> (r: bool)
    ensures
        r == (a@ == b@),
{
    if a.len() != b.len() {
        proof {
            assert(a@ != b@);
        }
        return false;
    }
    let n = a.len();
    let mut i: usize = 0;
    while i < n && a[i] == b[i]
        invariant
            n == a@.len() == b@.len(),
            i <= n,
            forall|j: int| 0 <= j < i ==> a@[j] == b@[j],
        decreases n - i,
    {
        i = i + 1;
    }
    if i == n {
        proof {
            assert(a@ =~= b@);
        }
        true
    } else {
        proof {
            assert(a@[i as int] != b@[i as int]);
        }
        false
    }
}

impl KeywordTable {
    /// The table's rows as mathematical sequences.
    pub open spec fn rows(self) -> Seq<(Seq<u8>, Keyword)> {
        self.entries@.map_values(|e: (Vec<u8>, Keyword)| (e.0@, e.1))
    }

    /// What this table maps `key` to, if anything.
    pub open spec fn spec_lookup(self, key: Seq<u8>) -> Option<Keyword> {
        table_lookup(self.rows(), key)
    }

    /// An empty table: every lookup misses.
    pub fn new() -> (r: KeywordTable)
        ensures
            r.rows().len() == 0,
    {
        KeywordTable { entries: Vec::new() }
    }

    /// Append a row mapping `word` to `kw`; earlier rows keep priority.
    pub fn push(&mut self, word: Vec<u8>, kw: Keyword)
        ensures
            final(self).rows() == old(self).rows().push((word@, kw)),
    {
        let ghost before = self.rows();
        self.entries.push((word, kw));
        proof {
            assert(self.rows() =~= before.push((word@, kw)));
        }
    }

    /// The built-in table: `class`, `switch` and `case`.
    pub fn default_keywords() -> (r: KeywordTable)
        ensures
            r.rows() =~= seq![
                (kw_class_bytes(), Keyword::Class),
                (kw_switch_bytes(), Keyword::Switch),
                (kw_case_bytes(), Keyword::Case),
            ],
    {
        let mut t = KeywordTable::new();
        let mut w: Vec<u8> = Vec::new();
        w.push(99);
        w.push(108);
        w.push(97);
        w.push(115);
        w.push(115);
        proof {
            assert(w@ =~= kw_class_bytes());
        }
        t.push(w, Keyword::Class);
        let mut w: Vec<u8> = Vec::new();
        w.push(115);
        w.push(119);
        w.push(105);
        w.push(116);
        w.push(99);
        w.push(104);
        proof {
            assert(w@ =~= kw_switch_bytes());
        }
        t.push(w, Keyword::Switch);
        let mut w: Vec<u8> = Vec::new();
        w.push(99);
        w.push(97);
        w.push(115);
        w.push(101);
        proof {
            assert(w@ =~= kw_case_bytes());
        }
        t.push(w, Keyword::Case);
        proof {
            assert(t.rows() =~= seq![
                (kw_class_bytes(), Keyword::Class),
                (kw_switch_bytes(), Keyword::Switch),
                (kw_case_bytes(), Keyword::Case),
            ]);
        }
        t
    }

    /// Look a key up: the keyword of the first row whose word equals it.
    pub fn get(&self, key: &[u8]) -> (r: Option<Keyword>)
        ensures
            r == self.spec_lookup(key@),
    {
        let n = self.entries.len();
        let mut i: usize = 0;
        proof {
            assert(self.rows().skip(0) =~= self.rows());
        }
        loop
            invariant
                i <= n,
                n == self.entries@.len(),
                table_lookup(self.rows(), key@) == table_lookup(self.rows().skip(i as int), key@),
            ensures
                table_lookup(self.rows(), key@) == table_lookup(self.rows().skip(i as int), key@),
                i < n ==> self.rows()[i as int].0 == key@ && table_lookup(self.rows(), key@)
                    == Some(self.rows()[i as int].1),
                i >= n ==> table_lookup(self.rows(), key@) is None,
            decreases n - i,
        {
            if i >= n {
                proof {
                    assert(self.rows().skip(i as int).len() == 0);
                }
                break;
            }
            proof {
                assert(self.rows().skip(i as int)[0] == self.rows()[i as int]);
            }
            if bytes_eq(&self.entries[i].0, key) {
                proof {
                    assert(self.rows()[i as int].0 == key@);
                }
                break;
            }
            proof {
                assert(self.rows().skip(i as int).drop_first() =~= self.rows().skip(i as int + 1));
            }
            i = i + 1;
        }
        if i < n {
            Some(self.entries[i].1)
        } else {
            None
        }
    }
}

/// What the overlay makes of one token: an identifier found in the table
/// becomes that keyword; everything else passes through unchanged.
pub open spec fn overlay_token(s: Seq<u8>, rows: Seq<(Seq<u8>, Keyword)>, t: TokenKind) -> TokenKind {
    match t {
        TokenKind::Ident(sp) => match table_lookup(
            rows,
            s.subrange(sp.start as int, sp.end as int),
        ) {
            Some(kw) => TokenKind::Keyword(kw),
            None => t,
        },
        _ => t,
    }
}

/// What the overlay makes of one scanner result: errors and end-of-input
/// pass through unchanged.
pub open spec fn overlay_result(
    s: Seq<u8>,
    rows: Seq<(Seq<u8>, Keyword)>,
    r: Option<Result<TokenKind, ScannerError>>,
) -> Option<Result<TokenKind, ScannerError>> {
    match r {
        Some(Ok(t)) => Some(Ok(overlay_token(s, rows, t))),
        _ => r,
    }
}

/// A scanner wrapped with a keyword table.
pub struct ScannerWithKeywords<'a> {
    pub scanner: Scanner<'a>,
    pub keywords: KeywordTable,
}

impl<'a> Scanner<'a> {
    /// Wrap this scanner with a keyword table.
    pub fn with_keywords(self, keywords: KeywordTable) -> (r: ScannerWithKeywords<'a>)
        ensures
            r.scanner == self,
            r.keywords == keywords,
    {
        ScannerWithKeywords { scanner: self, keywords }
    }
}

impl<'a> ScannerWithKeywords<'a> {
    pub open spec fn wf(self) -> bool {
        self.scanner.wf()
    }

    /// The next token with keywords overlaid: exactly what the underlying
    /// scanner yields, except that an identifier the table knows comes back
    /// as its keyword.
    pub fn next(&mut self) -> (r: Option<Result<TokenKind, ScannerError>>)
        requires
            old(self).wf(),
        ensures
            final(self).wf(),
            final(self).keywords == old(self).keywords,
            final(self).scanner.source@ == old(self).scanner.source@,
            r == overlay_result(
                old(self).scanner.source@,
                old(self).keywords.rows(),
                next_result(old(self).scanner.source@, old(self).scanner.pos as int),
            ),
            final(self).scanner.pos as int == next_cursor(
                old(self).scanner.source@,
                old(self).scanner.pos as int,
            ),
            r is Some ==> old(self).scanner.pos < final(self).scanner.pos,
            r is None ==> final(self).scanner.pos == old(self).scanner.source@.len(),
    {
        let ghost sq = self.scanner.source@;
        let ghost pos0 = self.scanner.pos as int;
        let t = self.scanner.next();
        match t {
            Some(Ok(TokenKind::Ident(sp))) => {
                proof {
                    lemma_skip_trivia_bounds(sq, pos0);
                    lemma_token_payload_in_source(sq, skip_trivia(sq, pos0));
                }
                let src: &[u8] = self.scanner.source;
                let key: &[u8] = &src[sp.start..sp.end];
                match self.keywords.get(key) {
                    Some(kw) => Some(Ok(TokenKind::Keyword(kw))),
                    None => Some(Ok(TokenKind::Ident(sp))),
                }
            },
            other => other,
        }
    }
}

} // verus!
