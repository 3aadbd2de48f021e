//! A lexical scanner for a small imperative language.
//!
//! The scanner walks a byte buffer and produces one token per call:
//! punctuation, operators with their compound-assignment companions,
//! string literals, radix-prefixed integer literals, float literals,
//! and identifiers, with exact line and position bookkeeping.
//! A keyword overlay reclassifies identifiers through a lookup table.

pub mod error;
pub mod keywords;
pub mod laws;
pub mod model;
pub mod scanner;
pub mod tokens;

pub use error::ScannerError;
pub use error::ScannerErrorKind;
pub use keywords::Keyword;
pub use keywords::KeywordTable;
pub use keywords::ScannerWithKeywords;
pub use scanner::Scanner;
pub use tokens::Span;
pub use tokens::TokenKind;
