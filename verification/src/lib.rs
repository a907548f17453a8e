//! A lexical scanner for a small C-like scripting language.
//!
//! [`Tokenizer`] turns a source text into the ordered sequence of [`Token`]s
//! that a parser consumes, closed by [`Token::Eof`], or into the first
//! [`ScanError`] that the text holds. The scan is a single pass from left to
//! right; it looks no further ahead than the end of the token it is reading.
//!
//! ```
//! use loxide::{ErrorKind, Token, Tokenizer};
//!
//! let tokens = Tokenizer::new("print 1 + 2; // sum").tokenize().unwrap();
//! assert_eq!(
//!     tokens,
//!     vec![
//!         Token::Print,
//!         Token::Number("1"),
//!         Token::Plus,
//!         Token::Number("2"),
//!         Token::Semicolon,
//!         Token::Eof,
//!     ]
//! );
//!
//! let error = Tokenizer::new("\n\"open").tokenize().unwrap_err();
//! assert_eq!(error.kind, ErrorKind::UnterminatedString);
//! assert_eq!(error.line, 1);
//! ```
//!
//! # What is proved
//!
//! The module [`grammar`] defines, as a mathematical function on sequences
//! of characters, what a scan yields: [`grammar::scan`]. Every executable
//! function of this crate is verified against it, free of panics and of
//! arithmetic overflow. In particular [`Tokenizer::tokenize`] returns exactly
//! the tokens of [`grammar::scan`], or an error of the kind and on the line
//! that [`grammar::scan`] fixes. The module [`laws`] proves properties of
//! the grammar that hold of every text.
//!
//! # Layout
//!
//! * [`token`], [`error`]: what a scan returns.
//! * [`grammar`], [`laws`]: what a scan means.
//! * [`scanner`]: the scan, as a whole and step by step.
//! * [`source`], [`text`], [`classify`]: reading the text.

pub mod classify;
pub mod error;
pub mod grammar;
pub mod laws;
pub mod scanner;
pub mod source;
pub mod text;
pub mod token;

pub use error::{ErrorKind, ScanError};
pub use scanner::Tokenizer;
pub use token::{SpecToken, Token};
