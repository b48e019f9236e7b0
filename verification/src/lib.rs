//! A small expression calculator: a tokenizer for one-line arithmetic and
//! logical expressions, an infix-to-postfix converter (shunting-yard), and a
//! stack evaluator over a tagged fixed-point numeric value.
//!
//! The crate also carries a few standalone helpers: an edit-distance based
//! word suggester, a source-location tracker, and an exploratory lexer for a
//! statement-level language that is not wired into the evaluator.

pub mod error;
pub mod laws;
pub mod lev;
pub mod lexer;
pub mod location;
pub mod parser;
pub mod tok;
pub mod util;
pub mod value;

pub use error::Error;
pub use lev::{lev, suggest_word};
pub use lexer::Lexer;
