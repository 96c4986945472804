//! Kami: a compiler from a light, line-oriented markup to HTML.
//!
//! Text is held as `Vec<char>`; every contract is stated over `Seq<char>` and
//! over [`token::TokenView`], the mathematical view of a token tree.

pub mod laws;
pub mod lexer;
pub mod multiline_lexer;
pub mod syntax;
pub mod text;
pub mod token;
