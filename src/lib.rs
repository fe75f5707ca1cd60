//! A byte-oriented scanner for a small C-like scripting language.
//!
//! [`Lexer`] turns an input buffer into [`Token`]s one at a time; every
//! public operation is specified against the mathematical model in
//! [`model`], and the general laws of the scanner are proved in
//! [`theorems`].
pub mod ascii;
pub mod model;
pub mod lexer;
pub mod parser;
pub mod theorems;
pub mod token;

pub use token::Token;
pub use lexer::Lexer;
pub use parser::Parser;
