//! A tokenizer for a small scripting language.
//!
//! The library turns raw source text into an ordered sequence of lexical
//! tokens: punctuation and operators (including the two-character operators
//! `==` and `!=`), keywords, identifiers, and integer literals. Scanning is a
//! single left-to-right pass with one character of lookahead; whitespace
//! separates tokens and never appears inside one.

pub mod lexer;
pub mod token;
