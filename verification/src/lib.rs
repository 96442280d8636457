//! A tokenizer for a small programming language.
//!
//! Source text is scanned into a tree of lexical tokens: keywords, operators,
//! literals, identifiers, and delimited blocks whose contents are themselves
//! token trees.  The scan is specified functionally over the sequence of
//! characters of the input, and the executable tokenizer is proved to return
//! exactly what the specification says.

pub mod lexer;
pub mod parser;
