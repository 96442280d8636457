//! The parser skeleton that consumes a token tree.

use vstd::prelude::*;

pub mod bindings;

verus! {

/// An error produced while parsing a token tree.
#[derive(Clone, PartialEq, Debug)]
pub enum ParseErr {
    UnknownErr,
}

/// The abstract syntax tree; parsing it is not implemented yet.
#[derive(Clone, PartialEq, Debug)]
pub struct Ast;

impl Ast {
    /// Parsing a whole token tree is not implemented yet, so every input is
    /// rejected.
    pub fn parse(tt: crate::lexer::TokenTree) -> (r: Result<Ast, ParseErr>)
        ensures
            r == Err::<Ast, ParseErr>(ParseErr::UnknownErr),
    {
        let _ = tt;
        Err(ParseErr::UnknownErr)
    }
}

} // verus!
