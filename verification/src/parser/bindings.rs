//! Name/modifier/type bindings read from the front of a token tree.

use vstd::prelude::*;

use crate::lexer::TokenTree;
use crate::lexer::tokens::{Keyword, Symbol, Token, TokenV};
use crate::parser::ParseErr;

verus! {

/// A modifier in front of a binding.
#[derive(Clone, PartialEq, Eq, Structural, Debug)]
pub enum BindingModifier {
    Const,
    Var,
}

/// A single binding: a name, an optional modifier, and an optional type.
#[derive(Clone, PartialEq, Debug)]
pub struct Binding {
    pub name: String,
    pub modifier: Option<BindingModifier>,
    pub typ: Option<String>,
}

/// The mathematical value of a `Binding`: texts become character sequences.
pub struct BindingV {
    pub name: Seq<char>,
    pub modifier: Option<BindingModifier>,
    pub typ: Option<Seq<char>>,
}

impl View for Binding {
    type V = BindingV;

    open spec fn view(&self) -> BindingV {
        BindingV {
            name: self.name@,
            modifier: self.modifier,
            typ: match self.typ {
                Some(t) => Some(t@),
                None => None,
            },
        }
    }
}

/// After the name: an optional `: Type` annotation finishes the binding.
pub open spec fn spec_parse_typed(
    s: Seq<TokenV>,
    nm: Seq<char>,
    m: Option<BindingModifier>,
) -> (Result<BindingV, ParseErr>, Seq<TokenV>) {
    if s.len() > 0 && s[0] == TokenV::Symbol(Symbol::Colon) {
        let r2 = s.drop_first();
        if r2.len() == 0 {
            (Err(ParseErr::UnknownErr), r2)
        } else {
            match r2[0] {
                TokenV::Ident(ty) => (
                    Ok(BindingV { name: nm, modifier: m, typ: Some(ty) }),
                    r2.drop_first(),
                ),
                _ => (Err(ParseErr::UnknownErr), r2.drop_first()),
            }
        }
    } else {
        (Ok(BindingV { name: nm, modifier: m, typ: None }), s)
    }
}

/// After a modifier: the next token must be the binding's name.
pub open spec fn spec_parse_named(s: Seq<TokenV>, m: Option<BindingModifier>) -> (Result<
    BindingV,
    ParseErr,
>, Seq<TokenV>) {
    if s.len() == 0 {
        (Err(ParseErr::UnknownErr), s)
    } else {
        match s[0] {
            TokenV::Ident(nm) => spec_parse_typed(s.drop_first(), nm, m),
            _ => (Err(ParseErr::UnknownErr), s.drop_first()),
        }
    }
}

/// What reading one binding from the front of a token sequence yields, and
/// the tokens left after it.  A binding is an optional `const`/`var`
/// modifier, then a name, then an optional `: Type` annotation; anything else
/// is an error, with everything read so far consumed.
pub open spec fn spec_parse_binding(s: Seq<TokenV>) -> (Result<BindingV, ParseErr>, Seq<TokenV>) {
    if s.len() == 0 {
        (Err(ParseErr::UnknownErr), s)
    } else {
        let rest = s.drop_first();
        match s[0] {
            TokenV::Keyword(Keyword::Const) => spec_parse_named(
                rest,
                Some(BindingModifier::Const),
            ),
            TokenV::Keyword(Keyword::Var) => spec_parse_named(rest, Some(BindingModifier::Var)),
            TokenV::Ident(nm) => spec_parse_typed(rest, nm, None),
            _ => (Err(ParseErr::UnknownErr), rest),
        }
    }
}

/// Reading a binding consumes at least one token.
pub proof fn lemma_parse_binding_consumes(s: Seq<TokenV>)
    requires
        s.len() > 0,
    ensures
        spec_parse_binding(s).1.len() < s.len(),
{
}

/// What reading a comma-separated list of bindings from a whole token
/// sequence yields: bindings are read until the sequence is exhausted or the
/// token after a binding is not a comma; an ill-formed binding is an error.
pub open spec fn spec_parse_args(s: Seq<TokenV>) -> Result<Seq<BindingV>, ParseErr>
    decreases s.len(),
    when s.len() >= 0
    via spec_parse_args_decreases
{
    if s.len() == 0 {
        Ok(seq![])
    } else {
        let (res, rest) = spec_parse_binding(s);
        match res {
            Err(e) => Err(e),
            Ok(b) => if rest.len() == 0 {
                Ok(seq![b])
            } else if rest[0] == TokenV::Symbol(Symbol::Comma) {
                match spec_parse_args(rest.drop_first()) {
                    Err(e) => Err(e),
                    Ok(bs) => Ok(seq![b] + bs),
                }
            } else {
                Ok(seq![b])
            },
        }
    }
}

#[via_fn]
proof fn spec_parse_args_decreases(s: Seq<TokenV>) {
    if s.len() > 0 {
        lemma_parse_binding_consumes(s);
    }
}

impl Binding {
    /// Reads one binding from the front of the token tree, consuming the
    /// tokens it is made of.
    pub fn parse(tt: &mut TokenTree) -> (r: Result<Binding, ParseErr>)
        ensures
            ({
                let (res, rest) = spec_parse_binding(old(tt)@);
                &&& final(tt)@ == rest
                &&& match (r, res) {
                    (Ok(b), Ok(bv)) => b@ == bv,
                    (Err(e), Err(ev)) => e == ev,
                    _ => false,
                }
            }),
    {
        let first = match tt.pop() {
            Some(t) => t,
            None => {
                return Err(ParseErr::UnknownErr);
            },
        };
        let (name, modifier) = match first {
            Token::Keyword(Keyword::Const) => {
                let m = Some(BindingModifier::Const);
                match tt.pop() {
                    Some(Token::Ident(nm)) => (nm, m),
                    _ => {
                        return Err(ParseErr::UnknownErr);
                    },
                }
            },
            Token::Keyword(Keyword::Var) => {
                let m = Some(BindingModifier::Var);
                match tt.pop() {
                    Some(Token::Ident(nm)) => (nm, m),
                    _ => {
                        return Err(ParseErr::UnknownErr);
                    },
                }
            },
            Token::Ident(nm) => (nm, None),
            _ => {
                return Err(ParseErr::UnknownErr);
            },
        };
        let has_colon = match tt.first() {
            Some(Token::Symbol(Symbol::Colon)) => true,
            _ => false,
        };
        let typ = if has_colon {
            let _colon = tt.pop();
            match tt.pop() {
                Some(Token::Ident(ty)) => Some(ty),
                _ => {
                    return Err(ParseErr::UnknownErr);
                },
            }
        } else {
            None
        };
        Ok(Binding { name, modifier, typ })
    }
}

/// The views of a sequence of bindings.
pub open spec fn bindings_view(s: Seq<Binding>) -> Seq<BindingV> {
    s.map_values(|b: Binding| b@)
}

/// Reads a whole comma-separated list of bindings (struct fields, function
/// arguments) out of a token tree.
pub fn parse_args(tt: TokenTree) -> (r: Result<Vec<Binding>, ParseErr>)
    ensures
        match r {
            Ok(args) => spec_parse_args(tt@) == Ok::<Seq<BindingV>, ParseErr>(bindings_view(
                args@,
            )),
            Err(e) => spec_parse_args(tt@) == Err::<Seq<BindingV>, ParseErr>(e),
        },
{
    let ghost v0 = tt@;
    let mut rem = tt;
    let mut args: Vec<Binding> = Vec::new();
    let mut failure: Option<ParseErr> = None;
    loop
        invariant_except_break
            failure is None,
            spec_parse_args(v0) == (match spec_parse_args(rem@) {
                Ok(bs) => Ok::<Seq<BindingV>, ParseErr>(bindings_view(args@) + bs),
                Err(e) => Err::<Seq<BindingV>, ParseErr>(e),
            }),
        ensures
            match failure {
                None => spec_parse_args(v0) == Ok::<Seq<BindingV>, ParseErr>(bindings_view(args@)),
                Some(e) => spec_parse_args(v0) == Err::<Seq<BindingV>, ParseErr>(e),
            },
        decreases rem@.len(),
    {
        if rem.is_empty() {
            proof {
                assert(bindings_view(args@) + seq![] =~= bindings_view(args@));
            }
            break ;
        }
        let ghost before = rem@;
        let b = match Binding::parse(&mut rem) {
            Ok(b) => b,
            Err(e) => {
                failure = Some(e);
                break ;
            },
        };
        proof {
            lemma_parse_binding_consumes(before);
        }
        let ghost bview = b@;
        let ghost oldargs = args@;
        args.push(b);
        proof {
            assert(bindings_view(args@) =~= bindings_view(oldargs).push(bview));
        }
        match rem.pop() {
            Some(t) => {
                let is_comma = match &t {
                    Token::Symbol(Symbol::Comma) => true,
                    _ => false,
                };
                if is_comma {
                    proof {
                        if spec_parse_args(rem@) is Ok {
                            let bs = spec_parse_args(rem@)->Ok_0;
                            assert(bindings_view(oldargs) + (seq![bview] + bs) =~= bindings_view(
                                args@,
                            ) + bs);
                        }
                    }
                } else {
                    proof {
                        assert(t@ != TokenV::Symbol(Symbol::Comma));
                        assert(bindings_view(oldargs) + seq![bview] =~= bindings_view(args@));
                    }
                    break ;
                }
            },
            None => {
                proof {
                    assert(bindings_view(oldargs) + seq![bview] =~= bindings_view(args@));
                }
                break ;
            },
        }
    }
    match failure {
        Some(e) => Err(e),
        None => Ok(args),
    }
}

} // verus!
