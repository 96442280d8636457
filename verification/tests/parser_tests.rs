use chlex::lexer::TokenTree;
use chlex::lexer::tokens::{Keyword, Symbol, Token};
use chlex::parser::bindings::{Binding, BindingModifier, parse_args};
use chlex::parser::{Ast, ParseErr};

#[test]
fn args() {
    let tt = TokenTree::new(vec![
        Token::Keyword(Keyword::Const),
        Token::Ident("hello".into()),
        Token::Symbol(Symbol::Colon),
        Token::Ident("String".into()),
        Token::Symbol(Symbol::Comma),
        Token::Ident("world".into()),
        Token::Symbol(Symbol::Colon),
        Token::Ident("i32".into()),
        Token::Symbol(Symbol::Comma),
    ]);

    assert_eq!(
        parse_args(tt),
        Ok(vec![
            Binding {
                name: "hello".into(),
                modifier: Some(BindingModifier::Const),
                typ: Some("String".into())
            },
            Binding { name: "world".into(), modifier: None, typ: Some("i32".into()) },
        ])
    )
}

#[test]
fn binding_with_var_modifier() {
    let mut tt = TokenTree::new(vec![
        Token::Keyword(Keyword::Var),
        Token::Ident("x".into()),
        Token::Symbol(Symbol::Colon),
        Token::Ident("u8".into()),
    ]);

    assert_eq!(
        Binding::parse(&mut tt),
        Ok(Binding {
            name: "x".into(),
            modifier: Some(BindingModifier::Var),
            typ: Some("u8".into())
        })
    );
    assert!(tt.is_empty());
}

#[test]
fn binding_without_type() {
    let mut tt = TokenTree::new(vec![Token::Ident("plain".into())]);

    assert_eq!(
        Binding::parse(&mut tt),
        Ok(Binding { name: "plain".into(), modifier: None, typ: None })
    );
}

#[test]
fn binding_rejects_bad_start() {
    let mut tt = TokenTree::new(vec![Token::Symbol(Symbol::Comma)]);

    assert_eq!(Binding::parse(&mut tt), Err(ParseErr::UnknownErr));
}

#[test]
fn queue_front_access() {
    let mut tt = TokenTree::new(vec![
        Token::Ident("a".into()),
        Token::Ident("b".into()),
    ]);

    assert_eq!(tt.first(), Some(&Token::Ident("a".into())));
    assert_eq!(tt.pop(), Some(Token::Ident("a".into())));
    assert_eq!(tt.pop(), Some(Token::Ident("b".into())));
    assert_eq!(tt.pop(), None);
    assert!(tt.is_empty());
}

#[test]
fn ast_parse_is_unfinished() {
    let tt = "x".parse::<TokenTree>().unwrap();

    assert_eq!(Ast::parse(tt), Err(ParseErr::UnknownErr));
}
