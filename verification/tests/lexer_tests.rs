use chlex::lexer::str_walker::StrWalker;
use chlex::lexer::tokens::{Delimiter, Keyword, Literal, Symbol, Token};
use chlex::lexer::{LexErr, TokenTree};

#[test]
fn blocks() {
    let tt = "{}[]()<>".parse::<TokenTree>();

    assert_eq!(
        tt,
        Ok(TokenTree(vec![
            Token::Block { delimiter: Delimiter::CurlyBraces, tokentree: TokenTree(vec![]) },
            Token::Block { delimiter: Delimiter::SquareBrackets, tokentree: TokenTree(vec![]) },
            Token::Block { delimiter: Delimiter::Parentheses, tokentree: TokenTree(vec![]) },
            Token::Block { delimiter: Delimiter::AngleBrackets, tokentree: TokenTree(vec![]) },
        ]))
    )
}

#[test]
fn comments() {
    let tt = "fun <# fun #>".parse::<TokenTree>();

    assert_eq!(tt, Ok(TokenTree(vec![Token::Keyword(Keyword::Fun)])))
}

#[test]
fn literals() {
    let tt = "123456 123.456 true \"Hello, World!\" \'a\'".parse::<TokenTree>();

    assert_eq!(
        tt,
        Ok(TokenTree(vec![
            Token::Literal(Literal::Int(123456)),
            Token::Literal(Literal::Float("123.456".to_string())),
            Token::Literal(Literal::Bool(true)),
            Token::Literal(Literal::String("Hello, World!".into())),
            Token::Literal(Literal::Char('a'))
        ]))
    )
}

#[test]
fn ident() {
    let tt = "ident".parse::<TokenTree>();

    assert_eq!(tt, Ok(TokenTree(vec![Token::Ident("ident".to_string())])))
}

#[test]
fn basic_fun() {
    let tt = "fun inner(param: String) => print(param)".parse::<TokenTree>();

    assert_eq!(
        tt,
        Ok(TokenTree(vec![
            Token::Keyword(Keyword::Fun),
            Token::Ident("inner".to_string()),
            Token::Block {
                delimiter: Delimiter::Parentheses,
                tokentree: TokenTree(vec![
                    Token::Ident("param".to_string()),
                    Token::Symbol(Symbol::Colon),
                    Token::Ident("String".to_string()),
                ])
            },
            Token::Symbol(Symbol::BigArrow),
            Token::Ident("print".to_string()),
            Token::Block {
                delimiter: Delimiter::Parentheses,
                tokentree: TokenTree(vec![Token::Ident("param".to_string())])
            },
        ]))
    )
}

#[test]
fn keyword_comment_scenario() {
    let tt = "funct <# funct #>".parse::<TokenTree>();

    assert_eq!(tt, Ok(TokenTree(vec![Token::Keyword(Keyword::Funct)])))
}

#[test]
fn unbalanced_comment() {
    let tt = "<# never closed".parse::<TokenTree>();

    assert_eq!(
        tt,
        Err(LexErr::UnbalancedNestingErr { start: "<#".to_string(), end: "#>".to_string() })
    )
}

#[test]
fn keyword_prefix_of_identifier() {
    let tt = "integer".parse::<TokenTree>();

    assert_eq!(tt, Ok(TokenTree(vec![Token::Ident("integer".to_string())])))
}

#[test]
fn boolean_prefix_of_identifier() {
    let tt = "trueish".parse::<TokenTree>();

    assert_eq!(tt, Ok(TokenTree(vec![Token::Ident("trueish".to_string())])))
}

#[test]
fn keyword_at_end_of_input() {
    let tt = "fun".parse::<TokenTree>();

    assert_eq!(tt, Ok(TokenTree(vec![Token::Keyword(Keyword::Fun)])))
}

#[test]
fn longest_operator_wins() {
    let tt = "==".parse::<TokenTree>();
    assert_eq!(tt, Ok(TokenTree(vec![Token::Symbol(Symbol::Equal)])));

    let tt = "+=".parse::<TokenTree>();
    assert_eq!(tt, Ok(TokenTree(vec![Token::Symbol(Symbol::AddAssign)])));

    let tt = "=>".parse::<TokenTree>();
    assert_eq!(tt, Ok(TokenTree(vec![Token::Symbol(Symbol::BigArrow)])));
}

#[test]
fn separated_operators_stay_short() {
    let tt = "= =".parse::<TokenTree>();

    assert_eq!(
        tt,
        Ok(TokenTree(vec![Token::Symbol(Symbol::Assign), Token::Symbol(Symbol::Assign)]))
    )
}

#[test]
fn empty_input() {
    let tt = "".parse::<TokenTree>();

    assert_eq!(tt, Ok(TokenTree(vec![])))
}

#[test]
fn unbalanced_curly() {
    let tt = "{".parse::<TokenTree>();

    assert_eq!(
        tt,
        Err(LexErr::UnbalancedNestingErr { start: "{".to_string(), end: "}".to_string() })
    )
}

#[test]
fn unbalanced_angle() {
    let tt = "< x".parse::<TokenTree>();

    assert_eq!(
        tt,
        Err(LexErr::UnbalancedNestingErr { start: "<".to_string(), end: ">".to_string() })
    )
}

#[test]
fn char_literal_too_long() {
    let tt = "'ab'".parse::<TokenTree>();

    assert_eq!(
        tt,
        Err(LexErr::ParseLiteralErr { typ: "Char".to_string(), string: "ab".to_string() })
    )
}

#[test]
fn unknown_character_is_number_error() {
    let tt = "?".parse::<TokenTree>();

    assert_eq!(
        tt,
        Err(LexErr::ParseLiteralErr { typ: "Number".to_string(), string: "".to_string() })
    )
}

#[test]
fn malformed_number() {
    let tt = "1.2.3".parse::<TokenTree>();

    assert_eq!(
        tt,
        Err(LexErr::ParseLiteralErr { typ: "Number".to_string(), string: "1.2.3".to_string() })
    )
}

#[test]
fn float_forms() {
    let tt = ".5 1e5 2E3".parse::<TokenTree>();

    assert_eq!(
        tt,
        Ok(TokenTree(vec![
            Token::Literal(Literal::Float(".5".to_string())),
            Token::Literal(Literal::Float("1e5".to_string())),
            Token::Literal(Literal::Float("2E3".to_string())),
        ]))
    )
}

#[test]
fn integer_bounds() {
    let tt = "9223372036854775807".parse::<TokenTree>();
    assert_eq!(tt, Ok(TokenTree(vec![Token::Literal(Literal::Int(i64::MAX))])));

    // One past the largest signed 64-bit integer is read as a float.
    let tt = "9223372036854775808".parse::<TokenTree>();
    assert_eq!(
        tt,
        Ok(TokenTree(vec![Token::Literal(Literal::Float("9223372036854775808".to_string()))]))
    );
}

#[test]
fn line_comment() {
    let tt = "a # b c\nd".parse::<TokenTree>();

    assert_eq!(
        tt,
        Ok(TokenTree(vec![Token::Ident("a".to_string()), Token::Ident("d".to_string())]))
    )
}

#[test]
fn nested_blocks() {
    let tt = "{[x]}".parse::<TokenTree>();

    assert_eq!(
        tt,
        Ok(TokenTree(vec![Token::Block {
            delimiter: Delimiter::CurlyBraces,
            tokentree: TokenTree(vec![Token::Block {
                delimiter: Delimiter::SquareBrackets,
                tokentree: TokenTree(vec![Token::Ident("x".to_string())])
            }])
        }]))
    )
}

#[test]
fn nested_comments() {
    let tt = "<# a <# b #> c #> x".parse::<TokenTree>();

    assert_eq!(tt, Ok(TokenTree(vec![Token::Ident("x".to_string())])))
}

#[test]
fn whitespace_separates_identifiers() {
    let tt = "ab cd".parse::<TokenTree>();

    assert_eq!(
        tt,
        Ok(TokenTree(vec![Token::Ident("ab".to_string()), Token::Ident("cd".to_string())]))
    )
}

#[test]
fn multibyte_identifier_in_block() {
    let tt = "{h\u{e9}llo}".parse::<TokenTree>();

    assert_eq!(
        tt,
        Ok(TokenTree(vec![Token::Block {
            delimiter: Delimiter::CurlyBraces,
            tokentree: TokenTree(vec![Token::Ident("h\u{e9}llo".to_string())])
        }]))
    )
}

#[test]
fn tokenizing_twice_is_identical() {
    let input = "fun f(x: i32) => x + 1 <# done #>";
    let first = input.parse::<TokenTree>();
    let second = input.parse::<TokenTree>();

    assert_eq!(first, second);
}

#[test]
fn walker_next_char_and_end() {
    let mut walker = StrWalker::new("ab");

    assert!(!walker.reached_end());
    assert_eq!(walker.next_char(), Some('a'));
    assert_eq!(walker.next_char(), Some('b'));
    assert!(walker.reached_end());
    assert_eq!(walker.next_char(), None);
}

#[test]
fn walker_starts_with_and_jump() {
    let mut walker = StrWalker::new("abcdef");

    assert!(walker.currently_starts_with("abc"));
    assert!(!walker.currently_starts_with("bcd"));
    assert!(!walker.currently_starts_with("abcdefg"));
    walker.jump_by(3);
    assert!(walker.currently_starts_with("def"));
}

#[test]
fn walker_jump_whitespace() {
    let mut walker = StrWalker::new("  \t\n x");

    walker.jump_whitespace();
    assert!(walker.currently_starts_with("x"));
}

#[test]
fn walker_jump_to_next() {
    let mut walker = StrWalker::new("abc\ndef");

    walker.jump_to_next("\n");
    assert!(walker.currently_starts_with("\ndef"));
}

#[test]
fn walker_get_between_recursive() {
    let mut walker = StrWalker::new("{a{b}c}!");

    let inner = walker.get_between_recursive("{", "}");
    assert_eq!(inner, Some(Ok("a{b}c".to_string())));
    assert!(walker.currently_starts_with("!"));

    let mut walker = StrWalker::new("no block");
    assert_eq!(walker.get_between_recursive("{", "}"), None);
    assert!(walker.currently_starts_with("no"));

    let mut walker = StrWalker::new("{open");
    assert_eq!(
        walker.get_between_recursive("{", "}"),
        Some(Err(LexErr::UnbalancedNestingErr { start: "{".to_string(), end: "}".to_string() }))
    );
}

#[test]
fn parse_literals_directly() {
    let mut walker = StrWalker::new("true");
    let lit = chlex::lexer::parse_literals::parse_literals(&mut walker);
    assert_eq!(lit, Ok(Literal::Bool(true)));

    let mut walker = StrWalker::new(" 42");
    let lit = chlex::lexer::parse_literals::parse_literals(&mut walker);
    assert_eq!(lit, Ok(Literal::Int(42)));

    let mut walker = StrWalker::new("\"hi\"");
    let lit = chlex::lexer::parse_literals::parse_literals(&mut walker);
    assert_eq!(lit, Ok(Literal::String("hi".to_string())));
}

#[test]
fn unclosed_string_literal() {
    let tt = "\"abc".parse::<TokenTree>();

    assert_eq!(
        tt,
        Err(LexErr::UnbalancedNestingErr { start: "\"".to_string(), end: "\"".to_string() })
    )
}

#[test]
fn compound_assignment_in_context() {
    let tt = "x += 1".parse::<TokenTree>();

    assert_eq!(
        tt,
        Ok(TokenTree(vec![
            Token::Ident("x".to_string()),
            Token::Symbol(Symbol::AddAssign),
            Token::Literal(Literal::Int(1)),
        ]))
    )
}

#[test]
fn trailing_dot_float() {
    let tt = "1.".parse::<TokenTree>();

    assert_eq!(tt, Ok(TokenTree(vec![Token::Literal(Literal::Float("1.".to_string()))])))
}
