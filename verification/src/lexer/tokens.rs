//! The token vocabulary: keywords, operators, literals, identifiers and
//! nested blocks, together with the ghost-level views the contracts speak of.

use vstd::prelude::*;

use crate::lexer::TokenTree;
use crate::lexer::str_walker::{StrWalker, match_at, xid_continue, is_xid_continue};

verus! {

/// A reserved word of the language.
#[derive(Debug, Clone, PartialEq, Eq, Structural)]
pub enum Keyword {
    Funct,
    Struct,
    Enum,
    Alias,
    Trait,
    Extension,
    Impl,
    Using,
    Var,
    Let,
    Const,
    If,
    Else,
    Match,
    Loop,
    While,
    For,
    In,
    Break,
    Continue,
    Return,
    Mut,
    Fun,
    Try,
    Yeet,
    Unsafe,
}

/// An operator or punctuation mark.
#[derive(Debug, Clone, PartialEq, Eq, Structural)]
pub enum Symbol {
    Arrow,
    BigArrow,
    Pipe,
    Colon,
    Comma,
    Add,
    Subtract,
    Multiply,
    Divide,
    Modulus,
    Not,
    And,
    Or,
    Xor,
    Assign,
    AddAssign,
    SubtractAssign,
    MultiplyAssign,
    DivideAssign,
    ModAssign,
    BitandAssign,
    BitorAssign,
    BitxorAssign,
    Larger,
    Smaller,
    LargerOrEqual,
    SmallerOrEqual,
    Equal,
    NotEqual,
    Ref,
    Deref,
}

/// One of the four bracket pairs that delimit a nested block.
#[derive(Debug, Clone, PartialEq, Eq, Structural)]
pub enum Delimiter {
    CurlyBraces,
    Parentheses,
    SquareBrackets,
    AngleBrackets,
}

/// A literal value.  A floating-point literal keeps its raw text: deciding
/// that the text is a well-formed float is part of tokenization, while
/// producing a machine float from it is left to consumers.
#[derive(Debug, Clone, PartialEq)]
pub enum Literal {
    String(String),
    Char(char),
    Bool(bool),
    Int(i64),
    Float(String),
}

/// A single lexical token.  A `Block` owns the token tree of the text found
/// between its delimiters.
#[derive(Debug)]
pub enum Token {
    Keyword(Keyword),
    Symbol(Symbol),
    Literal(Literal),
    Ident(String),
    Block { delimiter: Delimiter, tokentree: TokenTree },
}

/// The mathematical value of a `Literal`: texts become character sequences.
pub enum LiteralV {
    String(Seq<char>),
    Char(char),
    Bool(bool),
    Int(i64),
    Float(Seq<char>),
}

/// The mathematical value of a `Token`: texts become character sequences and
/// a block's token tree becomes the sequence of its children's values.
pub enum TokenV {
    Keyword(Keyword),
    Symbol(Symbol),
    Literal(LiteralV),
    Ident(Seq<char>),
    Block { delimiter: Delimiter, tokentree: Seq<TokenV> },
}

pub open spec fn literal_view(l: Literal) -> LiteralV {
    match l {
        Literal::String(s) => LiteralV::String(s@),
        Literal::Char(c) => LiteralV::Char(c),
        Literal::Bool(b) => LiteralV::Bool(b),
        Literal::Int(n) => LiteralV::Int(n),
        Literal::Float(s) => LiteralV::Float(s@),
    }
}

pub open spec fn token_view(t: Token) -> TokenV
    decreases t,
{
    match t {
        Token::Keyword(k) => TokenV::Keyword(k),
        Token::Symbol(s) => TokenV::Symbol(s),
        Token::Literal(l) => TokenV::Literal(literal_view(l)),
        Token::Ident(s) => TokenV::Ident(s@),
        Token::Block { delimiter, tokentree } => TokenV::Block {
            delimiter,
            tokentree: tokens_view(tokentree.0@),
        },
    }
}

pub open spec fn tokens_view(s: Seq<Token>) -> Seq<TokenV>
    decreases s,
{
    if s.len() == 0 {
        Seq::empty()
    } else {
        tokens_view(s.drop_last()).push(token_view(s.last()))
    }
}

impl View for Literal {
    type V = LiteralV;

    open spec fn view(&self) -> LiteralV {
        literal_view(*self)
    }
}

impl View for Token {
    type V = TokenV;

    open spec fn view(&self) -> TokenV {
        token_view(*self)
    }
}

/// Structural comparison of two literals.
fn literal_eq(a: &Literal, b: &Literal) -> bool {
    match (a, b) {
        (Literal::String(x), Literal::String(y)) => x == y,
        (Literal::Char(x), Literal::Char(y)) => x == y,
        (Literal::Bool(x), Literal::Bool(y)) => x == y,
        (Literal::Int(x), Literal::Int(y)) => x == y,
        (Literal::Float(x), Literal::Float(y)) => x == y,
        _ => false,
    }
}

/// Structural comparison of two tokens, descending into nested blocks.
pub(crate) fn token_eq(a: &Token, b: &Token) -> bool
    decreases *a,
{
    match (a, b) {
        (Token::Keyword(x), Token::Keyword(y)) => x == y,
        (Token::Symbol(x), Token::Symbol(y)) => x == y,
        (Token::Literal(x), Token::Literal(y)) => literal_eq(x, y),
        (Token::Ident(x), Token::Ident(y)) => x == y,
        (
            Token::Block { delimiter: d1, tokentree: t1 },
            Token::Block { delimiter: d2, tokentree: t2 },
        ) => {
            proof {
                assert(decreases_to!(*a => *t1));
                assert(decreases_to!(*t1 => t1.0));
                assert(decreases_to!(t1.0 => t1.0@));
            }
            d1 == d2 && tokens_eq(&t1.0, &t2.0)
        },
        _ => false,
    }
}

/// Elementwise structural comparison of two token sequences.
pub(crate) fn tokens_eq(a: &Vec<Token>, b: &Vec<Token>) -> bool
    decreases a@,
{
    if a.len() != b.len() {
        return false;
    }
    let mut k: usize = 0;
    while k < a.len()
        invariant
            a@.len() == b@.len(),
            0 <= k <= a@.len(),
        decreases a@.len() - k,
    {
        proof {
            assert(decreases_to!(a@ => a@[k as int]));
        }
        if !token_eq(&a[k], &b[k]) {
            return false;
        }
        k = k + 1;
    }
    true
}

impl PartialEq for Token {
    fn eq(&self, other: &Token) -> bool {
        token_eq(self, other)
    }
}

impl vstd::std_specs::cmp::PartialEqSpecImpl for Token {
    open spec fn obeys_eq_spec() -> bool {
        false
    }

    open spec fn eq_spec(&self, other: &Token) -> bool {
        token_view(*self) == token_view(*other)
    }
}

/// `tokens_view` appends elementwise.
pub proof fn lemma_tokens_view_push(s: Seq<Token>, t: Token)
    ensures
        tokens_view(s.push(t)) == tokens_view(s).push(token_view(t)),
{
    assert(s.push(t).drop_last() =~= s);
    assert(s.push(t).last() == t);
}

/// `tokens_view` keeps the length of the sequence.
pub proof fn lemma_tokens_view_len(s: Seq<Token>)
    ensures
        tokens_view(s).len() == s.len(),
    decreases s.len(),
{
    if s.len() > 0 {
        lemma_tokens_view_len(s.drop_last());
    }
}

/// `tokens_view` maps each element to its view.
pub proof fn lemma_tokens_view_index(s: Seq<Token>, i: int)
    requires
        0 <= i < s.len(),
    ensures
        tokens_view(s).len() == s.len(),
        tokens_view(s)[i] == token_view(s[i]),
    decreases s.len(),
{
    lemma_tokens_view_len(s);
    if i < s.len() - 1 {
        lemma_tokens_view_index(s.drop_last(), i);
        lemma_tokens_view_len(s.drop_last());
    }
}


/// The number of entries of the keyword/operator table.
pub open spec fn table_len() -> int {
    59
}

/// The fixed text of table entry `k`.  The table is ordered by falling
/// pattern length, so that the first matching entry is always a longest one.
pub open spec fn table_pat(k: int) -> Seq<char> {
    if k == 0 {
        "extension"@
    } else if k == 1 {
        "continue"@
    } else if k == 2 {
        "struct"@
    } else if k == 3 {
        "return"@
    } else if k == 4 {
        "unsafe"@
    } else if k == 5 {
        "funct"@
    } else if k == 6 {
        "alias"@
    } else if k == 7 {
        "trait"@
    } else if k == 8 {
        "using"@
    } else if k == 9 {
        "const"@
    } else if k == 10 {
        "match"@
    } else if k == 11 {
        "while"@
    } else if k == 12 {
        "break"@
    } else if k == 13 {
        "false"@
    } else if k == 14 {
        "enum"@
    } else if k == 15 {
        "else"@
    } else if k == 16 {
        "impl"@
    } else if k == 17 {
        "loop"@
    } else if k == 18 {
        "yeet"@
    } else if k == 19 {
        "true"@
    } else if k == 20 {
        "var"@
    } else if k == 21 {
        "let"@
    } else if k == 22 {
        "for"@
    } else if k == 23 {
        "mut"@
    } else if k == 24 {
        "fun"@
    } else if k == 25 {
        "try"@
    } else if k == 26 {
        "if"@
    } else if k == 27 {
        "in"@
    } else if k == 28 {
        "->"@
    } else if k == 29 {
        "=>"@
    } else if k == 30 {
        "|>"@
    } else if k == 31 {
        "=="@
    } else if k == 32 {
        "!="@
    } else if k == 33 {
        ">="@
    } else if k == 34 {
        "<="@
    } else if k == 35 {
        "+="@
    } else if k == 36 {
        "-="@
    } else if k == 37 {
        "*="@
    } else if k == 38 {
        "/="@
    } else if k == 39 {
        "%="@
    } else if k == 40 {
        "&="@
    } else if k == 41 {
        "|="@
    } else if k == 42 {
        "^="@
    } else if k == 43 {
        "+"@
    } else if k == 44 {
        "-"@
    } else if k == 45 {
        "*"@
    } else if k == 46 {
        "/"@
    } else if k == 47 {
        "%"@
    } else if k == 48 {
        "!"@
    } else if k == 49 {
        "&"@
    } else if k == 50 {
        "|"@
    } else if k == 51 {
        "^"@
    } else if k == 52 {
        ">"@
    } else if k == 53 {
        "<"@
    } else if k == 54 {
        "="@
    } else if k == 55 {
        "~"@
    } else if k == 56 {
        "@"@
    } else if k == 57 {
        ":"@
    } else if k == 58 {
        ","@
    } else {
        Seq::empty()
    }
}

/// The token that table entry `k` stands for.
pub open spec fn table_tok(k: int) -> TokenV {
    if k == 0 {
        TokenV::Keyword(Keyword::Extension)
    } else if k == 1 {
        TokenV::Keyword(Keyword::Continue)
    } else if k == 2 {
        TokenV::Keyword(Keyword::Struct)
    } else if k == 3 {
        TokenV::Keyword(Keyword::Return)
    } else if k == 4 {
        TokenV::Keyword(Keyword::Unsafe)
    } else if k == 5 {
        TokenV::Keyword(Keyword::Funct)
    } else if k == 6 {
        TokenV::Keyword(Keyword::Alias)
    } else if k == 7 {
        TokenV::Keyword(Keyword::Trait)
    } else if k == 8 {
        TokenV::Keyword(Keyword::Using)
    } else if k == 9 {
        TokenV::Keyword(Keyword::Const)
    } else if k == 10 {
        TokenV::Keyword(Keyword::Match)
    } else if k == 11 {
        TokenV::Keyword(Keyword::While)
    } else if k == 12 {
        TokenV::Keyword(Keyword::Break)
    } else if k == 13 {
        TokenV::Literal(LiteralV::Bool(false))
    } else if k == 14 {
        TokenV::Keyword(Keyword::Enum)
    } else if k == 15 {
        TokenV::Keyword(Keyword::Else)
    } else if k == 16 {
        TokenV::Keyword(Keyword::Impl)
    } else if k == 17 {
        TokenV::Keyword(Keyword::Loop)
    } else if k == 18 {
        TokenV::Keyword(Keyword::Yeet)
    } else if k == 19 {
        TokenV::Literal(LiteralV::Bool(true))
    } else if k == 20 {
        TokenV::Keyword(Keyword::Var)
    } else if k == 21 {
        TokenV::Keyword(Keyword::Let)
    } else if k == 22 {
        TokenV::Keyword(Keyword::For)
    } else if k == 23 {
        TokenV::Keyword(Keyword::Mut)
    } else if k == 24 {
        TokenV::Keyword(Keyword::Fun)
    } else if k == 25 {
        TokenV::Keyword(Keyword::Try)
    } else if k == 26 {
        TokenV::Keyword(Keyword::If)
    } else if k == 27 {
        TokenV::Keyword(Keyword::In)
    } else if k == 28 {
        TokenV::Symbol(Symbol::Arrow)
    } else if k == 29 {
        TokenV::Symbol(Symbol::BigArrow)
    } else if k == 30 {
        TokenV::Symbol(Symbol::Pipe)
    } else if k == 31 {
        TokenV::Symbol(Symbol::Equal)
    } else if k == 32 {
        TokenV::Symbol(Symbol::NotEqual)
    } else if k == 33 {
        TokenV::Symbol(Symbol::LargerOrEqual)
    } else if k == 34 {
        TokenV::Symbol(Symbol::SmallerOrEqual)
    } else if k == 35 {
        TokenV::Symbol(Symbol::AddAssign)
    } else if k == 36 {
        TokenV::Symbol(Symbol::SubtractAssign)
    } else if k == 37 {
        TokenV::Symbol(Symbol::MultiplyAssign)
    } else if k == 38 {
        TokenV::Symbol(Symbol::DivideAssign)
    } else if k == 39 {
        TokenV::Symbol(Symbol::ModAssign)
    } else if k == 40 {
        TokenV::Symbol(Symbol::BitandAssign)
    } else if k == 41 {
        TokenV::Symbol(Symbol::BitorAssign)
    } else if k == 42 {
        TokenV::Symbol(Symbol::BitxorAssign)
    } else if k == 43 {
        TokenV::Symbol(Symbol::Add)
    } else if k == 44 {
        TokenV::Symbol(Symbol::Subtract)
    } else if k == 45 {
        TokenV::Symbol(Symbol::Multiply)
    } else if k == 46 {
        TokenV::Symbol(Symbol::Divide)
    } else if k == 47 {
        TokenV::Symbol(Symbol::Modulus)
    } else if k == 48 {
        TokenV::Symbol(Symbol::Not)
    } else if k == 49 {
        TokenV::Symbol(Symbol::And)
    } else if k == 50 {
        TokenV::Symbol(Symbol::Or)
    } else if k == 51 {
        TokenV::Symbol(Symbol::Xor)
    } else if k == 52 {
        TokenV::Symbol(Symbol::Larger)
    } else if k == 53 {
        TokenV::Symbol(Symbol::Smaller)
    } else if k == 54 {
        TokenV::Symbol(Symbol::Assign)
    } else if k == 55 {
        TokenV::Symbol(Symbol::Ref)
    } else if k == 56 {
        TokenV::Symbol(Symbol::Deref)
    } else if k == 57 {
        TokenV::Symbol(Symbol::Colon)
    } else if k == 58 {
        TokenV::Symbol(Symbol::Comma)
    } else {
        TokenV::Symbol(Symbol::Comma)
    }
}

/// Entries that are accepted wherever their text occurs: operators and
/// punctuation.  Keywords and the boolean literals are accepted only at an
/// identifier boundary.
pub open spec fn uncond_entry(tv: TokenV) -> bool {
    tv is Symbol
}

/// Position `j` does not continue an identifier: it is past the end of the
/// text or holds a character outside the identifier-continue class.
pub open spec fn boundary_ok(s: Seq<char>, j: int) -> bool {
    j >= s.len() || !xid_continue(s[j])
}

/// Table entry `k` matches at position `i` and is accepted there: its
/// (nonempty) text occurs at `i`, and, unless it is an operator, the pending
/// identifier is empty and the text ends at an identifier boundary.
pub open spec fn entry_accepts(s: Seq<char>, i: int, pending_empty: bool, k: int) -> bool {
    table_pat(k).len() > 0 && match_at(s, i, table_pat(k)) && (uncond_entry(table_tok(k)) || (
    pending_empty && boundary_ok(s, i + table_pat(k).len())))
}

/// The first table entry at or after `k` that is accepted at position `i`.
pub open spec fn table_match_from(s: Seq<char>, i: int, pending_empty: bool, k: int) -> Option<int>
    decreases table_len() - k,
    when 0 <= k <= table_len()
{
    if k >= table_len() {
        None
    } else if entry_accepts(s, i, pending_empty, k) {
        Some(k)
    } else {
        table_match_from(s, i, pending_empty, k + 1)
    }
}

/// The first table entry accepted at position `i`, scanning the whole table
/// top to bottom.
pub open spec fn table_match(s: Seq<char>, i: int, pending_empty: bool) -> Option<int> {
    table_match_from(s, i, pending_empty, 0)
}

/// What a table-match result means: the found entry is accepted and no
/// earlier entry in the scanned range is; a miss means no entry is accepted.
pub proof fn lemma_table_match_from(s: Seq<char>, i: int, pending_empty: bool, k: int)
    requires
        0 <= k <= table_len(),
    ensures
        match table_match_from(s, i, pending_empty, k) {
            Some(m) => k <= m < table_len() && entry_accepts(s, i, pending_empty, m) && forall|
                q: int,
            |
                k <= q < m ==> !entry_accepts(s, i, pending_empty, q),
            None => forall|q: int| k <= q < table_len() ==> !entry_accepts(s, i, pending_empty, q),
        },
    decreases table_len() - k,
{
    if k < table_len() && !entry_accepts(s, i, pending_empty, k) {
        lemma_table_match_from(s, i, pending_empty, k + 1);
    }
}

/// Checks one table entry at the cursor position.  `pat` and `tok` are the
/// text and token of entry `k`.
fn try_entry(
    w: &StrWalker<'_>,
    pat: &str,
    tok: Token,
    pending_empty: bool,
    Ghost(k): Ghost<int>,
) -> (r: Option<Token>)
    requires
        w.wf(),
        0 <= k < table_len(),
        pat@ == table_pat(k),
        token_view(tok) == table_tok(k),
        pat@.len() > 0,
    ensures
        r is Some <==> entry_accepts(w.text(), w.pos(), pending_empty, k),
        r matches Some(t) ==> token_view(t) == table_tok(k),
{
    if !w.currently_starts_with(pat) {
        return None;
    }
    let is_symbol = match &tok {
        Token::Symbol(_) => true,
        _ => false,
    };
    if is_symbol {
        return Some(tok);
    }
    if !pending_empty {
        return None;
    }
    let plen = pat.unicode_len();
    let text_len = w.text_len();
    proof {
        assert(w.pos() + pat@.len() <= w.text().len());
    }
    let p2 = w.position() + plen;
    if p2 >= text_len {
        return Some(tok);
    }
    if is_xid_continue(w.char_at(p2)) {
        None
    } else {
        Some(tok)
    }
}

/// Tries the keyword/operator table top to bottom at the cursor position and
/// returns the length of the matched text together with its token.
pub(crate) fn match_token(w: &StrWalker<'_>, pending_empty: bool) -> (r: Option<(usize, Token)>)
    requires
        w.wf(),
    ensures
        match table_match(w.text(), w.pos(), pending_empty) {
            None => r is None,
            Some(m) => r matches Some((plen, t)) && plen as int == table_pat(m).len() && token_view(
                t,
            ) == table_tok(m),
        },
{
    let ghost s = w.text();
    let ghost i = w.pos();
    proof {
        reveal_strlit("extension");
    }
    if let Some(t) = try_entry(w, "extension", Token::Keyword(Keyword::Extension), pending_empty, Ghost(0)) {
        return Some((9, t));
    }
    assert(table_match_from(s, i, pending_empty, 0) == table_match_from(s, i, pending_empty, 1));
    proof {
        reveal_strlit("continue");
    }
    if let Some(t) = try_entry(w, "continue", Token::Keyword(Keyword::Continue), pending_empty, Ghost(1)) {
        return Some((8, t));
    }
    assert(table_match_from(s, i, pending_empty, 1) == table_match_from(s, i, pending_empty, 2));
    proof {
        reveal_strlit("struct");
    }
    if let Some(t) = try_entry(w, "struct", Token::Keyword(Keyword::Struct), pending_empty, Ghost(2)) {
        return Some((6, t));
    }
    assert(table_match_from(s, i, pending_empty, 2) == table_match_from(s, i, pending_empty, 3));
    proof {
        reveal_strlit("return");
    }
    if let Some(t) = try_entry(w, "return", Token::Keyword(Keyword::Return), pending_empty, Ghost(3)) {
        return Some((6, t));
    }
    assert(table_match_from(s, i, pending_empty, 3) == table_match_from(s, i, pending_empty, 4));
    proof {
        reveal_strlit("unsafe");
    }
    if let Some(t) = try_entry(w, "unsafe", Token::Keyword(Keyword::Unsafe), pending_empty, Ghost(4)) {
        return Some((6, t));
    }
    assert(table_match_from(s, i, pending_empty, 4) == table_match_from(s, i, pending_empty, 5));
    proof {
        reveal_strlit("funct");
    }
    if let Some(t) = try_entry(w, "funct", Token::Keyword(Keyword::Funct), pending_empty, Ghost(5)) {
        return Some((5, t));
    }
    assert(table_match_from(s, i, pending_empty, 5) == table_match_from(s, i, pending_empty, 6));
    proof {
        reveal_strlit("alias");
    }
    if let Some(t) = try_entry(w, "alias", Token::Keyword(Keyword::Alias), pending_empty, Ghost(6)) {
        return Some((5, t));
    }
    assert(table_match_from(s, i, pending_empty, 6) == table_match_from(s, i, pending_empty, 7));
    proof {
        reveal_strlit("trait");
    }
    if let Some(t) = try_entry(w, "trait", Token::Keyword(Keyword::Trait), pending_empty, Ghost(7)) {
        return Some((5, t));
    }
    assert(table_match_from(s, i, pending_empty, 7) == table_match_from(s, i, pending_empty, 8));
    proof {
        reveal_strlit("using");
    }
    if let Some(t) = try_entry(w, "using", Token::Keyword(Keyword::Using), pending_empty, Ghost(8)) {
        return Some((5, t));
    }
    assert(table_match_from(s, i, pending_empty, 8) == table_match_from(s, i, pending_empty, 9));
    proof {
        reveal_strlit("const");
    }
    if let Some(t) = try_entry(w, "const", Token::Keyword(Keyword::Const), pending_empty, Ghost(9)) {
        return Some((5, t));
    }
    assert(table_match_from(s, i, pending_empty, 9) == table_match_from(s, i, pending_empty, 10));
    proof {
        reveal_strlit("match");
    }
    if let Some(t) = try_entry(w, "match", Token::Keyword(Keyword::Match), pending_empty, Ghost(10)) {
        return Some((5, t));
    }
    assert(table_match_from(s, i, pending_empty, 10) == table_match_from(s, i, pending_empty, 11));
    proof {
        reveal_strlit("while");
    }
    if let Some(t) = try_entry(w, "while", Token::Keyword(Keyword::While), pending_empty, Ghost(11)) {
        return Some((5, t));
    }
    assert(table_match_from(s, i, pending_empty, 11) == table_match_from(s, i, pending_empty, 12));
    proof {
        reveal_strlit("break");
    }
    if let Some(t) = try_entry(w, "break", Token::Keyword(Keyword::Break), pending_empty, Ghost(12)) {
        return Some((5, t));
    }
    assert(table_match_from(s, i, pending_empty, 12) == table_match_from(s, i, pending_empty, 13));
    proof {
        reveal_strlit("false");
    }
    if let Some(t) = try_entry(w, "false", Token::Literal(Literal::Bool(false)), pending_empty, Ghost(13)) {
        return Some((5, t));
    }
    assert(table_match_from(s, i, pending_empty, 13) == table_match_from(s, i, pending_empty, 14));
    proof {
        reveal_strlit("enum");
    }
    if let Some(t) = try_entry(w, "enum", Token::Keyword(Keyword::Enum), pending_empty, Ghost(14)) {
        return Some((4, t));
    }
    assert(table_match_from(s, i, pending_empty, 14) == table_match_from(s, i, pending_empty, 15));
    proof {
        reveal_strlit("else");
    }
    if let Some(t) = try_entry(w, "else", Token::Keyword(Keyword::Else), pending_empty, Ghost(15)) {
        return Some((4, t));
    }
    assert(table_match_from(s, i, pending_empty, 15) == table_match_from(s, i, pending_empty, 16));
    proof {
        reveal_strlit("impl");
    }
    if let Some(t) = try_entry(w, "impl", Token::Keyword(Keyword::Impl), pending_empty, Ghost(16)) {
        return Some((4, t));
    }
    assert(table_match_from(s, i, pending_empty, 16) == table_match_from(s, i, pending_empty, 17));
    proof {
        reveal_strlit("loop");
    }
    if let Some(t) = try_entry(w, "loop", Token::Keyword(Keyword::Loop), pending_empty, Ghost(17)) {
        return Some((4, t));
    }
    assert(table_match_from(s, i, pending_empty, 17) == table_match_from(s, i, pending_empty, 18));
    proof {
        reveal_strlit("yeet");
    }
    if let Some(t) = try_entry(w, "yeet", Token::Keyword(Keyword::Yeet), pending_empty, Ghost(18)) {
        return Some((4, t));
    }
    assert(table_match_from(s, i, pending_empty, 18) == table_match_from(s, i, pending_empty, 19));
    proof {
        reveal_strlit("true");
    }
    if let Some(t) = try_entry(w, "true", Token::Literal(Literal::Bool(true)), pending_empty, Ghost(19)) {
        return Some((4, t));
    }
    assert(table_match_from(s, i, pending_empty, 19) == table_match_from(s, i, pending_empty, 20));
    proof {
        reveal_strlit("var");
    }
    if let Some(t) = try_entry(w, "var", Token::Keyword(Keyword::Var), pending_empty, Ghost(20)) {
        return Some((3, t));
    }
    assert(table_match_from(s, i, pending_empty, 20) == table_match_from(s, i, pending_empty, 21));
    proof {
        reveal_strlit("let");
    }
    if let Some(t) = try_entry(w, "let", Token::Keyword(Keyword::Let), pending_empty, Ghost(21)) {
        return Some((3, t));
    }
    assert(table_match_from(s, i, pending_empty, 21) == table_match_from(s, i, pending_empty, 22));
    proof {
        reveal_strlit("for");
    }
    if let Some(t) = try_entry(w, "for", Token::Keyword(Keyword::For), pending_empty, Ghost(22)) {
        return Some((3, t));
    }
    assert(table_match_from(s, i, pending_empty, 22) == table_match_from(s, i, pending_empty, 23));
    proof {
        reveal_strlit("mut");
    }
    if let Some(t) = try_entry(w, "mut", Token::Keyword(Keyword::Mut), pending_empty, Ghost(23)) {
        return Some((3, t));
    }
    assert(table_match_from(s, i, pending_empty, 23) == table_match_from(s, i, pending_empty, 24));
    proof {
        reveal_strlit("fun");
    }
    if let Some(t) = try_entry(w, "fun", Token::Keyword(Keyword::Fun), pending_empty, Ghost(24)) {
        return Some((3, t));
    }
    assert(table_match_from(s, i, pending_empty, 24) == table_match_from(s, i, pending_empty, 25));
    proof {
        reveal_strlit("try");
    }
    if let Some(t) = try_entry(w, "try", Token::Keyword(Keyword::Try), pending_empty, Ghost(25)) {
        return Some((3, t));
    }
    assert(table_match_from(s, i, pending_empty, 25) == table_match_from(s, i, pending_empty, 26));
    proof {
        reveal_strlit("if");
    }
    if let Some(t) = try_entry(w, "if", Token::Keyword(Keyword::If), pending_empty, Ghost(26)) {
        return Some((2, t));
    }
    assert(table_match_from(s, i, pending_empty, 26) == table_match_from(s, i, pending_empty, 27));
    proof {
        reveal_strlit("in");
    }
    if let Some(t) = try_entry(w, "in", Token::Keyword(Keyword::In), pending_empty, Ghost(27)) {
        return Some((2, t));
    }
    assert(table_match_from(s, i, pending_empty, 27) == table_match_from(s, i, pending_empty, 28));
    proof {
        reveal_strlit("->");
    }
    if let Some(t) = try_entry(w, "->", Token::Symbol(Symbol::Arrow), pending_empty, Ghost(28)) {
        return Some((2, t));
    }
    assert(table_match_from(s, i, pending_empty, 28) == table_match_from(s, i, pending_empty, 29));
    proof {
        reveal_strlit("=>");
    }
    if let Some(t) = try_entry(w, "=>", Token::Symbol(Symbol::BigArrow), pending_empty, Ghost(29)) {
        return Some((2, t));
    }
    assert(table_match_from(s, i, pending_empty, 29) == table_match_from(s, i, pending_empty, 30));
    proof {
        reveal_strlit("|>");
    }
    if let Some(t) = try_entry(w, "|>", Token::Symbol(Symbol::Pipe), pending_empty, Ghost(30)) {
        return Some((2, t));
    }
    assert(table_match_from(s, i, pending_empty, 30) == table_match_from(s, i, pending_empty, 31));
    proof {
        reveal_strlit("==");
    }
    if let Some(t) = try_entry(w, "==", Token::Symbol(Symbol::Equal), pending_empty, Ghost(31)) {
        return Some((2, t));
    }
    assert(table_match_from(s, i, pending_empty, 31) == table_match_from(s, i, pending_empty, 32));
    proof {
        reveal_strlit("!=");
    }
    if let Some(t) = try_entry(w, "!=", Token::Symbol(Symbol::NotEqual), pending_empty, Ghost(32)) {
        return Some((2, t));
    }
    assert(table_match_from(s, i, pending_empty, 32) == table_match_from(s, i, pending_empty, 33));
    proof {
        reveal_strlit(">=");
    }
    if let Some(t) = try_entry(w, ">=", Token::Symbol(Symbol::LargerOrEqual), pending_empty, Ghost(33)) {
        return Some((2, t));
    }
    assert(table_match_from(s, i, pending_empty, 33) == table_match_from(s, i, pending_empty, 34));
    proof {
        reveal_strlit("<=");
    }
    if let Some(t) = try_entry(w, "<=", Token::Symbol(Symbol::SmallerOrEqual), pending_empty, Ghost(34)) {
        return Some((2, t));
    }
    assert(table_match_from(s, i, pending_empty, 34) == table_match_from(s, i, pending_empty, 35));
    proof {
        reveal_strlit("+=");
    }
    if let Some(t) = try_entry(w, "+=", Token::Symbol(Symbol::AddAssign), pending_empty, Ghost(35)) {
        return Some((2, t));
    }
    assert(table_match_from(s, i, pending_empty, 35) == table_match_from(s, i, pending_empty, 36));
    proof {
        reveal_strlit("-=");
    }
    if let Some(t) = try_entry(w, "-=", Token::Symbol(Symbol::SubtractAssign), pending_empty, Ghost(36)) {
        return Some((2, t));
    }
    assert(table_match_from(s, i, pending_empty, 36) == table_match_from(s, i, pending_empty, 37));
    proof {
        reveal_strlit("*=");
    }
    if let Some(t) = try_entry(w, "*=", Token::Symbol(Symbol::MultiplyAssign), pending_empty, Ghost(37)) {
        return Some((2, t));
    }
    assert(table_match_from(s, i, pending_empty, 37) == table_match_from(s, i, pending_empty, 38));
    proof {
        reveal_strlit("/=");
    }
    if let Some(t) = try_entry(w, "/=", Token::Symbol(Symbol::DivideAssign), pending_empty, Ghost(38)) {
        return Some((2, t));
    }
    assert(table_match_from(s, i, pending_empty, 38) == table_match_from(s, i, pending_empty, 39));
    proof {
        reveal_strlit("%=");
    }
    if let Some(t) = try_entry(w, "%=", Token::Symbol(Symbol::ModAssign), pending_empty, Ghost(39)) {
        return Some((2, t));
    }
    assert(table_match_from(s, i, pending_empty, 39) == table_match_from(s, i, pending_empty, 40));
    proof {
        reveal_strlit("&=");
    }
    if let Some(t) = try_entry(w, "&=", Token::Symbol(Symbol::BitandAssign), pending_empty, Ghost(40)) {
        return Some((2, t));
    }
    assert(table_match_from(s, i, pending_empty, 40) == table_match_from(s, i, pending_empty, 41));
    proof {
        reveal_strlit("|=");
    }
    if let Some(t) = try_entry(w, "|=", Token::Symbol(Symbol::BitorAssign), pending_empty, Ghost(41)) {
        return Some((2, t));
    }
    assert(table_match_from(s, i, pending_empty, 41) == table_match_from(s, i, pending_empty, 42));
    proof {
        reveal_strlit("^=");
    }
    if let Some(t) = try_entry(w, "^=", Token::Symbol(Symbol::BitxorAssign), pending_empty, Ghost(42)) {
        return Some((2, t));
    }
    assert(table_match_from(s, i, pending_empty, 42) == table_match_from(s, i, pending_empty, 43));
    proof {
        reveal_strlit("+");
    }
    if let Some(t) = try_entry(w, "+", Token::Symbol(Symbol::Add), pending_empty, Ghost(43)) {
        return Some((1, t));
    }
    assert(table_match_from(s, i, pending_empty, 43) == table_match_from(s, i, pending_empty, 44));
    proof {
        reveal_strlit("-");
    }
    if let Some(t) = try_entry(w, "-", Token::Symbol(Symbol::Subtract), pending_empty, Ghost(44)) {
        return Some((1, t));
    }
    assert(table_match_from(s, i, pending_empty, 44) == table_match_from(s, i, pending_empty, 45));
    proof {
        reveal_strlit("*");
    }
    if let Some(t) = try_entry(w, "*", Token::Symbol(Symbol::Multiply), pending_empty, Ghost(45)) {
        return Some((1, t));
    }
    assert(table_match_from(s, i, pending_empty, 45) == table_match_from(s, i, pending_empty, 46));
    proof {
        reveal_strlit("/");
    }
    if let Some(t) = try_entry(w, "/", Token::Symbol(Symbol::Divide), pending_empty, Ghost(46)) {
        return Some((1, t));
    }
    assert(table_match_from(s, i, pending_empty, 46) == table_match_from(s, i, pending_empty, 47));
    proof {
        reveal_strlit("%");
    }
    if let Some(t) = try_entry(w, "%", Token::Symbol(Symbol::Modulus), pending_empty, Ghost(47)) {
        return Some((1, t));
    }
    assert(table_match_from(s, i, pending_empty, 47) == table_match_from(s, i, pending_empty, 48));
    proof {
        reveal_strlit("!");
    }
    if let Some(t) = try_entry(w, "!", Token::Symbol(Symbol::Not), pending_empty, Ghost(48)) {
        return Some((1, t));
    }
    assert(table_match_from(s, i, pending_empty, 48) == table_match_from(s, i, pending_empty, 49));
    proof {
        reveal_strlit("&");
    }
    if let Some(t) = try_entry(w, "&", Token::Symbol(Symbol::And), pending_empty, Ghost(49)) {
        return Some((1, t));
    }
    assert(table_match_from(s, i, pending_empty, 49) == table_match_from(s, i, pending_empty, 50));
    proof {
        reveal_strlit("|");
    }
    if let Some(t) = try_entry(w, "|", Token::Symbol(Symbol::Or), pending_empty, Ghost(50)) {
        return Some((1, t));
    }
    assert(table_match_from(s, i, pending_empty, 50) == table_match_from(s, i, pending_empty, 51));
    proof {
        reveal_strlit("^");
    }
    if let Some(t) = try_entry(w, "^", Token::Symbol(Symbol::Xor), pending_empty, Ghost(51)) {
        return Some((1, t));
    }
    assert(table_match_from(s, i, pending_empty, 51) == table_match_from(s, i, pending_empty, 52));
    proof {
        reveal_strlit(">");
    }
    if let Some(t) = try_entry(w, ">", Token::Symbol(Symbol::Larger), pending_empty, Ghost(52)) {
        return Some((1, t));
    }
    assert(table_match_from(s, i, pending_empty, 52) == table_match_from(s, i, pending_empty, 53));
    proof {
        reveal_strlit("<");
    }
    if let Some(t) = try_entry(w, "<", Token::Symbol(Symbol::Smaller), pending_empty, Ghost(53)) {
        return Some((1, t));
    }
    assert(table_match_from(s, i, pending_empty, 53) == table_match_from(s, i, pending_empty, 54));
    proof {
        reveal_strlit("=");
    }
    if let Some(t) = try_entry(w, "=", Token::Symbol(Symbol::Assign), pending_empty, Ghost(54)) {
        return Some((1, t));
    }
    assert(table_match_from(s, i, pending_empty, 54) == table_match_from(s, i, pending_empty, 55));
    proof {
        reveal_strlit("~");
    }
    if let Some(t) = try_entry(w, "~", Token::Symbol(Symbol::Ref), pending_empty, Ghost(55)) {
        return Some((1, t));
    }
    assert(table_match_from(s, i, pending_empty, 55) == table_match_from(s, i, pending_empty, 56));
    proof {
        reveal_strlit("@");
    }
    if let Some(t) = try_entry(w, "@", Token::Symbol(Symbol::Deref), pending_empty, Ghost(56)) {
        return Some((1, t));
    }
    assert(table_match_from(s, i, pending_empty, 56) == table_match_from(s, i, pending_empty, 57));
    proof {
        reveal_strlit(":");
    }
    if let Some(t) = try_entry(w, ":", Token::Symbol(Symbol::Colon), pending_empty, Ghost(57)) {
        return Some((1, t));
    }
    assert(table_match_from(s, i, pending_empty, 57) == table_match_from(s, i, pending_empty, 58));
    proof {
        reveal_strlit(",");
    }
    if let Some(t) = try_entry(w, ",", Token::Symbol(Symbol::Comma), pending_empty, Ghost(58)) {
        return Some((1, t));
    }
    assert(table_match_from(s, i, pending_empty, 58) == table_match_from(s, i, pending_empty, 59));
    assert(table_match_from(s, i, pending_empty, 59) is None);
    None
}

/// The opening text of a delimiter pair.
pub open spec fn delim_open(d: Delimiter) -> Seq<char> {
    match d {
        Delimiter::CurlyBraces => "{"@,
        Delimiter::Parentheses => "("@,
        Delimiter::SquareBrackets => "["@,
        Delimiter::AngleBrackets => "<"@,
    }
}

/// The closing text of a delimiter pair.
pub open spec fn delim_close(d: Delimiter) -> Seq<char> {
    match d {
        Delimiter::CurlyBraces => "}"@,
        Delimiter::Parentheses => ")"@,
        Delimiter::SquareBrackets => "]"@,
        Delimiter::AngleBrackets => ">"@,
    }
}

/// The first delimiter pair, in the fixed order curly, parenthesis, square,
/// angle, whose opening text occurs at position `j`.
pub open spec fn first_delim(s: Seq<char>, j: int) -> Option<Delimiter> {
    if match_at(s, j, "{"@) {
        Some(Delimiter::CurlyBraces)
    } else if match_at(s, j, "("@) {
        Some(Delimiter::Parentheses)
    } else if match_at(s, j, "["@) {
        Some(Delimiter::SquareBrackets)
    } else if match_at(s, j, "<"@) {
        Some(Delimiter::AngleBrackets)
    } else {
        None
    }
}


/// Adjacent table entries never grow in length: the table is ordered longest
/// first.
proof fn lemma_table_sorted(k: int)
    requires
        0 <= k < table_len() - 1,
    ensures
        table_pat(k).len() >= table_pat(k + 1).len(),
{
    reveal_strlit("extension");
    reveal_strlit("continue");
    reveal_strlit("struct");
    reveal_strlit("return");
    reveal_strlit("unsafe");
    reveal_strlit("funct");
    reveal_strlit("alias");
    reveal_strlit("trait");
    reveal_strlit("using");
    reveal_strlit("const");
    reveal_strlit("match");
    reveal_strlit("while");
    reveal_strlit("break");
    reveal_strlit("false");
    reveal_strlit("enum");
    reveal_strlit("else");
    reveal_strlit("impl");
    reveal_strlit("loop");
    reveal_strlit("yeet");
    reveal_strlit("true");
    reveal_strlit("var");
    reveal_strlit("let");
    reveal_strlit("for");
    reveal_strlit("mut");
    reveal_strlit("fun");
    reveal_strlit("try");
    reveal_strlit("if");
    reveal_strlit("in");
    reveal_strlit("->");
    reveal_strlit("=>");
    reveal_strlit("|>");
    reveal_strlit("==");
    reveal_strlit("!=");
    reveal_strlit(">=");
    reveal_strlit("<=");
    reveal_strlit("+=");
    reveal_strlit("-=");
    reveal_strlit("*=");
    reveal_strlit("/=");
    reveal_strlit("%=");
    reveal_strlit("&=");
    reveal_strlit("|=");
    reveal_strlit("^=");
    reveal_strlit("+");
    reveal_strlit("-");
    reveal_strlit("*");
    reveal_strlit("/");
    reveal_strlit("%");
    reveal_strlit("!");
    reveal_strlit("&");
    reveal_strlit("|");
    reveal_strlit("^");
    reveal_strlit(">");
    reveal_strlit("<");
    reveal_strlit("=");
    reveal_strlit("~");
    reveal_strlit("@");
    reveal_strlit(":");
    reveal_strlit(",");
}

/// Within the table, an earlier entry is always at least as long as a later
/// one.
proof fn lemma_table_sorted_range(i: int, j: int)
    requires
        0 <= i <= j < table_len(),
    ensures
        table_pat(i).len() >= table_pat(j).len(),
    decreases j - i,
{
    if i < j {
        lemma_table_sorted(j - 1);
        lemma_table_sorted_range(i, j - 1);
    }
}

/// Longest-match determinism: the entry the table scan yields is at least as
/// long as every entry that also matches and would be accepted at the same
/// position.  Texts that are mere prefixes of a longer matching text can
/// therefore never win the match.
pub proof fn lemma_longest_match(s: Seq<char>, i: int, pending_empty: bool, m: int, k: int)
    requires
        table_match(s, i, pending_empty) == Some(m),
        0 <= k < table_len(),
        entry_accepts(s, i, pending_empty, k),
    ensures
        table_pat(m).len() >= table_pat(k).len(),
{
    lemma_table_match_from(s, i, pending_empty, 0);
    if k > m {
        lemma_table_sorted_range(m, k);
    }
}

/// Keyword/identifier boundary: with no pending identifier, the table never
/// yields a keyword or boolean word whose text is immediately continued by
/// an identifier-continue character; such a text is a strict prefix of a
/// longer identifier and is left to the identifier scan.
pub proof fn lemma_keyword_boundary(s: Seq<char>, i: int, m: int)
    requires
        table_match(s, i, true) == Some(m),
        !uncond_entry(table_tok(m)),
    ensures
        boundary_ok(s, i + table_pat(m).len()),
{
    lemma_table_match_from(s, i, true, 0);
}

/// The flip side of the boundary rule: a keyword or boolean entry whose text
/// occurs at `i` but is followed there by an identifier-continue character
/// never wins the match.
pub proof fn lemma_keyword_prefix_skipped(s: Seq<char>, i: int, k: int)
    requires
        0 <= k < table_len(),
        !uncond_entry(table_tok(k)),
        match_at(s, i, table_pat(k)),
        !boundary_ok(s, i + table_pat(k).len()),
    ensures
        table_match(s, i, true) != Some(k),
{
    lemma_table_match_from(s, i, true, 0);
}

} // verus!
