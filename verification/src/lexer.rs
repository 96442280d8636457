//! The tokenizer: token trees, lexer errors, and the scan driver that turns
//! source text into a `TokenTree`.

use vstd::prelude::*;

use crate::lexer::parse_literals::{lemma_classify_bounds, lemma_skip_ws_bounds, parse_literals, spec_classify};
use crate::lexer::str_walker::{
    StrWalker, find_from, is_whitespace_char, is_xid_continue, is_xid_start, lemma_extract_bounds,
    lemma_find_from, lemma_pos_bounds, match_at, skip_ws, spec_extract, spec_jump_to_next,
    white_space, xid_continue, xid_start,
};
use crate::lexer::tokens::{
    Delimiter, Token, TokenV, delim_close, delim_open, first_delim, lemma_table_match_from,
    lemma_tokens_view_push, match_token, table_match, table_pat, table_tok, tokens_view,
};
use core::str::FromStr;

pub mod balance;
pub mod parse_literals;
pub mod str_walker;
pub mod tokens;

verus! {

/// An error produced during tokenization.
#[derive(Debug, Clone, PartialEq, Eq)]
pub enum LexErr {
    UnknownErr,
    UnbalancedNestingErr { start: String, end: String },
    ParseLiteralErr { typ: String, string: String },
}

/// The mathematical value of a `LexErr`: texts become character sequences.
pub enum LexErrV {
    UnknownErr,
    UnbalancedNestingErr { start: Seq<char>, end: Seq<char> },
    ParseLiteralErr { typ: Seq<char>, string: Seq<char> },
}

impl View for LexErr {
    type V = LexErrV;

    open spec fn view(&self) -> LexErrV {
        match self {
            LexErr::UnknownErr => LexErrV::UnknownErr,
            LexErr::UnbalancedNestingErr { start, end } => LexErrV::UnbalancedNestingErr {
                start: start@,
                end: end@,
            },
            LexErr::ParseLiteralErr { typ, string } => LexErrV::ParseLiteralErr {
                typ: typ@,
                string: string@,
            },
        }
    }
}

/// An ordered sequence of tokens.  Downstream consumers treat it as a queue:
/// they look at the front element and remove elements from the front.
#[derive(Debug)]
pub struct TokenTree(pub Vec<Token>);

impl PartialEq for TokenTree {
    fn eq(&self, other: &TokenTree) -> bool {
        crate::lexer::tokens::tokens_eq(&self.0, &other.0)
    }
}

impl vstd::std_specs::cmp::PartialEqSpecImpl for TokenTree {
    open spec fn obeys_eq_spec() -> bool {
        false
    }

    open spec fn eq_spec(&self, other: &TokenTree) -> bool {
        self@ == other@
    }
}

impl View for TokenTree {
    type V = Seq<TokenV>;

    open spec fn view(&self) -> Seq<TokenV> {
        tokens_view(self.0@)
    }
}

impl TokenTree {
    /// Builds a token tree holding the given tokens in order.
    pub fn new(tokens: Vec<Token>) -> (r: TokenTree)
        ensures
            r@ == tokens_view(tokens@),
    {
        TokenTree(tokens)
    }

    /// True when the tree holds no token.
    pub fn is_empty(&self) -> (r: bool)
        ensures
            r == (self@.len() == 0),
    {
        proof {
            crate::lexer::tokens::lemma_tokens_view_len(self.0@);
        }
        self.0.len() == 0
    }

    /// The front token, if any, without removing it.
    pub fn first(&self) -> (r: Option<&Token>)
        ensures
            match r {
                Some(t) => self@.len() > 0 && t@ == self@[0],
                None => self@.len() == 0,
            },
    {
        proof {
            crate::lexer::tokens::lemma_tokens_view_len(self.0@);
            if self.0@.len() > 0 {
                crate::lexer::tokens::lemma_tokens_view_index(self.0@, 0);
            }
        }
        if self.0.len() == 0 {
            None
        } else {
            Some(&self.0[0])
        }
    }



    /// Tokenizes a whole source text, returning exactly what the functional
    /// specification `spec_tokenize` says: a token tree on success, and the
    /// first error met otherwise.
    #[verifier::loop_isolation(false)]
    pub fn tokenize(input: &str) -> (r: Result<TokenTree, LexErr>)
        ensures
            match r {
                Ok(tt) => spec_tokenize(input@) == Ok::<Seq<TokenV>, LexErrV>(tt@),
                Err(e) => spec_tokenize(input@) == Err::<Seq<TokenV>, LexErrV>(e@),
            },
        decreases input@.len(), 1int, 0int,
    {
        let ghost s = input@;
        let mut walker = StrWalker::new(input);
        let mut tokens: Vec<Token> = Vec::new();
        let mut pending: Vec<char> = Vec::new();
        while !walker.reached_end()
            invariant
                walker.wf(),
                walker.text() == s,
                0 <= walker.pos() <= s.len(),
                spec_lex(s, 0, Seq::empty(), Seq::empty()) == spec_lex(
                    s,
                    walker.pos(),
                    pending@,
                    tokens_view(tokens@),
                ),
            decreases s.len() - walker.pos(), pending@.len(),
        {
            match lex_step(&mut walker, &mut tokens, &mut pending) {
                Ok(()) => {},
                Err(e) => {
                    return Err(e);
                },
            }
        }
        proof {
            lemma_lex_at_end(s, walker.pos(), pending@, tokens_view(tokens@));
        }
        flush_pending(&mut tokens, &mut pending);
        Ok(TokenTree(tokens))
    }

    /// Removes and returns the front token, if any.
    pub fn pop(&mut self) -> (r: Option<Token>)
        ensures
            match r {
                Some(t) => old(self)@.len() > 0 && t@ == old(self)@[0] && final(self)@ == old(
                    self,
                )@.drop_first(),
                None => old(self)@.len() == 0 && final(self)@ == old(self)@,
            },
    {
        proof {
            crate::lexer::tokens::lemma_tokens_view_len(self.0@);
        }
        if self.0.len() == 0 {
            None
        } else {
            let t = self.0.remove(0);
            proof {
                crate::lexer::tokens::lemma_tokens_view_index(old(self).0@, 0);
                lemma_tokens_view_drop_first(old(self).0@);
            }
            Some(t)
        }
    }
}


/// The token, if any, that a pending identifier turns into when it is
/// flushed.
pub open spec fn flush(pending: Seq<char>) -> Seq<TokenV> {
    if pending.len() == 0 {
        seq![]
    } else {
        seq![TokenV::Ident(pending)]
    }
}

/// One scan position of the tokenizer, specified recursively.  `pending` is
/// the identifier accumulator and `acc` the tokens already produced.  Each
/// round skips whitespace (which flushes a pending identifier), then tries a
/// block comment, a line comment, the four delimiter pairs, and the
/// keyword/operator table, and otherwise reads one character into the
/// accumulator or hands over to the literal classifier.
pub open spec fn spec_lex(s: Seq<char>, i: int, pending: Seq<char>, acc: Seq<TokenV>) -> Result<
    Seq<TokenV>,
    LexErrV,
>
    decreases s.len(), s.len() - i, pending.len(),
    when 0 <= i <= s.len()
    via spec_lex_decreases
{
    if i >= s.len() {
        Ok(acc + flush(pending))
    } else {
        let j = skip_ws(s, i);
        let acc1 = if j > i {
            acc + flush(pending)
        } else {
            acc
        };
        let pend1 = if j > i {
            Seq::<char>::empty()
        } else {
            pending
        };
        if j >= s.len() {
            Ok(acc1 + flush(pend1))
        } else {
            match spec_extract(s, j, "<#"@, "#>"@) {
                Some(Err(e)) => Err(e),
                Some(Ok((p, after))) => spec_lex(s, after, Seq::empty(), acc1 + flush(pend1)),
                None => if match_at(s, j, "#"@) {
                    spec_lex(s, spec_jump_to_next(s, j, "\n"@), Seq::empty(), acc1 + flush(pend1))
                } else if first_delim(s, j) is Some {
                    let d = first_delim(s, j).unwrap();
                    match spec_extract(s, j, delim_open(d), delim_close(d)) {
                        Some(Err(e)) => Err(e),
                        Some(Ok((p, after))) => match spec_lex(
                            s.subrange(j + 1, p),
                            0,
                            Seq::empty(),
                            Seq::empty(),
                        ) {
                            Err(e) => Err(e),
                            Ok(children) => spec_lex(
                                s,
                                after,
                                Seq::empty(),
                                acc1 + flush(pend1) + seq![
                                    TokenV::Block { delimiter: d, tokentree: children },
                                ],
                            ),
                        },
                        // never reached: the chosen pair's opening text occurs at `j`
                        None => Err(LexErrV::UnknownErr),
                    }
                } else {
                    match table_match(s, j, pend1.len() == 0) {
                        Some(m) => spec_lex(
                            s,
                            j + table_pat(m).len(),
                            Seq::empty(),
                            acc1 + flush(pend1) + seq![table_tok(m)],
                        ),
                        None => {
                            let ch = s[j];
                            if pend1.len() == 0 {
                                if xid_start(ch) {
                                    spec_lex(s, j + 1, seq![ch], acc1)
                                } else {
                                    match spec_classify(s, j) {
                                        Err(e) => Err(e),
                                        Ok((lit, after)) => spec_lex(
                                            s,
                                            after,
                                            Seq::empty(),
                                            acc1 + seq![TokenV::Literal(lit)],
                                        ),
                                    }
                                }
                            } else {
                                if xid_continue(ch) {
                                    spec_lex(s, j + 1, pend1.push(ch), acc1)
                                } else {
                                    spec_lex(s, j, Seq::empty(), acc1 + seq![TokenV::Ident(pend1)])
                                }
                            }
                        },
                    }
                },
            }
        }
    }
}

#[via_fn]
proof fn spec_lex_decreases(s: Seq<char>, i: int, pending: Seq<char>, acc: Seq<TokenV>) {
    reveal_strlit("<#");
    reveal_strlit("#>");
    reveal_strlit("#");
    reveal_strlit("\n");
    reveal_strlit("{");
    reveal_strlit("}");
    reveal_strlit("(");
    reveal_strlit(")");
    reveal_strlit("[");
    reveal_strlit("]");
    reveal_strlit("<");
    reveal_strlit(">");
    if 0 <= i && i < s.len() {
        lemma_skip_ws_bounds(s, i);
        let j = skip_ws(s, i);
        if j < s.len() {
            lemma_extract_bounds(s, j, "<#"@, "#>"@);
            lemma_find_from(s, j + 1, "\n"@);
            if first_delim(s, j) is Some {
                let d = first_delim(s, j).unwrap();
                lemma_extract_bounds(s, j, delim_open(d), delim_close(d));
            }
            let pend1 = if j > i {
                Seq::<char>::empty()
            } else {
                pending
            };
            lemma_table_match_from(s, j, pend1.len() == 0, 0);
            lemma_classify_bounds(s, j);
        }
    }
}

/// What tokenizing a whole text yields: the scan starts at the beginning
/// with nothing pending and nothing produced.
pub open spec fn spec_tokenize(s: Seq<char>) -> Result<Seq<TokenV>, LexErrV> {
    spec_lex(s, 0, Seq::empty(), Seq::empty())
}

/// Relies on `String::push`: appends the given character to the end of the
/// string.
#[verifier::external_body]
fn push_char(s: &mut String, c: char)
    ensures
        final(s)@ == old(s)@.push(c),
{
    s.push(c);
}

/// Builds a string holding the given characters in order.
#[verifier::loop_isolation(false)]
fn string_of_chars(v: &Vec<char>) -> (r: String)
    ensures
        r@ == v@,
{
    let mut s = String::new();
    let mut k: usize = 0;
    while k < v.len()
        invariant
            0 <= k <= v@.len(),
            s@ == v@.subrange(0, k as int),
        decreases v@.len() - k,
    {
        push_char(&mut s, v[k]);
        proof {
            assert(s@ =~= v@.subrange(0, k + 1));
        }
        k = k + 1;
    }
    proof {
        assert(s@ =~= v@);
    }
    s
}

/// Pushes the pending identifier, if there is one, as an `Ident` token, and
/// clears the accumulator.
fn flush_pending(tokens: &mut Vec<Token>, pending: &mut Vec<char>)
    ensures
        tokens_view(final(tokens)@) == tokens_view(old(tokens)@) + flush(old(pending)@),
        final(pending)@ == Seq::<char>::empty(),
{
    if pending.len() > 0 {
        let s = string_of_chars(pending);
        let tok = Token::Ident(s);
        proof {
            lemma_tokens_view_push(tokens@, tok);
        }
        tokens.push(tok);
        pending.clear();
        proof {
            assert(tokens_view(old(tokens)@).push(
                crate::lexer::tokens::token_view(Token::Ident(s)),
            ) =~= tokens_view(old(tokens)@) + flush(old(pending)@));
        }
    } else {
        proof {
            assert(tokens_view(tokens@) =~= tokens_view(tokens@) + flush(old(pending)@));
        }
    }
}

impl FromStr for TokenTree {
    type Err = LexErr;

    fn from_str(input: &str) -> Result<TokenTree, LexErr> {
        TokenTree::tokenize(input)
    }
}


/// One unfolding of `spec_lex` per branch of the scan, each stated as an
/// equation.  The common hypotheses name the position `j` after the
/// whitespace skip and the accumulator state `acc1`/`pend1` after the flush
/// that a skipped run of whitespace forces.

proof fn lemma_lex_at_end(s: Seq<char>, i: int, pending: Seq<char>, acc: Seq<TokenV>)
    requires
        i == s.len(),
    ensures
        spec_lex(s, i, pending, acc) == Ok::<Seq<TokenV>, LexErrV>(acc + flush(pending)),
{
}

proof fn lemma_lex_ws_end(s: Seq<char>, i: int, pending: Seq<char>, acc: Seq<TokenV>, j: int, acc1: Seq<TokenV>, pend1: Seq<char>)
    requires
        0 <= i < s.len(),
        j == skip_ws(s, i),
        acc1 == if j > i { acc + flush(pending) } else { acc },
        pend1 == if j > i { Seq::<char>::empty() } else { pending },
        j >= s.len(),
    ensures
        spec_lex(s, i, pending, acc) == Ok::<Seq<TokenV>, LexErrV>(acc1 + flush(pend1)),
{
}

proof fn lemma_lex_comment_err(s: Seq<char>, i: int, pending: Seq<char>, acc: Seq<TokenV>, j: int, e: LexErrV)
    requires
        0 <= i < s.len(),
        j == skip_ws(s, i),
        j < s.len(),
        spec_extract(s, j, "<#"@, "#>"@) == Some(Err::<(int, int), LexErrV>(e)),
    ensures
        spec_lex(s, i, pending, acc) == Err::<Seq<TokenV>, LexErrV>(e),
{
}

proof fn lemma_lex_comment(s: Seq<char>, i: int, pending: Seq<char>, acc: Seq<TokenV>, j: int, acc1: Seq<TokenV>, pend1: Seq<char>, p: int, after: int)
    requires
        0 <= i < s.len(),
        j == skip_ws(s, i),
        acc1 == if j > i { acc + flush(pending) } else { acc },
        pend1 == if j > i { Seq::<char>::empty() } else { pending },
        j < s.len(),
        spec_extract(s, j, "<#"@, "#>"@) == Some(Ok::<(int, int), LexErrV>((p, after))),
    ensures
        spec_lex(s, i, pending, acc) == spec_lex(s, after, Seq::empty(), acc1 + flush(pend1)),
{
    reveal_strlit("<#");
    reveal_strlit("#>");
    lemma_extract_bounds(s, j, "<#"@, "#>"@);
}

proof fn lemma_lex_line_comment(s: Seq<char>, i: int, pending: Seq<char>, acc: Seq<TokenV>, j: int, acc1: Seq<TokenV>, pend1: Seq<char>)
    requires
        0 <= i < s.len(),
        j == skip_ws(s, i),
        acc1 == if j > i { acc + flush(pending) } else { acc },
        pend1 == if j > i { Seq::<char>::empty() } else { pending },
        j < s.len(),
        spec_extract(s, j, "<#"@, "#>"@) is None,
        match_at(s, j, "#"@),
    ensures
        spec_lex(s, i, pending, acc) == spec_lex(
            s,
            spec_jump_to_next(s, j, "\n"@),
            Seq::empty(),
            acc1 + flush(pend1),
        ),
{
    lemma_find_from(s, j + 1, "\n"@);
}

proof fn lemma_lex_block_err_extract(s: Seq<char>, i: int, pending: Seq<char>, acc: Seq<TokenV>, j: int, d: Delimiter, e: LexErrV)
    requires
        0 <= i < s.len(),
        j == skip_ws(s, i),
        j < s.len(),
        spec_extract(s, j, "<#"@, "#>"@) is None,
        !match_at(s, j, "#"@),
        first_delim(s, j) == Some(d),
        spec_extract(s, j, delim_open(d), delim_close(d)) == Some(Err::<(int, int), LexErrV>(e)),
    ensures
        spec_lex(s, i, pending, acc) == Err::<Seq<TokenV>, LexErrV>(e),
{
}

proof fn lemma_lex_block_err_inner(s: Seq<char>, i: int, pending: Seq<char>, acc: Seq<TokenV>, j: int, d: Delimiter, p: int, after: int, e: LexErrV)
    requires
        0 <= i < s.len(),
        j == skip_ws(s, i),
        j < s.len(),
        spec_extract(s, j, "<#"@, "#>"@) is None,
        !match_at(s, j, "#"@),
        first_delim(s, j) == Some(d),
        spec_extract(s, j, delim_open(d), delim_close(d)) == Some(Ok::<(int, int), LexErrV>((p, after))),
        spec_lex(s.subrange(j + 1, p), 0, Seq::empty(), Seq::empty()) == Err::<Seq<TokenV>, LexErrV>(e),
    ensures
        spec_lex(s, i, pending, acc) == Err::<Seq<TokenV>, LexErrV>(e),
{
}

proof fn lemma_lex_block(s: Seq<char>, i: int, pending: Seq<char>, acc: Seq<TokenV>, j: int, acc1: Seq<TokenV>, pend1: Seq<char>, d: Delimiter, p: int, after: int, children: Seq<TokenV>)
    requires
        0 <= i < s.len(),
        j == skip_ws(s, i),
        acc1 == if j > i { acc + flush(pending) } else { acc },
        pend1 == if j > i { Seq::<char>::empty() } else { pending },
        j < s.len(),
        spec_extract(s, j, "<#"@, "#>"@) is None,
        !match_at(s, j, "#"@),
        first_delim(s, j) == Some(d),
        spec_extract(s, j, delim_open(d), delim_close(d)) == Some(Ok::<(int, int), LexErrV>((p, after))),
        spec_lex(s.subrange(j + 1, p), 0, Seq::empty(), Seq::empty()) == Ok::<Seq<TokenV>, LexErrV>(children),
    ensures
        spec_lex(s, i, pending, acc) == spec_lex(
            s,
            after,
            Seq::empty(),
            acc1 + flush(pend1) + seq![TokenV::Block { delimiter: d, tokentree: children }],
        ),
{
    lemma_skip_ws_bounds(s, i);
    assert(delim_open(d).len() > 0 && delim_close(d).len() > 0) by {
        reveal_strlit("{");
        reveal_strlit("}");
        reveal_strlit("(");
        reveal_strlit(")");
        reveal_strlit("[");
        reveal_strlit("]");
        reveal_strlit("<");
        reveal_strlit(">");
    }
    lemma_extract_bounds(s, j, delim_open(d), delim_close(d));
}

proof fn lemma_lex_table(s: Seq<char>, i: int, pending: Seq<char>, acc: Seq<TokenV>, j: int, acc1: Seq<TokenV>, pend1: Seq<char>, m: int)
    requires
        0 <= i < s.len(),
        j == skip_ws(s, i),
        acc1 == if j > i { acc + flush(pending) } else { acc },
        pend1 == if j > i { Seq::<char>::empty() } else { pending },
        j < s.len(),
        spec_extract(s, j, "<#"@, "#>"@) is None,
        !match_at(s, j, "#"@),
        first_delim(s, j) is None,
        table_match(s, j, pend1.len() == 0) == Some(m),
    ensures
        spec_lex(s, i, pending, acc) == spec_lex(
            s,
            j + table_pat(m).len(),
            Seq::empty(),
            acc1 + flush(pend1) + seq![table_tok(m)],
        ),
{
    lemma_table_match_from(s, j, pend1.len() == 0, 0);
}

proof fn lemma_lex_ident_start(s: Seq<char>, i: int, pending: Seq<char>, acc: Seq<TokenV>, j: int, acc1: Seq<TokenV>, pend1: Seq<char>)
    requires
        0 <= i < s.len(),
        j == skip_ws(s, i),
        acc1 == if j > i { acc + flush(pending) } else { acc },
        pend1 == if j > i { Seq::<char>::empty() } else { pending },
        j < s.len(),
        spec_extract(s, j, "<#"@, "#>"@) is None,
        !match_at(s, j, "#"@),
        first_delim(s, j) is None,
        table_match(s, j, pend1.len() == 0) is None,
        pend1.len() == 0,
        xid_start(s[j]),
    ensures
        spec_lex(s, i, pending, acc) == spec_lex(s, j + 1, seq![s[j]], acc1),
{
    lemma_skip_ws_bounds(s, i);
}

proof fn lemma_lex_classify_ok(s: Seq<char>, i: int, pending: Seq<char>, acc: Seq<TokenV>, j: int, acc1: Seq<TokenV>, pend1: Seq<char>, lit: crate::lexer::tokens::LiteralV, after: int)
    requires
        0 <= i < s.len(),
        j == skip_ws(s, i),
        acc1 == if j > i { acc + flush(pending) } else { acc },
        pend1 == if j > i { Seq::<char>::empty() } else { pending },
        j < s.len(),
        spec_extract(s, j, "<#"@, "#>"@) is None,
        !match_at(s, j, "#"@),
        first_delim(s, j) is None,
        table_match(s, j, pend1.len() == 0) is None,
        pend1.len() == 0,
        !xid_start(s[j]),
        spec_classify(s, j) == Ok::<(crate::lexer::tokens::LiteralV, int), LexErrV>((lit, after)),
    ensures
        spec_lex(s, i, pending, acc) == spec_lex(
            s,
            after,
            Seq::empty(),
            acc1 + seq![TokenV::Literal(lit)],
        ),
{
    lemma_skip_ws_bounds(s, i);
    lemma_classify_bounds(s, j);
}

proof fn lemma_lex_classify_err(s: Seq<char>, i: int, pending: Seq<char>, acc: Seq<TokenV>, j: int, pend1: Seq<char>, e: LexErrV)
    requires
        0 <= i < s.len(),
        j == skip_ws(s, i),
        pend1 == if j > i { Seq::<char>::empty() } else { pending },
        j < s.len(),
        spec_extract(s, j, "<#"@, "#>"@) is None,
        !match_at(s, j, "#"@),
        first_delim(s, j) is None,
        table_match(s, j, pend1.len() == 0) is None,
        pend1.len() == 0,
        !xid_start(s[j]),
        spec_classify(s, j) == Err::<(crate::lexer::tokens::LiteralV, int), LexErrV>(e),
    ensures
        spec_lex(s, i, pending, acc) == Err::<Seq<TokenV>, LexErrV>(e),
{
    lemma_skip_ws_bounds(s, i);
}

proof fn lemma_lex_ident_cont(s: Seq<char>, i: int, pending: Seq<char>, acc: Seq<TokenV>, j: int, acc1: Seq<TokenV>, pend1: Seq<char>)
    requires
        0 <= i < s.len(),
        j == skip_ws(s, i),
        acc1 == if j > i { acc + flush(pending) } else { acc },
        pend1 == if j > i { Seq::<char>::empty() } else { pending },
        j < s.len(),
        spec_extract(s, j, "<#"@, "#>"@) is None,
        !match_at(s, j, "#"@),
        first_delim(s, j) is None,
        table_match(s, j, pend1.len() == 0) is None,
        pend1.len() > 0,
        xid_continue(s[j]),
    ensures
        spec_lex(s, i, pending, acc) == spec_lex(s, j + 1, pend1.push(s[j]), acc1),
{
    lemma_skip_ws_bounds(s, i);
}

proof fn lemma_lex_ident_flush(s: Seq<char>, i: int, pending: Seq<char>, acc: Seq<TokenV>, j: int, acc1: Seq<TokenV>, pend1: Seq<char>)
    requires
        0 <= i < s.len(),
        j == skip_ws(s, i),
        acc1 == if j > i { acc + flush(pending) } else { acc },
        pend1 == if j > i { Seq::<char>::empty() } else { pending },
        j < s.len(),
        spec_extract(s, j, "<#"@, "#>"@) is None,
        !match_at(s, j, "#"@),
        first_delim(s, j) is None,
        table_match(s, j, pend1.len() == 0) is None,
        pend1.len() > 0,
        !xid_continue(s[j]),
    ensures
        spec_lex(s, i, pending, acc) == spec_lex(s, j, Seq::empty(), acc1 + seq![TokenV::Ident(pend1)]),
{
    lemma_skip_ws_bounds(s, i);
}

/// Performs one round of the scan loop.  On success the new cursor, pending
/// identifier and token list stand for the same final outcome as the old
/// ones, and the round made progress; on an error, that error is the outcome.
#[verifier::loop_isolation(false)]
#[verifier::rlimit(60)]
fn lex_step(walker: &mut StrWalker<'_>, tokens: &mut Vec<Token>, pending: &mut Vec<char>) -> (r:
    Result<(), LexErr>)
    requires
        old(walker).wf(),
        old(walker).pos() < old(walker).text().len(),
    ensures
        final(walker).wf(),
        final(walker).text() == old(walker).text(),
        0 <= final(walker).pos() <= final(walker).text().len(),
        match r {
            Ok(()) => spec_lex(
                old(walker).text(),
                old(walker).pos(),
                old(pending)@,
                tokens_view(old(tokens)@),
            ) == spec_lex(
                old(walker).text(),
                final(walker).pos(),
                final(pending)@,
                tokens_view(final(tokens)@),
            ) && (final(walker).pos() > old(walker).pos() || (final(walker).pos() == old(
                walker,
            ).pos() && final(pending)@.len() < old(pending)@.len())),
            Err(e) => spec_lex(
                old(walker).text(),
                old(walker).pos(),
                old(pending)@,
                tokens_view(old(tokens)@),
            ) == Err::<Seq<TokenV>, LexErrV>(e@),
        },
    decreases old(walker).text().len(), 0int, 1int,
{
    let ghost s = old(walker).text();
    let ghost i0 = old(walker).pos();
    let ghost pend0 = old(pending)@;
    let ghost acc0 = tokens_view(old(tokens)@);
    proof {
        crate::lexer::str_walker::lemma_pos_bounds(walker);
        reveal_strlit("<#");
        reveal_strlit("#>");
        reveal_strlit("#");
        reveal_strlit("\n");
        reveal_strlit("{");
        reveal_strlit("}");
        reveal_strlit("(");
        reveal_strlit(")");
        reveal_strlit("[");
        reveal_strlit("]");
        reveal_strlit("<");
        reveal_strlit(">");
        lemma_skip_ws_bounds(s, i0);
        if white_space(s[i0]) {
            lemma_skip_ws_bounds(s, i0 + 1);
        }
    }
    let ghost j = skip_ws(s, i0);
    // Whitespace ends a pending identifier.
    let c0 = walker.char_at(walker.position());
    if pending.len() > 0 && is_whitespace_char(c0) {
        flush_pending(tokens, pending);
    }
    walker.jump_whitespace();
    let ghost acc1 = if j > i0 { acc0 + flush(pend0) } else { acc0 };
    let ghost pend1 = if j > i0 { Seq::<char>::empty() } else { pend0 };
    proof {
        assert(tokens_view(tokens@) =~= acc1);
        assert(pending@ == pend1);
    }
    if walker.reached_end() {
        proof {
            lemma_lex_ws_end(s, i0, pend0, acc0, j, acc1, pend1);
            lemma_lex_at_end(s, j, pend1, acc1);
        }
        return Ok(());
    }
    // Block comments are discarded.
    match walker.get_between_recursive("<#", "#>") {
        Some(Err(e)) => {
            proof {
                lemma_pos_bounds(walker);
                lemma_lex_comment_err(s, i0, pend0, acc0, j, e@);
            }
            return Err(e);
        },
        Some(Ok(_comment)) => {
            let ghost (p, after) = spec_extract(s, j, "<#"@, "#>"@).unwrap()->Ok_0;
            flush_pending(tokens, pending);
            proof {
                lemma_extract_bounds(s, j, "<#"@, "#>"@);
                lemma_lex_comment(s, i0, pend0, acc0, j, acc1, pend1, p, after);
            }
            return Ok(());
        },
        None => {},
    }
    // Line comments run to the end of the line.
    if walker.currently_starts_with("#") {
        flush_pending(tokens, pending);
        proof {
            lemma_find_from(s, j + 1, "\n"@);
        }
        walker.jump_to_next("\n");
        proof {
            lemma_lex_line_comment(s, i0, pend0, acc0, j, acc1, pend1);
        }
        return Ok(());
    }
    // Delimited blocks are tokenized recursively.
    if let Some(r) = lex_block(walker, tokens, pending, "{", "}", Delimiter::CurlyBraces, Ghost(
        (i0, pend0, acc0, acc1, pend1),
    )) {
        return r;
    }
    if let Some(r) = lex_block(walker, tokens, pending, "(", ")", Delimiter::Parentheses, Ghost(
        (i0, pend0, acc0, acc1, pend1),
    )) {
        return r;
    }
    if let Some(r) = lex_block(walker, tokens, pending, "[", "]", Delimiter::SquareBrackets, Ghost(
        (i0, pend0, acc0, acc1, pend1),
    )) {
        return r;
    }
    if let Some(r) = lex_block(walker, tokens, pending, "<", ">", Delimiter::AngleBrackets, Ghost(
        (i0, pend0, acc0, acc1, pend1),
    )) {
        return r;
    }
    assert(first_delim(s, j) is None);
    // The keyword/operator table.
    let pe = pending.len() == 0;
    proof {
        lemma_table_match_from(s, j, pe, 0);
    }
    match match_token(walker, pe) {
        Some((plen, t)) => {
            let ghost m = table_match(s, j, pe).unwrap();
            flush_pending(tokens, pending);
            walker.jump_by(plen);
            proof {
                lemma_tokens_view_push(tokens@, t);
                lemma_lex_table(s, i0, pend0, acc0, j, acc1, pend1, m);
                assert(tokens_view(tokens@).push(crate::lexer::tokens::token_view(t)) =~= acc1
                    + flush(pend1) + seq![table_tok(m)]);
            }
            tokens.push(t);
            return Ok(());
        },
        None => {},
    }
    // A single character: identifier accumulation, or the literal classifier.
    let c = walker.char_at(walker.position());
    if pending.len() == 0 {
        if is_xid_start(c) {
            pending.push(c);
            walker.jump_by(1);
            proof {
                lemma_lex_ident_start(s, i0, pend0, acc0, j, acc1, pend1);
                assert(pending@ =~= seq![s[j]]);
            }
        } else {
            proof {
                lemma_classify_bounds(s, j);
            }
            match parse_literals(walker) {
                Err(e) => {
                    proof {
                        lemma_pos_bounds(walker);
                        lemma_lex_classify_err(s, i0, pend0, acc0, j, pend1, e@);
                    }
                    return Err(e);
                },
                Ok(lit) => {
                    let ghost (lv, after) = spec_classify(s, j)->Ok_0;
                    let tok = Token::Literal(lit);
                    proof {
                        lemma_tokens_view_push(tokens@, tok);
                        lemma_lex_classify_ok(s, i0, pend0, acc0, j, acc1, pend1, lv, after);
                        assert(tokens_view(tokens@).push(crate::lexer::tokens::token_view(tok))
                            =~= acc1 + seq![TokenV::Literal(lv)]);
                    }
                    tokens.push(tok);
                },
            }
        }
    } else {
        if is_xid_continue(c) {
            pending.push(c);
            walker.jump_by(1);
            proof {
                lemma_lex_ident_cont(s, i0, pend0, acc0, j, acc1, pend1);
                assert(pending@ =~= pend1.push(s[j]));
            }
        } else {
            flush_pending(tokens, pending);
            proof {
                lemma_lex_ident_flush(s, i0, pend0, acc0, j, acc1, pend1);
                assert(tokens_view(tokens@) =~= acc1 + seq![TokenV::Ident(pend1)]);
            }
        }
    }
    Ok(())
}

/// Tries one delimiter pair at the cursor.  `None` means the pair's opening
/// text does not occur here and the scan should try the next pair; otherwise
/// the round is decided: either a block token was appended or an error is the
/// outcome.
#[verifier::rlimit(60)]
fn lex_block(
    walker: &mut StrWalker<'_>,
    tokens: &mut Vec<Token>,
    pending: &mut Vec<char>,
    open: &str,
    close: &str,
    d: Delimiter,
    Ghost(g): Ghost<(int, Seq<char>, Seq<TokenV>, Seq<TokenV>, Seq<char>)>,
) -> (r: Option<Result<(), LexErr>>)
    requires
        old(walker).wf(),
        ({
            let (i0, pend0, acc0, acc1, pend1) = g;
            let s = old(walker).text();
            let j = old(walker).pos();
            &&& 0 <= i0 < s.len()
            &&& j == skip_ws(s, i0)
            &&& j < s.len()
            &&& acc1 == if j > i0 { acc0 + flush(pend0) } else { acc0 }
            &&& pend1 == if j > i0 { Seq::<char>::empty() } else { pend0 }
            &&& tokens_view(old(tokens)@) == acc1
            &&& old(pending)@ == pend1
            &&& spec_extract(s, j, "<#"@, "#>"@) is None
            &&& !match_at(s, j, "#"@)
            &&& open@ == delim_open(d)
            &&& close@ == delim_close(d)
            &&& open@.len() == 1
            &&& close@.len() == 1
            &&& match_at(s, j, open@) ==> first_delim(s, j) == Some(d)
        }),
    ensures
        final(walker).wf(),
        final(walker).text() == old(walker).text(),
        0 <= final(walker).pos() <= final(walker).text().len(),
        ({
            let (i0, pend0, acc0, acc1, pend1) = g;
            let s = old(walker).text();
            let j = old(walker).pos();
            match r {
                None => final(walker).pos() == old(walker).pos() && final(tokens)@ == old(
                    tokens,
                )@ && final(pending)@ == old(pending)@ && !match_at(s, j, open@),
                Some(Ok(())) => 0 <= final(walker).pos() <= s.len() && final(walker).pos() > i0
                    && final(pending)@.len() == 0 && spec_lex(s, i0, pend0, acc0) == spec_lex(
                    s,
                    final(walker).pos(),
                    final(pending)@,
                    tokens_view(final(tokens)@),
                ),
                Some(Err(e)) => spec_lex(s, i0, pend0, acc0) == Err::<Seq<TokenV>, LexErrV>(e@),
            }
        }),
    decreases old(walker).text().len(), 0int, 0int,
{
    let ghost (i0, pend0, acc0, acc1, pend1) = g;
    let ghost s = old(walker).text();
    let ghost j = old(walker).pos();
    proof {
        lemma_pos_bounds(walker);
        lemma_skip_ws_bounds(s, i0);
        lemma_extract_bounds(s, j, open@, close@);
    }
    match walker.get_between_recursive(open, close) {
        None => {
            proof {
                lemma_pos_bounds(walker);
            }
            None
        },
        Some(Err(e)) => {
            proof {
                lemma_pos_bounds(walker);
                lemma_lex_block_err_extract(s, i0, pend0, acc0, j, d, e@);
            }
            Some(Err(e))
        },
        Some(Ok(sub)) => {
            let ghost pq = spec_extract(s, j, open@, close@).unwrap()->Ok_0;
            let ghost p = pq.0;
            let ghost after = pq.1;
            flush_pending(tokens, pending);
            proof {
                assert(sub@ == s.subrange(j + 1, p));
                assert(sub@.len() < s.len());
            }
            match TokenTree::tokenize(sub.as_str()) {
                Err(e) => {
                    proof {
                        lemma_pos_bounds(walker);
                        lemma_lex_block_err_inner(s, i0, pend0, acc0, j, d, p, after, e@);
                    }
                    Some(Err(e))
                },
                Ok(tt) => {
                    let tok = Token::Block { delimiter: d, tokentree: tt };
                    proof {
                        lemma_pos_bounds(walker);
                        lemma_tokens_view_push(tokens@, tok);
                        lemma_lex_block(s, i0, pend0, acc0, j, acc1, pend1, d, p, after, tt@);
                        assert(tokens_view(tokens@).push(crate::lexer::tokens::token_view(tok))
                            =~= acc1 + flush(pend1) + seq![
                            TokenV::Block { delimiter: d, tokentree: tt@ },
                        ]);
                    }
                    tokens.push(tok);
                    Some(Ok(()))
                },
            }
        },
    }
}

/// Purity: the outcome of tokenization depends on the characters of the
/// input alone, so tokenizing the same text twice yields identical results.
/// Every call of `tokenize` returns exactly `spec_tokenize` of its input's
/// characters, and that is a function.
pub proof fn lemma_tokenize_pure(a: Seq<char>, b: Seq<char>)
    requires
        a == b,
    ensures
        spec_tokenize(a) == spec_tokenize(b),
{
}

/// Dropping the front commutes with taking views.
proof fn lemma_tokens_view_drop_first(s: Seq<Token>)
    requires
        s.len() > 0,
    ensures
        tokens_view(s.drop_first()) == tokens_view(s).drop_first(),
{
    crate::lexer::tokens::lemma_tokens_view_len(s);
    crate::lexer::tokens::lemma_tokens_view_len(s.drop_first());
    assert forall|i: int| 0 <= i < s.len() - 1 implies tokens_view(s.drop_first())[i] == tokens_view(
        s,
    ).drop_first()[i] by {
        crate::lexer::tokens::lemma_tokens_view_index(s.drop_first(), i);
        crate::lexer::tokens::lemma_tokens_view_index(s, i + 1);
    }
    assert(tokens_view(s.drop_first()) =~= tokens_view(s).drop_first());
}

} // verus!
