//! Balance laws for the tokenizer.
//!
//! A text that consists of nothing but well-formed, fully matched delimiter
//! pairs is modelled by a forest of `DelimTree`s.  Rendering such a forest
//! gives exactly the texts the balance laws speak of: tokenizing a rendered
//! forest always succeeds, with one block token per tree, and an opened
//! delimiter that is never closed before the end of the input makes
//! tokenization fail with an unbalanced-nesting error naming exactly that
//! delimiter's pair.

use vstd::prelude::*;

use crate::lexer::str_walker::{match_at, scan_close, skip_ws, spec_extract, white_space};
use crate::lexer::tokens::{Delimiter, TokenV, delim_close, delim_open, first_delim};
use crate::lexer::{LexErrV, flush, spec_lex, spec_tokenize};

verus! {

/// A nested, fully matched delimiter pair: its kind, and the pairs nested
/// directly inside it, in order.
pub struct DelimTree {
    pub delimiter: Delimiter,
    pub children: Seq<DelimTree>,
}

/// The opening character of a delimiter pair.
pub open spec fn open_char(d: Delimiter) -> char {
    match d {
        Delimiter::CurlyBraces => '{',
        Delimiter::Parentheses => '(',
        Delimiter::SquareBrackets => '[',
        Delimiter::AngleBrackets => '<',
    }
}

/// The closing character of a delimiter pair.
pub open spec fn close_char(d: Delimiter) -> char {
    match d {
        Delimiter::CurlyBraces => '}',
        Delimiter::Parentheses => ')',
        Delimiter::SquareBrackets => ']',
        Delimiter::AngleBrackets => '>',
    }
}

/// The text of one fully matched pair: its opening character, the rendered
/// contents, and its closing character.
pub open spec fn render_tree(t: DelimTree) -> Seq<char>
    decreases t,
{
    seq![open_char(t.delimiter)] + render_forest(t.children) + seq![close_char(t.delimiter)]
}

/// The text of a sequence of fully matched pairs, in order.
pub open spec fn render_forest(f: Seq<DelimTree>) -> Seq<char>
    decreases f,
{
    if f.len() == 0 {
        Seq::empty()
    } else {
        render_tree(f[0]) + render_forest(f.drop_first())
    }
}

/// The token that one fully matched pair tokenizes to: a block holding its
/// children's blocks.
pub open spec fn tree_token(t: DelimTree) -> TokenV
    decreases t,
{
    TokenV::Block { delimiter: t.delimiter, tokentree: forest_tokens(t.children) }
}

/// The tokens that a sequence of fully matched pairs tokenizes to.
pub open spec fn forest_tokens(f: Seq<DelimTree>) -> Seq<TokenV>
    decreases f,
{
    if f.len() == 0 {
        seq![]
    } else {
        seq![tree_token(f[0])] + forest_tokens(f.drop_first())
    }
}

/// The delimiter texts are the single bracket characters.
proof fn lemma_delim_chars(d: Delimiter)
    ensures
        delim_open(d) == seq![open_char(d)],
        delim_close(d) == seq![close_char(d)],
{
    reveal_strlit("{");
    reveal_strlit("}");
    reveal_strlit("(");
    reveal_strlit(")");
    reveal_strlit("[");
    reveal_strlit("]");
    reveal_strlit("<");
    reveal_strlit(">");
    assert(delim_open(d) =~= seq![open_char(d)]);
    assert(delim_close(d) =~= seq![close_char(d)]);
}

/// A one-character pattern occurs at `p` exactly when that character stands
/// there.
proof fn lemma_match_one(s: Seq<char>, p: int, c: char)
    requires
        0 <= p < s.len(),
    ensures
        match_at(s, p, seq![c]) == (s[p] == c),
{
    if s[p] == c {
        assert(s.subrange(p, p + 1) =~= seq![c]);
    } else {
        if match_at(s, p, seq![c]) {
            assert(s.subrange(p, p + 1)[0] == c);
        }
    }
}

/// Scanning for the close of pair `d` passes over a rendered forest without
/// any net change to the nesting counter.
proof fn lemma_scan_over_forest(s: Seq<char>, i: int, f: Seq<DelimTree>, d: Delimiter, n: nat)
    requires
        0 <= i,
        i + render_forest(f).len() <= s.len(),
        s.subrange(i, i + render_forest(f).len()) == render_forest(f),
        n >= 1,
    ensures
        scan_close(s, i, seq![open_char(d)], seq![close_char(d)], n) == scan_close(
            s,
            i + render_forest(f).len(),
            seq![open_char(d)],
            seq![close_char(d)],
            n,
        ),
    decreases f,
{
    let o = open_char(d);
    let c = close_char(d);
    if f.len() > 0 {
        let t = f[0];
        let w = render_forest(f);
        let inner = render_forest(t.children);
        let tw = render_tree(t);
        let op = open_char(t.delimiter);
        let cl = close_char(t.delimiter);
        assert(tw == seq![op] + inner + seq![cl]);
        assert(w == tw + render_forest(f.drop_first()));
        // Positions of the pieces of the first tree.
        assert(s[i] == op) by {
            assert(w[0] == op);
            assert(s.subrange(i, i + w.len())[0] == w[0]);
        }
        let p_close = i + 1 + inner.len();
        assert(s[p_close] == cl) by {
            assert(w[1 + inner.len() as int] == tw[1 + inner.len() as int]);
            assert(tw[1 + inner.len() as int] == cl);
            assert(s.subrange(i, i + w.len())[1 + inner.len() as int] == w[1 + inner.len() as int]);
        }
        assert(s.subrange(i + 1, i + 1 + inner.len()) =~= inner) by {
            assert forall|q: int| 0 <= q < inner.len() implies s.subrange(
                i + 1,
                i + 1 + inner.len(),
            )[q] == inner[q] by {
                assert(s.subrange(i, i + w.len())[1 + q] == w[1 + q]);
                assert(w[1 + q] == tw[1 + q]);
                assert(tw[1 + q] == inner[q]);
            }
        }
        lemma_match_one(s, i, o);
        lemma_match_one(s, i, c);
        lemma_match_one(s, p_close, o);
        lemma_match_one(s, p_close, c);
        if t.delimiter == d {
            // The tree opens the scanned pair itself: the counter rises by
            // one over the open, is carried across the contents, and falls
            // back at the close, which cannot be the final one.
            assert(scan_close(s, i, seq![o], seq![c], n) == scan_close(s, i + 1, seq![o], seq![c], n + 1));
            lemma_scan_over_forest(s, i + 1, t.children, d, n + 1);
            assert(scan_close(s, p_close, seq![o], seq![c], n + 1) == scan_close(
                s,
                p_close + 1,
                seq![o],
                seq![c],
                n,
            ));
        } else {
            // A different pair: its brackets are neither the scanned open
            // nor the scanned close and are stepped over one by one.
            assert(op != o && op != c && cl != o && cl != c);
            assert(scan_close(s, i, seq![o], seq![c], n) == scan_close(s, i + 1, seq![o], seq![c], n));
            lemma_scan_over_forest(s, i + 1, t.children, d, n);
            assert(scan_close(s, p_close, seq![o], seq![c], n) == scan_close(
                s,
                p_close + 1,
                seq![o],
                seq![c],
                n,
            ));
        }
        // The rest of the forest follows right after the first tree.
        assert(s.subrange(p_close + 1, i + w.len()) =~= render_forest(f.drop_first())) by {
            assert forall|q: int| 0 <= q < render_forest(f.drop_first()).len() implies s.subrange(
                p_close + 1,
                i + w.len(),
            )[q] == render_forest(f.drop_first())[q] by {
                assert(s.subrange(i, i + w.len())[tw.len() as int + q] == w[tw.len() as int + q]);
                assert(w[tw.len() as int + q] == render_forest(f.drop_first())[q]);
            }
        }
        lemma_scan_over_forest(s, p_close + 1, f.drop_first(), d, n);
    }
}


/// A nonempty rendered forest starts with the opening bracket of its first
/// tree and is at least two characters long.
proof fn lemma_render_shape(f: Seq<DelimTree>)
    requires
        f.len() > 0,
    ensures
        render_forest(f).len() >= 2,
        render_forest(f)[0] == open_char(f[0].delimiter),
        render_tree(f[0]).len() == 2 + render_forest(f[0].children).len(),
{
    let tw = render_tree(f[0]);
    assert(tw == seq![open_char(f[0].delimiter)] + render_forest(f[0].children) + seq![
        close_char(f[0].delimiter),
    ]);
    assert(render_forest(f) == tw + render_forest(f.drop_first()));
    assert(tw[0] == open_char(f[0].delimiter));
    assert(render_forest(f)[0] == tw[0]);
}

/// No bracket character is the comment or line-comment marker, an identifier
/// character, or whitespace; in particular the text at a bracket can only be
/// read as that bracket's own delimiter.
proof fn lemma_bracket_char_facts(d: Delimiter)
    ensures
        open_char(d) != '#',
        close_char(d) != '#',
        !white_space(open_char(d)),
        !white_space(close_char(d)),
{
}

/// The scan loop turns a rendered forest, standing at position `i` with
/// nothing pending, into one block token per tree and moves past it.
pub proof fn lemma_lex_forest_prefix(s: Seq<char>, i: int, f: Seq<DelimTree>, acc: Seq<TokenV>)
    requires
        0 <= i,
        i + render_forest(f).len() <= s.len(),
        s.subrange(i, i + render_forest(f).len()) == render_forest(f),
    ensures
        spec_lex(s, i, Seq::empty(), acc) == spec_lex(
            s,
            i + render_forest(f).len(),
            Seq::empty(),
            acc + forest_tokens(f),
        ),
    decreases f,
{
    reveal_strlit("<#");
    reveal_strlit("#");
    if f.len() == 0 {
        assert(acc + forest_tokens(f) =~= acc);
    } else {
        let t = f[0];
        let d = t.delimiter;
        let w = render_forest(f);
        let inner = render_forest(t.children);
        let tw = render_tree(t);
        let op = open_char(d);
        let cl = close_char(d);
        lemma_render_shape(f);
        lemma_delim_chars(d);
        lemma_bracket_char_facts(d);
        assert(tw == seq![op] + inner + seq![cl]);
        assert(w == tw + render_forest(f.drop_first()));
        assert(s[i] == op) by {
            assert(s.subrange(i, i + w.len())[0] == w[0]);
        }
        let p_close = i + 1 + inner.len();
        assert(s[p_close] == cl) by {
            assert(w[1 + inner.len() as int] == tw[1 + inner.len() as int]);
            assert(tw[1 + inner.len() as int] == cl);
            assert(s.subrange(i, i + w.len())[1 + inner.len() as int] == w[1 + inner.len() as int]);
        }
        assert(s.subrange(i + 1, i + 1 + inner.len()) =~= inner) by {
            assert forall|q: int| 0 <= q < inner.len() implies s.subrange(
                i + 1,
                i + 1 + inner.len(),
            )[q] == inner[q] by {
                assert(s.subrange(i, i + w.len())[1 + q] == w[1 + q]);
                assert(w[1 + q] == tw[1 + q]);
                assert(tw[1 + q] == inner[q]);
            }
        }
        // Nothing is skipped and no comment or line comment starts here.
        assert(skip_ws(s, i) == i);
        assert(!match_at(s, i, "#"@)) by {
            if match_at(s, i, "#"@) {
                assert(s.subrange(i, i + 1)[0] == '#');
            }
        }
        assert(!match_at(s, i, "<#"@)) by {
            if match_at(s, i, "<#"@) {
                assert(s.subrange(i, i + 2)[1] == '#');
                assert(s[i + 1] == '#');
                lemma_second_char_is_bracket(s, i, f);
            }
        }
        assert(spec_extract(s, i, "<#"@, "#>"@) is None);
        // The opening bracket picks this tree's delimiter pair.
        lemma_delim_chars(Delimiter::CurlyBraces);
        lemma_delim_chars(Delimiter::Parentheses);
        lemma_delim_chars(Delimiter::SquareBrackets);
        lemma_delim_chars(Delimiter::AngleBrackets);
        lemma_match_one(s, i, '{');
        lemma_match_one(s, i, '(');
        lemma_match_one(s, i, '[');
        lemma_match_one(s, i, '<');
        assert(first_delim(s, i) == Some(d));
        // The extraction finds the matching close right after the contents.
        lemma_match_one(s, i, op);
        lemma_scan_over_forest(s, i + 1, t.children, d, 1);
        lemma_match_one(s, p_close, op);
        lemma_match_one(s, p_close, cl);
        assert(scan_close(s, p_close, seq![op], seq![cl], 1) == Some(p_close));
        assert(spec_extract(s, i, delim_open(d), delim_close(d)) == Some(
            Ok::<(int, int), LexErrV>((p_close, p_close + 1)),
        ));
        // The contents tokenize to the children's blocks.
        let interior = s.subrange(i + 1, p_close);
        assert(interior.subrange(0, interior.len() as int) =~= interior);
        lemma_lex_forest_prefix(interior, 0, t.children, Seq::empty());
        crate::lexer::lemma_lex_at_end(
            interior,
            interior.len() as int,
            Seq::empty(),
            Seq::empty() + forest_tokens(t.children),
        );
        assert(Seq::<TokenV>::empty() + forest_tokens(t.children) + flush(Seq::<char>::empty())
            =~= forest_tokens(t.children));
        assert(spec_lex(interior, 0, Seq::empty(), Seq::empty()) == Ok::<
            Seq<TokenV>,
            LexErrV,
        >(forest_tokens(t.children)));
        crate::lexer::lemma_lex_block(
            s,
            i,
            Seq::empty(),
            acc,
            i,
            acc,
            Seq::empty(),
            d,
            p_close,
            p_close + 1,
            forest_tokens(t.children),
        );
        // And the rest of the forest follows.
        assert(s.subrange(p_close + 1, i + w.len()) =~= render_forest(f.drop_first())) by {
            assert forall|q: int| 0 <= q < render_forest(f.drop_first()).len() implies s.subrange(
                p_close + 1,
                i + w.len(),
            )[q] == render_forest(f.drop_first())[q] by {
                assert(s.subrange(i, i + w.len())[tw.len() as int + q] == w[tw.len() as int + q]);
                assert(w[tw.len() as int + q] == render_forest(f.drop_first())[q]);
            }
        }
        let block = TokenV::Block { delimiter: d, tokentree: forest_tokens(t.children) };
        assert(acc + flush(Seq::<char>::empty()) + seq![block] =~= acc + seq![block]);
        lemma_lex_forest_prefix(s, p_close + 1, f.drop_first(), acc + seq![block]);
        assert(acc + seq![block] + forest_tokens(f.drop_first()) =~= acc + forest_tokens(f)) by {
            assert(forest_tokens(f) == seq![tree_token(f[0])] + forest_tokens(f.drop_first()));
            assert(tree_token(f[0]) == block);
        }
    }
}

/// The character after a tree's opening bracket is again a bracket.
proof fn lemma_second_char_is_bracket(s: Seq<char>, i: int, f: Seq<DelimTree>)
    requires
        f.len() > 0,
        0 <= i,
        i + render_forest(f).len() <= s.len(),
        s.subrange(i, i + render_forest(f).len()) == render_forest(f),
    ensures
        s[i + 1] != '#',
{
    let t = f[0];
    let w = render_forest(f);
    let inner = render_forest(t.children);
    let tw = render_tree(t);
    lemma_render_shape(f);
    assert(tw == seq![open_char(t.delimiter)] + inner + seq![close_char(t.delimiter)]);
    assert(w == tw + render_forest(f.drop_first()));
    assert(s[i + 1] == w[1]) by {
        assert(s.subrange(i, i + w.len())[1] == w[1]);
    }
    if inner.len() == 0 {
        assert(w[1] == close_char(t.delimiter));
        lemma_bracket_char_facts(t.delimiter);
    } else {
        assert(w[1] == inner[0]);
        lemma_render_shape(t.children);
        lemma_bracket_char_facts(t.children[0].delimiter);
    }
}

/// Balance closure: a text that holds nothing but well-formed, fully
/// matched delimiter pairs always tokenizes successfully, into one block
/// token per pair; in particular no unbalanced-nesting error is reported.
pub proof fn lemma_balance_closure(f: Seq<DelimTree>)
    ensures
        spec_tokenize(render_forest(f)) == Ok::<Seq<TokenV>, LexErrV>(forest_tokens(f)),
{
    let s = render_forest(f);
    assert(s.subrange(0, s.len() as int) =~= s);
    lemma_lex_forest_prefix(s, 0, f, Seq::empty());
    crate::lexer::lemma_lex_at_end(
        s,
        s.len() as int,
        Seq::empty(),
        Seq::empty() + forest_tokens(f),
    );
    assert(Seq::<TokenV>::empty() + forest_tokens(f) + flush(Seq::<char>::empty())
        =~= forest_tokens(f));
}

/// Unbalanced detection: when an opened delimiter is followed only by
/// matched pairs and the input ends before it is closed, tokenization fails
/// with an unbalanced-nesting error naming exactly that delimiter's pair.
pub proof fn lemma_unbalanced_detection(f1: Seq<DelimTree>, d: Delimiter, f2: Seq<DelimTree>)
    ensures
        spec_tokenize(render_forest(f1) + seq![open_char(d)] + render_forest(f2)) == Err::<
            Seq<TokenV>,
            LexErrV,
        >(LexErrV::UnbalancedNestingErr { start: delim_open(d), end: delim_close(d) }),
{
    reveal_strlit("<#");
    reveal_strlit("#");
    let s = render_forest(f1) + seq![open_char(d)] + render_forest(f2);
    let q = render_forest(f1).len() as int;
    let op = open_char(d);
    lemma_delim_chars(d);
    lemma_bracket_char_facts(d);
    assert(s.subrange(0, q) =~= render_forest(f1));
    lemma_lex_forest_prefix(s, 0, f1, Seq::empty());
    assert(s[q] == op);
    assert(skip_ws(s, q) == q);
    assert(!match_at(s, q, "#"@)) by {
        if match_at(s, q, "#"@) {
            assert(s.subrange(q, q + 1)[0] == '#');
        }
    }
    assert(!match_at(s, q, "<#"@)) by {
        if match_at(s, q, "<#"@) {
            assert(s.subrange(q, q + 2)[1] == '#');
            assert(s[q + 1] == '#');
            assert(q + 1 < s.len());
            assert(render_forest(f2).len() > 0);
            assert(s[q + 1] == render_forest(f2)[0]);
            lemma_render_shape(f2);
            lemma_bracket_char_facts(f2[0].delimiter);
        }
    }
    assert(spec_extract(s, q, "<#"@, "#>"@) is None);
    lemma_delim_chars(Delimiter::CurlyBraces);
    lemma_delim_chars(Delimiter::Parentheses);
    lemma_delim_chars(Delimiter::SquareBrackets);
    lemma_delim_chars(Delimiter::AngleBrackets);
    lemma_match_one(s, q, '{');
    lemma_match_one(s, q, '(');
    lemma_match_one(s, q, '[');
    lemma_match_one(s, q, '<');
    assert(first_delim(s, q) == Some(d));
    lemma_match_one(s, q, op);
    assert(s.subrange(q + 1, q + 1 + render_forest(f2).len()) =~= render_forest(f2));
    lemma_scan_over_forest(s, q + 1, f2, d, 1);
    assert(scan_close(s, s.len() as int, seq![open_char(d)], seq![close_char(d)], 1) is None);
    assert(spec_extract(s, q, delim_open(d), delim_close(d)) == Some(
        Err::<(int, int), LexErrV>(
            LexErrV::UnbalancedNestingErr { start: delim_open(d), end: delim_close(d) },
        ),
    ));
    crate::lexer::lemma_lex_block_err_extract(
        s,
        q,
        Seq::empty(),
        Seq::empty(),
        q,
        d,
        LexErrV::UnbalancedNestingErr { start: delim_open(d), end: delim_close(d) },
    );
}


/// A scan whose closing text never occurs ahead runs off the end of the
/// input, whatever nesting it counts on the way.
proof fn lemma_scan_no_close(s: Seq<char>, i: int, open: Seq<char>, close: Seq<char>, n: nat)
    requires
        0 <= i <= s.len(),
        open.len() > 0,
        close.len() > 0,
        forall|p: int| i <= p < s.len() ==> !match_at(s, p, close),
    ensures
        scan_close(s, i, open, close, n) is None,
    decreases s.len() - i,
{
    if i < s.len() {
        if match_at(s, i, open) {
            lemma_scan_no_close(s, i + open.len(), open, close, n + 1);
        } else {
            lemma_scan_no_close(s, i + 1, open, close, n);
        }
    }
}

/// Unbalanced comment detection: a block comment opened after a run of
/// matched delimiter pairs and never closed before the end of the input
/// makes tokenization fail naming exactly the comment pair.
pub proof fn lemma_unbalanced_comment(f1: Seq<DelimTree>, w: Seq<char>)
    requires
        forall|p: int| 0 <= p < w.len() ==> !match_at(w, p, "#>"@),
    ensures
        spec_tokenize(render_forest(f1) + "<#"@ + w) == Err::<Seq<TokenV>, LexErrV>(
            LexErrV::UnbalancedNestingErr { start: "<#"@, end: "#>"@ },
        ),
{
    reveal_strlit("<#");
    reveal_strlit("#>");
    let s = render_forest(f1) + "<#"@ + w;
    let q = render_forest(f1).len() as int;
    assert(s.subrange(0, q) =~= render_forest(f1));
    lemma_lex_forest_prefix(s, 0, f1, Seq::empty());
    assert(s[q] == '<' && s[q + 1] == '#');
    assert(skip_ws(s, q) == q);
    assert(match_at(s, q, "<#"@)) by {
        assert(s.subrange(q, q + 2) =~= "<#"@);
    }
    assert forall|p: int| q + 2 <= p < s.len() implies !match_at(s, p, "#>"@) by {
        if match_at(s, p, "#>"@) {
            let pw = p - (q + 2);
            assert(w.subrange(pw, pw + 2) =~= s.subrange(p, p + 2));
            assert(match_at(w, pw, "#>"@));
        }
    }
    lemma_scan_no_close(s, q + 2, "<#"@, "#>"@, 1);
    assert(spec_extract(s, q, "<#"@, "#>"@) == Some(
        Err::<(int, int), LexErrV>(LexErrV::UnbalancedNestingErr { start: "<#"@, end: "#>"@ }),
    ));
    crate::lexer::lemma_lex_comment_err(
        s,
        q,
        Seq::empty(),
        Seq::empty(),
        q,
        LexErrV::UnbalancedNestingErr { start: "<#"@, end: "#>"@ },
    );
}

} // verus!
