//! A cursor over source text.
//!
//! The walker borrows the input string and keeps a position counted in
//! characters, so that it always sits on a scalar-value boundary.  All
//! scanning primitives of the tokenizer live here: prefix test, whitespace
//! skip, character-by-character advance, and balanced-region extraction.

use vstd::prelude::*;
use vstd::string::StrSliceExecFns;
use vstd::string::StringExecFns;

use crate::lexer::{LexErr, LexErrV};

verus! {

/// Whether `c` starts an identifier.  Named for the result of
/// `unicode_ident::is_xid_start`, which depends on the character alone.
pub uninterp spec fn xid_start(c: char) -> bool;

/// Whether `c` may continue an identifier.  Named for the result of
/// `unicode_ident::is_xid_continue`, which depends on the character alone.
pub uninterp spec fn xid_continue(c: char) -> bool;

/// The characters with the Unicode `White_Space` property, the exact set on
/// which `char::is_whitespace` returns true.
pub open spec fn white_space(c: char) -> bool {
    let u = c as u32;
    (9 <= u && u <= 13) || u == 32 || u == 0x85 || u == 0xA0 || u == 0x1680 || (0x2000 <= u && u
        <= 0x200A) || u == 0x2028 || u == 0x2029 || u == 0x202F || u == 0x205F || u == 0x3000
}

/// Relies on `unicode_ident::is_xid_start`: true exactly on characters with
/// the Unicode `XID_Start` property.
#[verifier::external_body]
pub(crate) fn is_xid_start(c: char) -> (r: bool)
    ensures
        r == xid_start(c),
{
    unicode_ident::is_xid_start(c)
}

/// Relies on `unicode_ident::is_xid_continue`: true exactly on characters
/// with the Unicode `XID_Continue` property.
#[verifier::external_body]
pub(crate) fn is_xid_continue(c: char) -> (r: bool)
    ensures
        r == xid_continue(c),
{
    unicode_ident::is_xid_continue(c)
}

/// Relies on `char::is_whitespace`: true exactly on characters with the
/// Unicode `White_Space` property, the set written out in `white_space`.
#[verifier::external_body]
pub(crate) fn is_whitespace_char(c: char) -> (r: bool)
    ensures
        r == white_space(c),
{
    c.is_whitespace()
}

/// The pattern `pat` occurs in `s` at position `i`.
pub open spec fn match_at(s: Seq<char>, i: int, pat: Seq<char>) -> bool {
    0 <= i && i + pat.len() <= s.len() && s.subrange(i, i + pat.len()) == pat
}

/// The position of the first non-whitespace character at or after `i`, or the
/// end of `s`.
pub open spec fn skip_ws(s: Seq<char>, i: int) -> int
    decreases s.len() - i,
    when 0 <= i <= s.len()
{
    if i >= s.len() {
        i
    } else if white_space(s[i]) {
        skip_ws(s, i + 1)
    } else {
        i
    }
}

/// The first position at or after `i` where `pat` occurs in `s`.
pub open spec fn find_from(s: Seq<char>, i: int, pat: Seq<char>) -> Option<int>
    decreases s.len() - i,
    when 0 <= i <= s.len()
{
    if i >= s.len() {
        None
    } else if match_at(s, i, pat) {
        Some(i)
    } else {
        find_from(s, i + 1, pat)
    }
}

/// Scans `s` from `i` with nesting counter `n`: an occurrence of `open`
/// deepens the nesting, an occurrence of `close` closes one level, and the
/// position of the occurrence of `close` that brings the counter to zero is
/// returned.  `None` means the input ended first.
pub open spec fn scan_close(s: Seq<char>, i: int, open: Seq<char>, close: Seq<char>, n: nat) -> Option<int>
    decreases s.len() - i,
    when 0 <= i <= s.len() && open.len() > 0 && close.len() > 0
{
    if i >= s.len() {
        None
    } else if match_at(s, i, open) {
        scan_close(s, i + open.len(), open, close, n + 1)
    } else if match_at(s, i, close) {
        if n == 1 {
            Some(i)
        } else {
            scan_close(s, i + close.len(), open, close, (n - 1) as nat)
        }
    } else {
        scan_close(s, i + 1, open, close, n)
    }
}

/// What extracting a balanced region delimited by `open` and `close` at
/// position `i` yields: `None` when the text does not start with `open`
/// there; otherwise the position `p` of the matching `close` and the
/// position just past it, or an unbalanced-nesting error when the input ends
/// before the region closes.  When `open` and `close` are the same string the
/// region simply runs to the next occurrence of `close`.
pub open spec fn spec_extract(s: Seq<char>, i: int, open: Seq<char>, close: Seq<char>) -> Option<
    Result<(int, int), LexErrV>,
> {
    if !match_at(s, i, open) {
        None
    } else {
        let start = i + open.len();
        let found = if open == close {
            find_from(s, start, close)
        } else {
            scan_close(s, start, open, close, 1)
        };
        match found {
            Some(p) => Some(Ok((p, p + close.len()))),
            None => Some(
                Err(LexErrV::UnbalancedNestingErr { start: open, end: close }),
            ),
        }
    }
}

/// Where `jump_to_next` stops: the first occurrence of `pat` strictly after
/// `i`, or the end of the text.
pub open spec fn spec_jump_to_next(s: Seq<char>, i: int, pat: Seq<char>) -> int {
    if i >= s.len() {
        i
    } else {
        match find_from(s, i + 1, pat) {
            Some(p) => p,
            None => s.len() as int,
        }
    }
}

/// A found position lies at or after the start of the search and carries an
/// occurrence of the pattern.
pub proof fn lemma_find_from(s: Seq<char>, i: int, pat: Seq<char>)
    requires
        0 <= i <= s.len(),
    ensures
        match find_from(s, i, pat) {
            Some(p) => i <= p && match_at(s, p, pat),
            None => true,
        },
    decreases s.len() - i,
{
    if i < s.len() && !match_at(s, i, pat) {
        lemma_find_from(s, i + 1, pat);
    }
}

/// The close position returned by `scan_close` lies at or after the start of
/// the scan and carries an occurrence of `close`.
pub proof fn lemma_scan_close(s: Seq<char>, i: int, open: Seq<char>, close: Seq<char>, n: nat)
    requires
        0 <= i <= s.len(),
        open.len() > 0,
        close.len() > 0,
    ensures
        match scan_close(s, i, open, close, n) {
            Some(p) => i <= p && match_at(s, p, close),
            None => true,
        },
    decreases s.len() - i,
{
    if i < s.len() {
        if match_at(s, i, open) {
            lemma_scan_close(s, i + open.len(), open, close, n + 1);
        } else if match_at(s, i, close) {
            if n != 1 {
                lemma_scan_close(s, i + close.len(), open, close, (n - 1) as nat);
            }
        } else {
            lemma_scan_close(s, i + 1, open, close, n);
        }
    }
}

/// Bounds for a successful extraction: the interior lies between the consumed
/// `open` and the matching `close`, and the final position is past the close
/// but within the text.
pub proof fn lemma_extract_bounds(s: Seq<char>, i: int, open: Seq<char>, close: Seq<char>)
    requires
        0 <= i <= s.len(),
        open.len() > 0,
        close.len() > 0,
    ensures
        match spec_extract(s, i, open, close) {
            Some(Ok((p, after))) => i + open.len() <= p && after == p + close.len() && after
                <= s.len() && i < after,
            _ => true,
        },
{
    if match_at(s, i, open) {
        if open == close {
            lemma_find_from(s, i + open.len(), close);
        } else {
            lemma_scan_close(s, i + open.len(), open, close, 1);
        }
    }
}

/// A well-formed walker's position lies within its text, whose length fits a
/// machine word.
pub proof fn lemma_pos_bounds(w: &StrWalker<'_>)
    requires
        w.wf(),
    ensures
        0 <= w.pos() <= w.text().len(),
        w.text().len() <= usize::MAX,
{
}

/// A cursor over a borrowed string, positioned between characters.
pub struct StrWalker<'input> {
    input: &'input str,
    length: usize,
    index: usize,
}

impl<'input> StrWalker<'input> {
    /// The characters of the text under the cursor.
    pub closed spec fn text(&self) -> Seq<char> {
        self.input@
    }

    /// The current position, counted in characters.
    pub closed spec fn pos(&self) -> int {
        self.index as int
    }

    /// The cursor caches the character count of its text and never moves past
    /// the end.
    pub closed spec fn wf(&self) -> bool {
        self.length == self.input@.len() && self.index <= self.length
    }

    /// A fresh walker over `input`, positioned at the start.
    pub fn new(input: &'input str) -> (r: Self)
        ensures
            r.wf(),
            r.text() == input@,
            r.pos() == 0,
    {
        StrWalker { input, length: input.unicode_len(), index: 0 }
    }

    /// Whether the position has reached the end of the text.
    pub fn reached_end(&self) -> (r: bool)
        requires
            self.wf(),
        ensures
            r == (self.pos() >= self.text().len()),
    {
        self.index >= self.length
    }

    /// Reads the character at the position and advances past it; `None` at
    /// the end of the text.
    pub fn next_char(&mut self) -> (r: Option<char>)
        requires
            old(self).wf(),
        ensures
            final(self).wf(),
            final(self).text() == old(self).text(),
            match r {
                Some(c) => old(self).pos() < old(self).text().len() && c == old(self).text()[old(
                    self,
                ).pos()] && final(self).pos() == old(self).pos() + 1,
                None => old(self).pos() == old(self).text().len() && final(self).pos() == old(
                    self,
                ).pos(),
            },
    {
        if self.index >= self.length {
            None
        } else {
            let c = self.input.get_char(self.index);
            self.index = self.index + 1;
            Some(c)
        }
    }

    /// The current position as a machine integer.
    pub(crate) fn position(&self) -> (r: usize)
        requires
            self.wf(),
        ensures
            r as int == self.pos(),
            self.pos() <= self.text().len(),
    {
        self.index
    }

    /// The character count of the text.
    pub(crate) fn text_len(&self) -> (r: usize)
        requires
            self.wf(),
        ensures
            r as int == self.text().len(),
    {
        self.length
    }

    /// A copy of the text between two character positions.
    pub(crate) fn text_slice(&self, from: usize, to: usize) -> (r: String)
        requires
            self.wf(),
            from <= to <= self.text().len(),
        ensures
            r@ == self.text().subrange(from as int, to as int),
    {
        String::from_str(self.input.substring_char(from, to))
    }

    /// The character at position `p`, without moving the cursor.
    pub(crate) fn char_at(&self, p: usize) -> (r: char)
        requires
            self.wf(),
            p < self.text().len(),
        ensures
            r == self.text()[p as int],
    {
        self.input.get_char(p)
    }

    /// Whether `pat` occurs at position `p`, without moving the cursor.
    #[verifier::loop_isolation(false)]
    pub(crate) fn starts_at(&self, p: usize, pat: &str) -> (r: bool)
        requires
            self.wf(),
            p <= self.text().len(),
        ensures
            r == match_at(self.text(), p as int, pat@),
    {
        let pat_len = pat.unicode_len();
        if pat_len > self.length - p {
            assert(!match_at(self.text(), p as int, pat@));
            return false;
        }
        let mut k: usize = 0;
        while k < pat_len
            invariant
                self.wf(),
                p + pat_len <= self.length,
                pat_len == pat@.len(),
                0 <= k <= pat_len,
                forall|m: int| 0 <= m < k ==> self.text()[p + m] == pat@[m],
            decreases pat_len - k,
        {
            if self.input.get_char(p + k) != pat.get_char(k) {
                assert(!match_at(self.text(), p as int, pat@)) by {
                    if match_at(self.text(), p as int, pat@) {
                        assert(self.text().subrange(p as int, p + pat@.len())[k as int] == pat@[k as int]);
                    }
                }
                return false;
            }
            k = k + 1;
        }
        assert(self.text().subrange(p as int, p + pat@.len()) =~= pat@);
        true
    }

    /// Checks whether the text at the current position starts with `cmp`.
    pub fn currently_starts_with(&self, cmp: &str) -> (r: bool)
        requires
            self.wf(),
        ensures
            r == match_at(self.text(), self.pos(), cmp@),
    {
        self.starts_at(self.index, cmp)
    }

    /// Jumps forwards by the given number of characters; the caller
    /// guarantees that this stays within the text.
    pub fn jump_by(&mut self, amount: usize)
        requires
            old(self).wf(),
            old(self).pos() + amount <= old(self).text().len(),
        ensures
            final(self).wf(),
            final(self).text() == old(self).text(),
            final(self).pos() == old(self).pos() + amount,
    {
        self.index = self.index + amount;
    }

    /// Advances past a maximal run of whitespace characters.
    #[verifier::loop_isolation(false)]
    pub fn jump_whitespace(&mut self)
        requires
            old(self).wf(),
        ensures
            final(self).wf(),
            final(self).text() == old(self).text(),
            final(self).pos() == skip_ws(old(self).text(), old(self).pos()),
    {
        loop
            invariant
                self.wf(),
                self.text() == old(self).text(),
                old(self).pos() <= self.pos(),
                skip_ws(self.text(), old(self).pos()) == skip_ws(self.text(), self.pos()),
            decreases self.text().len() - self.pos(),
        {
            if self.index >= self.length {
                return ;
            }
            let c = self.input.get_char(self.index);
            if !is_whitespace_char(c) {
                return ;
            }
            self.index = self.index + 1;
        }
    }

    /// Advances to the next occurrence of `target` strictly after the current
    /// position, or to the end of the text.
    #[verifier::loop_isolation(false)]
    pub fn jump_to_next(&mut self, target: &str)
        requires
            old(self).wf(),
        ensures
            final(self).wf(),
            final(self).text() == old(self).text(),
            final(self).pos() == spec_jump_to_next(old(self).text(), old(self).pos(), target@),
    {
        if self.index >= self.length {
            return ;
        }
        self.index = self.index + 1;
        loop
            invariant
                self.wf(),
                self.text() == old(self).text(),
                old(self).pos() < self.pos() <= self.text().len(),
                find_from(self.text(), old(self).pos() + 1, target@) == find_from(
                    self.text(),
                    self.pos(),
                    target@,
                ),
            decreases self.text().len() - self.pos(),
        {
            if self.starts_at(self.index, target) {
                return ;
            }
            if self.index >= self.length {
                return ;
            }
            self.index = self.index + 1;
        }
    }

    /// Extracts the text of a balanced region.  Returns `None`, without
    /// moving, when the text at the cursor does not start with `start`.
    /// Otherwise consumes the region up to and including the occurrence of
    /// `end` that closes it and returns the interior, or reports an
    /// unbalanced-nesting error naming the delimiter pair when the text ends
    /// before the region closes.
    #[verifier::loop_isolation(false)]
    pub fn get_between_recursive(&mut self, start: &str, end: &str) -> (r: Option<
        Result<String, LexErr>,
    >)
        requires
            old(self).wf(),
            start@.len() > 0,
            end@.len() > 0,
        ensures
            final(self).wf(),
            final(self).text() == old(self).text(),
            match spec_extract(old(self).text(), old(self).pos(), start@, end@) {
                None => r is None && final(self).pos() == old(self).pos(),
                Some(Ok((p, after))) => r matches Some(Ok(sub)) && sub@ == old(self).text().subrange(
                    old(self).pos() + start@.len(),
                    p,
                ) && final(self).pos() == after,
                Some(Err(e)) => r matches Some(Err(e2)) && e2@ == e && final(self).pos() == old(
                    self,
                ).text().len(),
            },
    {
        let ghost s = self.text();
        let ghost i = self.pos();
        if !self.currently_starts_with(start) {
            return None;
        }
        let start_len = start.unicode_len();
        let end_len = end.unicode_len();
        self.jump_by(start_len);
        let og = self.index;
        proof {
            lemma_extract_bounds(s, i, start@, end@);
        }
        if chars_eq(start, end) {
            // Same delimiter on both ends: the region runs to its next
            // occurrence.
            let mut p = og;
            loop
                invariant
                    self.wf(),
                    self.text() == s,
                    og <= p <= s.len(),
                    og == i + start@.len(),
                    self.pos() == og,
                    end_len == end@.len(),
                    start@ == end@,
                    match_at(s, i, start@),
                    find_from(s, og as int, end@) == find_from(s, p as int, end@),
                decreases s.len() - p,
            {
                if p >= self.length {
                    self.index = self.length;
                    return Some(
                        Err(
                            LexErr::UnbalancedNestingErr {
                                start: String::from_str(start),
                                end: String::from_str(end),
                            },
                        ),
                    );
                }
                if self.starts_at(p, end) {
                    let sub = self.input.substring_char(og, p);
                    self.index = p + end_len;
                    return Some(Ok(String::from_str(sub)));
                }
                p = p + 1;
            }
        } else {
            let mut p = og;
            let mut n: usize = 1;
            loop
                invariant
                    self.wf(),
                    self.text() == s,
                    og <= p <= s.len(),
                    og == i + start@.len(),
                    self.pos() == og,
                    start_len == start@.len(),
                    end_len == end@.len(),
                    start@ != end@,
                    match_at(s, i, start@),
                    1 <= n,
                    n <= p - og + 1,
                    scan_close(s, og as int, start@, end@, 1) == scan_close(
                        s,
                        p as int,
                        start@,
                        end@,
                        n as nat,
                    ),
                decreases s.len() - p,
            {
                if p >= self.length {
                    self.index = self.length;
                    return Some(
                        Err(
                            LexErr::UnbalancedNestingErr {
                                start: String::from_str(start),
                                end: String::from_str(end),
                            },
                        ),
                    );
                }
                if self.starts_at(p, start) {
                    p = p + start_len;
                    n = n + 1;
                } else if self.starts_at(p, end) {
                    if n == 1 {
                        let sub = self.input.substring_char(og, p);
                        self.index = p + end_len;
                        return Some(Ok(String::from_str(sub)));
                    }
                    p = p + end_len;
                    n = n - 1;
                } else {
                    p = p + 1;
                }
            }
        }
    }
}

/// Compares two strings character by character.
#[verifier::loop_isolation(false)]
pub(crate) fn chars_eq(a: &str, b: &str) -> (r: bool)
    ensures
        r == (a@ == b@),
{
    let a_len = a.unicode_len();
    let b_len = b.unicode_len();
    if a_len != b_len {
        assert(a@ != b@);
        return false;
    }
    let mut k: usize = 0;
    while k < a_len
        invariant
            a_len == a@.len(),
            a_len == b@.len(),
            0 <= k <= a_len,
            forall|m: int| 0 <= m < k ==> a@[m] == b@[m],
        decreases a_len - k,
    {
        if a.get_char(k) != b.get_char(k) {
            return false;
        }
        k = k + 1;
    }
    assert(a@ =~= b@);
    true
}

} // verus!
