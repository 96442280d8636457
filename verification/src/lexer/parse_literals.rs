//! The literal classifier: quoted strings, quoted characters, booleans and
//! numbers, tried in that order.

use vstd::prelude::*;
use vstd::string::StrSliceExecFns;
use vstd::string::StringExecFns;

use crate::lexer::str_walker::{
    StrWalker, is_xid_continue, match_at, skip_ws, spec_extract, xid_continue,
};
use crate::lexer::tokens::{Literal, LiteralV};
use crate::lexer::{LexErr, LexErrV};

verus! {

/// An ASCII decimal digit.
pub open spec fn is_digit(c: char) -> bool {
    48 <= c as u32 && c as u32 <= 57
}

/// The numeric value of a digit; zero for any other character.
pub open spec fn digit_val(c: char) -> nat {
    if is_digit(c) {
        (c as u32 - 48) as nat
    } else {
        0
    }
}

/// Every character of `s` is an ASCII decimal digit.
pub open spec fn all_digits(s: Seq<char>) -> bool {
    forall|k: int| 0 <= k < s.len() ==> is_digit(s[k])
}

/// The value of `s` read as a decimal numeral.
pub open spec fn digits_val(s: Seq<char>) -> nat
    decreases s.len(),
{
    if s.len() == 0 {
        0
    } else {
        digits_val(s.drop_last()) * 10 + digit_val(s.last())
    }
}

/// The end of the raw buffer a number is read from: characters of the
/// identifier-continue class and dots are taken, anything else stops the
/// scan.
pub open spec fn num_end(s: Seq<char>, i: int) -> int
    decreases s.len() - i,
    when 0 <= i <= s.len()
{
    if i >= s.len() {
        i
    } else if xid_continue(s[i]) || s[i] == '.' {
        num_end(s, i + 1)
    } else {
        i
    }
}

/// The first position at or after `i` holding an exponent marker.
pub open spec fn find_exp(s: Seq<char>, i: int) -> Option<int>
    decreases s.len() - i,
    when 0 <= i <= s.len()
{
    if i >= s.len() {
        None
    } else if s[i] == 'e' || s[i] == 'E' {
        Some(i)
    } else {
        find_exp(s, i + 1)
    }
}

/// The first position at or after `i` holding a dot.
pub open spec fn find_dot(s: Seq<char>, i: int) -> Option<int>
    decreases s.len() - i,
    when 0 <= i <= s.len()
{
    if i >= s.len() {
        None
    } else if s[i] == '.' {
        Some(i)
    } else {
        find_dot(s, i + 1)
    }
}

/// The buffer parses as a signless decimal integer that fits a 64-bit signed
/// machine word.
pub open spec fn int_ok(t: Seq<char>) -> bool {
    t.len() > 0 && all_digits(t) && digits_val(t) <= i64::MAX as nat
}

/// The mantissa of a float: digits, or digits around a single dot with at
/// least one digit on one side.
pub open spec fn mantissa_ok(m: Seq<char>) -> bool {
    match find_dot(m, 0) {
        None => m.len() > 0 && all_digits(m),
        Some(d) => all_digits(m.subrange(0, d)) && all_digits(m.subrange(d + 1, m.len() as int))
            && m.len() > 1,
    }
}

/// The buffer has the shape of an unsigned finite decimal float, the form
/// the standard library's float parser documents: a mantissa, optionally
/// followed by an exponent marker and a nonempty run of digits.  A sign
/// cannot occur here because the buffer only holds identifier characters and
/// dots.
pub open spec fn float_ok(t: Seq<char>) -> bool {
    match find_exp(t, 0) {
        None => mantissa_ok(t),
        Some(p) => mantissa_ok(t.subrange(0, p)) && t.len() > p + 1 && all_digits(
            t.subrange(p + 1, t.len() as int),
        ),
    }
}

/// What the number branch of the classifier yields at position `j`: the raw
/// buffer runs to `num_end`; it is read as an integer when it can be, as a
/// float next, and otherwise the buffer is reported in an error.
pub open spec fn spec_numbers(s: Seq<char>, j: int) -> Result<(LiteralV, int), LexErrV> {
    let e = num_end(s, j);
    let buf = s.subrange(j, e);
    if int_ok(buf) {
        Ok((LiteralV::Int(digits_val(buf) as i64), e))
    } else if float_ok(buf) {
        Ok((LiteralV::Float(buf), e))
    } else {
        Err(LexErrV::ParseLiteralErr { typ: "Number"@, string: buf })
    }
}

/// What the literal classifier yields at position `i`: after skipping
/// whitespace it tries a quoted string, a quoted character (whose interior
/// must be exactly one character), the two boolean words, and finally a
/// number.
pub open spec fn spec_classify(s: Seq<char>, i: int) -> Result<(LiteralV, int), LexErrV> {
    let j = skip_ws(s, i);
    match spec_extract(s, j, "\""@, "\""@) {
        Some(Err(e)) => Err(e),
        Some(Ok((p, after))) => Ok((LiteralV::String(s.subrange(j + 1, p)), after)),
        None => match spec_extract(s, j, "'"@, "'"@) {
            Some(Err(e)) => Err(e),
            Some(Ok((p, after))) => {
                let inner = s.subrange(j + 1, p);
                if inner.len() == 1 {
                    Ok((LiteralV::Char(inner[0]), after))
                } else {
                    Err(LexErrV::ParseLiteralErr { typ: "Char"@, string: inner })
                }
            },
            None => if match_at(s, j, "true"@) {
                Ok((LiteralV::Bool(true), j + 4))
            } else if match_at(s, j, "false"@) {
                Ok((LiteralV::Bool(false), j + 5))
            } else {
                spec_numbers(s, j)
            },
        },
    }
}

/// `skip_ws` stays between its start and the end of the text.
pub proof fn lemma_skip_ws_bounds(s: Seq<char>, i: int)
    requires
        0 <= i <= s.len(),
    ensures
        i <= skip_ws(s, i) <= s.len(),
    decreases s.len() - i,
{
    if i < s.len() && crate::lexer::str_walker::white_space(s[i]) {
        lemma_skip_ws_bounds(s, i + 1);
    }
}

/// `num_end` stays between its start and the end of the text.
pub proof fn lemma_num_end_bounds(s: Seq<char>, i: int)
    requires
        0 <= i <= s.len(),
    ensures
        i <= num_end(s, i) <= s.len(),
    decreases s.len() - i,
{
    if i < s.len() && (xid_continue(s[i]) || s[i] == '.') {
        lemma_num_end_bounds(s, i + 1);
    }
}

/// A found exponent marker lies within the text.
proof fn lemma_find_exp_bounds(s: Seq<char>, i: int)
    requires
        0 <= i <= s.len(),
    ensures
        match find_exp(s, i) {
            Some(p) => i <= p < s.len(),
            None => true,
        },
    decreases s.len() - i,
{
    if i < s.len() && !(s[i] == 'e' || s[i] == 'E') {
        lemma_find_exp_bounds(s, i + 1);
    }
}

/// A found dot lies within the text.
proof fn lemma_find_dot_bounds(s: Seq<char>, i: int)
    requires
        0 <= i <= s.len(),
    ensures
        match find_dot(s, i) {
            Some(p) => i <= p < s.len(),
            None => true,
        },
    decreases s.len() - i,
{
    if i < s.len() && s[i] != '.' {
        lemma_find_dot_bounds(s, i + 1);
    }
}

/// A buffer accepted as a float is nonempty.
proof fn lemma_float_ok_nonempty(t: Seq<char>)
    requires
        float_ok(t),
    ensures
        t.len() > 0,
{
    lemma_find_exp_bounds(t, 0);
    if find_exp(t, 0) is None {
        lemma_find_dot_bounds(t, 0);
    }
}

/// A successful classification moves forward, and never past the end.
pub proof fn lemma_classify_bounds(s: Seq<char>, i: int)
    requires
        0 <= i <= s.len(),
    ensures
        match spec_classify(s, i) {
            Ok((lv, after)) => i < after <= s.len(),
            Err(_) => true,
        },
{
    reveal_strlit("\"");
    reveal_strlit("'");
    reveal_strlit("true");
    reveal_strlit("false");
    lemma_skip_ws_bounds(s, i);
    let j = skip_ws(s, i);
    crate::lexer::str_walker::lemma_extract_bounds(s, j, "\""@, "\""@);
    crate::lexer::str_walker::lemma_extract_bounds(s, j, "'"@, "'"@);
    lemma_num_end_bounds(s, j);
    if spec_extract(s, j, "\""@, "\""@) is None && spec_extract(s, j, "'"@, "'"@) is None
        && !match_at(s, j, "true"@) && !match_at(s, j, "false"@) {
        let e = num_end(s, j);
        let buf = s.subrange(j, e);
        if !int_ok(buf) && float_ok(buf) {
            lemma_float_ok_nonempty(buf);
        }
    }
}

/// Reading one more digit multiplies the value by ten.
proof fn lemma_digits_val_step(s: Seq<char>, j: int, k: int)
    requires
        0 <= j <= k < s.len(),
    ensures
        digits_val(s.subrange(j, k + 1)) == digits_val(s.subrange(j, k)) * 10 + digit_val(s[k]),
{
    let t = s.subrange(j, k + 1);
    assert(t.drop_last() =~= s.subrange(j, k));
    assert(t.last() == s[k]);
}

/// The value of a numeral never falls below the value of one of its
/// prefixes.
proof fn lemma_digits_val_prefix(t: Seq<char>, m: int)
    requires
        0 <= m <= t.len(),
    ensures
        digits_val(t.subrange(0, m)) <= digits_val(t),
    decreases t.len(),
{
    if m < t.len() {
        assert(t.drop_last().subrange(0, m) =~= t.subrange(0, m));
        lemma_digits_val_prefix(t.drop_last(), m);
        assert(digits_val(t) == digits_val(t.drop_last()) * 10 + digit_val(t.last()));
        assert(digits_val(t.drop_last()) * 10 >= digits_val(t.drop_last())) by (nonlinear_arith);
    } else {
        assert(t.subrange(0, m) =~= t);
    }
}

/// Classifies the literal at the cursor: after skipping whitespace it tries,
/// in order, a quoted string, a quoted character, a boolean word, and a
/// number; the first success wins.
pub fn parse_literals(walker: &mut StrWalker<'_>) -> (r: Result<Literal, LexErr>)
    requires
        old(walker).wf(),
    ensures
        final(walker).wf(),
        final(walker).text() == old(walker).text(),
        match r {
            Ok(lit) => spec_classify(old(walker).text(), old(walker).pos()) matches Ok((lv, after))
                && lit@ == lv && final(walker).pos() == after,
            Err(e) => spec_classify(old(walker).text(), old(walker).pos()) matches Err(ev) && e@
                == ev,
        },
{
    let ghost s = old(walker).text();
    walker.jump_whitespace();
    let ghost j = walker.pos();
    proof {
        reveal_strlit("\"");
        reveal_strlit("'");
    }
    match walker.get_between_recursive("\"", "\"") {
        Some(Ok(sub)) => {
            return Ok(Literal::String(sub));
        },
        Some(Err(e)) => {
            return Err(e);
        },
        None => {},
    }
    match walker.get_between_recursive("'", "'") {
        Some(Ok(sub)) => {
            if sub.as_str().unicode_len() == 1 {
                let c = sub.as_str().get_char(0);
                return Ok(Literal::Char(c));
            }
            return Err(LexErr::ParseLiteralErr { typ: String::from_str("Char"), string: sub });
        },
        Some(Err(e)) => {
            return Err(e);
        },
        None => {},
    }
    proof {
        reveal_strlit("true");
        reveal_strlit("false");
    }
    if walker.currently_starts_with("true") {
        walker.jump_by(4);
        return Ok(Literal::Bool(true));
    }
    if walker.currently_starts_with("false") {
        walker.jump_by(5);
        return Ok(Literal::Bool(false));
    }
    parse_numbers(walker)
}

/// Reads the raw buffer at the cursor and classifies it as an integer, a
/// float, or a malformed number.
#[verifier::loop_isolation(false)]
fn parse_numbers(walker: &mut StrWalker<'_>) -> (r: Result<Literal, LexErr>)
    requires
        old(walker).wf(),
    ensures
        final(walker).wf(),
        final(walker).text() == old(walker).text(),
        match r {
            Ok(lit) => spec_numbers(old(walker).text(), old(walker).pos()) matches Ok((lv, after))
                && lit@ == lv && final(walker).pos() == after,
            Err(e) => spec_numbers(old(walker).text(), old(walker).pos()) matches Err(ev) && e@
                == ev && final(walker).pos() == old(walker).pos(),
        },
{
    let ghost s = old(walker).text();
    let j = walker.position();
    let text_len = walker.text_len();
    proof {
        lemma_num_end_bounds(s, j as int);
    }
    // Find the end of the raw buffer.
    let mut e = j;
    loop
        invariant
            j <= e <= text_len,
            num_end(s, j as int) == num_end(s, e as int),
        decreases text_len - e,
    {
        if e >= text_len {
            break ;
        }
        let c = walker.char_at(e);
        if is_xid_continue(c) || c == '.' {
            e = e + 1;
        } else {
            break ;
        }
    }
    assert(num_end(s, j as int) == e as int);
    let ghost buf = s.subrange(j as int, e as int);
    // Try to read the buffer as an integer.
    let mut val: i64 = 0;
    let mut is_int = e > j;
    let mut k = j;
    loop
        invariant
            j <= k <= e <= text_len,
            is_int ==> (forall|q: int| j <= q < k ==> is_digit(s[q])),
            is_int ==> 0 <= val && val as nat == digits_val(s.subrange(j as int, k as int)) && val
                <= i64::MAX,
            is_int ==> e > j,
            !is_int ==> !int_ok(buf),
        decreases e - k,
    {
        if k >= e || !is_int {
            break ;
        }
        let c = walker.char_at(k);
        let u = c as u32;
        if u < 48 || u > 57 {
            proof {
                assert(buf[k - j] == s[k as int]);
                assert(!all_digits(buf));
            }
            is_int = false;
            break ;
        }
        let d = (u - 48) as i64;
        proof {
            lemma_digits_val_step(s, j as int, k as int);
        }
        if val > (i64::MAX - d) / 10 {
            proof {
                assert(val * 10 + d > i64::MAX) by (nonlinear_arith)
                    requires
                        val > (i64::MAX - d) / 10,
                        0 <= d <= 9,
                        val >= 0,
                ;
                if int_ok(buf) {
                    assert(buf.subrange(0, k + 1 - j) =~= s.subrange(j as int, k + 1));
                    lemma_digits_val_prefix(buf, k + 1 - j);
                }
            }
            is_int = false;
            break ;
        }
        proof {
            assert(val * 10 + d <= i64::MAX) by (nonlinear_arith)
                requires
                    val <= (i64::MAX - d) / 10,
                    0 <= d <= 9,
                    val >= 0,
            ;
        }
        val = val * 10 + d;
        k = k + 1;
    }
    if is_int {
        proof {
            assert(buf =~= s.subrange(j as int, e as int));
            assert(all_digits(buf)) by {
                assert(forall|q: int| 0 <= q < buf.len() ==> buf[q] == s[j + q] && is_digit(
                    s[j + q],
                ));
            }
            assert(int_ok(buf));
        }
        walker.jump_by(e - j);
        return Ok(Literal::Int(val));
    }
    // Try the float shape.
    if check_float(walker, j, e) {
        let raw = walker.text_slice(j, e);
        walker.jump_by(e - j);
        return Ok(Literal::Float(raw));
    }
    let raw = walker.text_slice(j, e);
    Err(LexErr::ParseLiteralErr { typ: String::from_str("Number"), string: raw })
}

/// Decides whether the buffer `s[j..e]` has the float shape.
#[verifier::loop_isolation(false)]
fn check_float(walker: &StrWalker<'_>, j: usize, e: usize) -> (r: bool)
    requires
        walker.wf(),
        0 <= j <= e <= walker.text().len(),
    ensures
        r == float_ok(walker.text().subrange(j as int, e as int)),
{
    let ghost s = walker.text();
    let ghost buf = s.subrange(j as int, e as int);
    // Find the exponent marker.
    let mut xp = j;
    loop
        invariant
            j <= xp <= e,
            find_exp(buf, 0) == find_exp(buf, xp - j),
        decreases e - xp,
    {
        if xp >= e {
            break ;
        }
        let c = walker.char_at(xp);
        if c == 'e' || c == 'E' {
            break ;
        }
        xp = xp + 1;
    }
    // The mantissa runs up to the marker (or to the end); the exponent part
    // must be a nonempty run of digits.
    if xp < e {
        assert(find_exp(buf, 0) == Some(xp - j));
        if xp + 1 >= e {
            return false;
        }
        if !check_digits(walker, xp + 1, e) {
            proof {
                assert(buf.subrange(xp - j + 1, buf.len() as int) =~= s.subrange(
                    xp + 1,
                    e as int,
                ));
            }
            return false;
        }
        proof {
            assert(buf.subrange(xp - j + 1, buf.len() as int) =~= s.subrange(xp + 1, e as int));
        }
        let r = check_mantissa(walker, j, xp);
        proof {
            assert(buf.subrange(0, xp - j) =~= s.subrange(j as int, xp as int));
        }
        r
    } else {
        assert(find_exp(buf, 0) is None);
        let r = check_mantissa(walker, j, e);
        proof {
            assert(buf =~= s.subrange(j as int, e as int));
        }
        r
    }
}

/// Decides whether `s[j..e]` is a well-formed mantissa.
#[verifier::loop_isolation(false)]
fn check_mantissa(walker: &StrWalker<'_>, j: usize, e: usize) -> (r: bool)
    requires
        walker.wf(),
        0 <= j <= e <= walker.text().len(),
    ensures
        r == mantissa_ok(walker.text().subrange(j as int, e as int)),
{
    let ghost s = walker.text();
    let ghost m = s.subrange(j as int, e as int);
    let mut dp = j;
    loop
        invariant
            j <= dp <= e,
            find_dot(m, 0) == find_dot(m, dp - j),
        decreases e - dp,
    {
        if dp >= e {
            break ;
        }
        if walker.char_at(dp) == '.' {
            break ;
        }
        dp = dp + 1;
    }
    if dp < e {
        assert(find_dot(m, 0) == Some(dp - j));
        let pre = check_digits(walker, j, dp);
        let post = check_digits(walker, dp + 1, e);
        proof {
            assert(m.subrange(0, dp - j) =~= s.subrange(j as int, dp as int));
            assert(m.subrange(dp - j + 1, m.len() as int) =~= s.subrange(dp + 1, e as int));
        }
        pre && post && e - j > 1
    } else {
        assert(find_dot(m, 0) is None);
        let r = e > j && check_digits(walker, j, e);
        proof {
            assert(m =~= s.subrange(j as int, e as int));
        }
        r
    }
}

/// Decides whether every character of `s[j..e]` is a decimal digit.
#[verifier::loop_isolation(false)]
fn check_digits(walker: &StrWalker<'_>, j: usize, e: usize) -> (r: bool)
    requires
        walker.wf(),
        0 <= j <= e <= walker.text().len(),
    ensures
        r == all_digits(walker.text().subrange(j as int, e as int)),
{
    let ghost s = walker.text();
    let ghost t = s.subrange(j as int, e as int);
    let mut k = j;
    while k < e
        invariant
            j <= k <= e,
            forall|q: int| j <= q < k ==> is_digit(s[q]),
        decreases e - k,
    {
        let u = walker.char_at(k) as u32;
        if u < 48 || u > 57 {
            assert(t[k - j] == s[k as int]);
            return false;
        }
        k = k + 1;
    }
    assert forall|q: int| 0 <= q < t.len() implies is_digit(t[q]) by {
        assert(t[q] == s[j + q]);
    }
    true
}

} // verus!
