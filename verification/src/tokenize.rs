//! Splitting text on whitespace.
//!
//! `tokens_of` gives the whitespace-delimited tokens of a text, in order,
//! as the specification that the executable scanners are proved against.

use vstd::prelude::*;

use crate::chars::char_is_space;
use crate::chars::is_space;

verus! {

/// The first position at or after `i` holding a non-whitespace character,
/// or the length of `s` if there is none.
pub open spec fn skip_spaces(s: Seq<char>, i: int) -> int
    decreases s.len() - i,
{
    if !(0 <= i < s.len()) {
        s.len() as int
    } else if !is_space(s[i]) {
        i
    } else {
        skip_spaces(s, i + 1)
    }
}

/// The first position at or after `i` holding a whitespace character, or
/// the length of `s` if there is none: the end of a token starting at `i`.
pub open spec fn scan_token(s: Seq<char>, i: int) -> int
    decreases s.len() - i,
{
    if !(0 <= i < s.len()) {
        s.len() as int
    } else if is_space(s[i]) {
        i
    } else {
        scan_token(s, i + 1)
    }
}

/// The whitespace-delimited tokens of `s` from position `i` on, in order.
pub open spec fn tokens_from(s: Seq<char>, i: int) -> Seq<Seq<char>>
    decreases s.len() - i,
    via tokens_from_dec
{
    if !(0 <= i < s.len()) {
        Seq::empty()
    } else if is_space(s[i]) {
        tokens_from(s, i + 1)
    } else {
        Seq::empty().push(s.subrange(i, scan_token(s, i))) + tokens_from(s, scan_token(s, i))
    }
}

/// The whitespace-delimited tokens of `s`, in order.
pub open spec fn tokens_of(s: Seq<char>) -> Seq<Seq<char>> {
    tokens_from(s, 0)
}

pub proof fn lemma_scan_token_bounds(s: Seq<char>, i: int)
    requires
        0 <= i <= s.len(),
    ensures
        i <= scan_token(s, i) <= s.len(),
        i < s.len() && !is_space(s[i]) ==> i < scan_token(s, i),
    decreases s.len() - i,
{
    if i < s.len() && !is_space(s[i]) {
        lemma_scan_token_bounds(s, i + 1);
    }
}

#[via_fn]
proof fn tokens_from_dec(s: Seq<char>, i: int) {
    if 0 <= i < s.len() && !is_space(s[i]) {
        lemma_scan_token_bounds(s, i);
    }
}

pub proof fn lemma_skip_spaces_bounds(s: Seq<char>, i: int)
    requires
        0 <= i <= s.len(),
    ensures
        i <= skip_spaces(s, i) <= s.len(),
        skip_spaces(s, i) < s.len() ==> !is_space(s[skip_spaces(s, i)]),
    decreases s.len() - i,
{
    if i < s.len() && is_space(s[i]) {
        lemma_skip_spaces_bounds(s, i + 1);
    }
}

/// One step of tokenization: after skipping the leading whitespace, either
/// the text is exhausted, or the next token runs to the next whitespace.
pub proof fn lemma_tokens_from_unfold(s: Seq<char>, i: int)
    requires
        0 <= i <= s.len(),
    ensures
        skip_spaces(s, i) == s.len() ==> tokens_from(s, i) == Seq::<Seq<char>>::empty(),
        skip_spaces(s, i) < s.len() ==> tokens_from(s, i) == Seq::empty().push(
            s.subrange(skip_spaces(s, i), scan_token(s, skip_spaces(s, i))),
        ) + tokens_from(s, scan_token(s, skip_spaces(s, i))),
    decreases s.len() - i,
{
    if i < s.len() && is_space(s[i]) {
        lemma_tokens_from_unfold(s, i + 1);
    }
}

/// Tokenization does not see leading whitespace: the tokens from `i` are
/// the tokens from the first non-whitespace position after it.
pub proof fn lemma_tokens_from_skip(s: Seq<char>, i: int)
    requires
        0 <= i <= s.len(),
    ensures
        tokens_from(s, i) == tokens_from(s, skip_spaces(s, i)),
    decreases s.len() - i,
{
    if i < s.len() && is_space(s[i]) {
        lemma_tokens_from_skip(s, i + 1);
    }
}

/// Every character of every token of `s` occurs in `s`: a token is a
/// contiguous slice of the text.
pub proof fn lemma_tokens_chars(s: Seq<char>, i: int, c: char)
    requires
        0 <= i <= s.len(),
        forall|x: int| 0 <= x < s.len() ==> s[x] != c,
    ensures
        forall|k: int, x: int|
            0 <= k < tokens_from(s, i).len() && 0 <= x < tokens_from(s, i)[k].len()
                ==> tokens_from(s, i)[k][x] != c,
    decreases s.len() - i,
{
    if 0 <= i < s.len() {
        if is_space(s[i]) {
            lemma_tokens_chars(s, i + 1, c);
            assert(tokens_from(s, i) == tokens_from(s, i + 1));
        } else {
            lemma_scan_token_bounds(s, i);
            lemma_tokens_chars(s, scan_token(s, i), c);
            let tok = s.subrange(i, scan_token(s, i));
            assert forall|k: int, x: int|
                0 <= k < tokens_from(s, i).len() && 0 <= x < tokens_from(s, i)[k].len()
                    implies tokens_from(s, i)[k][x] != c by {
                if k == 0 {
                    assert(tokens_from(s, i)[0] == tok);
                    assert(tok[x] == s[i + x]);
                } else {
                    assert(tokens_from(s, i)[k] == tokens_from(s, scan_token(s, i))[k - 1]);
                }
            }
        }
    }
}

/// Finds the end of the leading whitespace run at `from`.
pub(crate) fn skip_spaces_exec(text: &str, from: usize) -> (r: usize)
    requires
        from <= text@.len(),
    ensures
        r == skip_spaces(text@, from as int),
        from <= r <= text@.len(),
        skip_spaces(text@, r as int) == r as int,
{
    let n = text.unicode_len();
    let mut i = from;
    #[verifier::loop_isolation(false)]
    while i < n && char_is_space(text.get_char(i))
        invariant
            from <= i <= n,
            skip_spaces(text@, from as int) == skip_spaces(text@, i as int),
        decreases n - i,
    {
        i = i + 1;
    }
    proof {
        lemma_skip_spaces_bounds(text@, from as int);
    }
    i
}

/// Finds the end of the token starting at `from`.
pub(crate) fn scan_token_exec(text: &str, from: usize) -> (r: usize)
    requires
        from <= text@.len(),
    ensures
        r == scan_token(text@, from as int),
        from <= r <= text@.len(),
{
    let n = text.unicode_len();
    let mut i = from;
    #[verifier::loop_isolation(false)]
    while i < n && !char_is_space(text.get_char(i))
        invariant
            from <= i <= n,
            scan_token(text@, from as int) == scan_token(text@, i as int),
        decreases n - i,
    {
        i = i + 1;
    }
    i
}

} // verus!
