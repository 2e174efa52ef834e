//! The default template syntax: an apostrophe marks a template, and the
//! template name is the maximal alphanumeric run after the first marker.
//!
//! A token splits into the text before the first marker (`prefix`), the
//! name (`template`), and what follows the name (`suffix`). The character
//! that ends the name is dropped from the suffix, except when it is the
//! last character of the token, in which case it is the whole suffix; so
//! a second marker opening another template inside the same token leaves
//! its name behind verbatim. A token without a marker splits into three
//! empty parts.

use vstd::prelude::*;

use crate::TemplateSplit;
use crate::chars::char_is_alnum;
use crate::chars::is_alnum;

verus! {

/// The position of the first marker at or after `i`, or the length of `s`.
pub open spec fn marker_at(s: Seq<char>, i: int) -> int
    decreases s.len() - i,
{
    if !(0 <= i < s.len()) {
        s.len() as int
    } else if s[i] == '\'' {
        i
    } else {
        marker_at(s, i + 1)
    }
}

/// The end of the alphanumeric run starting at `i`: the first position at
/// or after `i` holding a non-alphanumeric character, or the length of `s`.
pub open spec fn alnum_end(s: Seq<char>, i: int) -> int
    decreases s.len() - i,
{
    if !(0 <= i < s.len()) {
        s.len() as int
    } else if !is_alnum(s[i]) {
        i
    } else {
        alnum_end(s, i + 1)
    }
}

/// Whether the token holds a marker character anywhere.
pub open spec fn has_marker(s: Seq<char>) -> bool {
    marker_at(s, 0) < s.len()
}

/// The text before the first marker; empty when there is no marker.
pub open spec fn split_prefix(s: Seq<char>) -> Seq<char> {
    if has_marker(s) {
        s.subrange(0, marker_at(s, 0))
    } else {
        Seq::empty()
    }
}

/// The template name: the maximal alphanumeric run after the first marker;
/// empty when there is no marker.
pub open spec fn split_template(s: Seq<char>) -> Seq<char> {
    if has_marker(s) {
        s.subrange(marker_at(s, 0) + 1, alnum_end(s, marker_at(s, 0) + 1))
    } else {
        Seq::empty()
    }
}

/// The text after the template name. The character that ends the name is
/// kept only when it is the last character of the token; otherwise the
/// suffix starts just after it. Empty when the name runs to the end of the
/// token, or when there is no marker.
pub open spec fn split_suffix(s: Seq<char>) -> Seq<char> {
    if has_marker(s) {
        let k = alnum_end(s, marker_at(s, 0) + 1);
        if k >= s.len() {
            Seq::empty()
        } else if k == s.len() - 1 {
            s.subrange(k, s.len() as int)
        } else {
            s.subrange(k + 1, s.len() as int)
        }
    } else {
        Seq::empty()
    }
}

/// Whether the token marks a template: its first character is a marker.
pub open spec fn is_template_token(s: Seq<char>) -> bool {
    s.len() > 0 && s[0] == '\''
}

pub proof fn lemma_marker_at_bounds(s: Seq<char>, i: int)
    requires
        0 <= i <= s.len(),
    ensures
        i <= marker_at(s, i) <= s.len(),
        marker_at(s, i) < s.len() ==> s[marker_at(s, i)] == '\'',
        forall|x: int| i <= x < marker_at(s, i) ==> s[x] != '\'',
    decreases s.len() - i,
{
    if i < s.len() && s[i] != '\'' {
        lemma_marker_at_bounds(s, i + 1);
    }
}

pub proof fn lemma_alnum_end_bounds(s: Seq<char>, i: int)
    requires
        0 <= i <= s.len(),
    ensures
        i <= alnum_end(s, i) <= s.len(),
        alnum_end(s, i) < s.len() ==> !is_alnum(s[alnum_end(s, i)]),
        forall|x: int| i <= x < alnum_end(s, i) ==> is_alnum(s[x]),
    decreases s.len() - i,
{
    if i < s.len() && is_alnum(s[i]) {
        lemma_alnum_end_bounds(s, i + 1);
    }
}

/// A token with no marker character is no template and splits into three
/// empty parts.
pub proof fn lemma_split_no_marker(s: Seq<char>)
    requires
        forall|x: int| 0 <= x < s.len() ==> s[x] != '\'',
    ensures
        !is_template_token(s),
        split_prefix(s) == Seq::<char>::empty(),
        split_template(s) == Seq::<char>::empty(),
        split_suffix(s) == Seq::<char>::empty(),
{
    lemma_marker_at_bounds(s, 0);
    if marker_at(s, 0) < s.len() {
        assert(s[marker_at(s, 0)] == '\'');
    }
}

/// The split loses nothing but the character that ends the name's
/// alphanumeric run. With a marker present, the token is the prefix, the
/// marker, and the name, followed — when the name runs to the end of the
/// token — by nothing; when the run-ending character is the last of the
/// token — by the suffix itself; and otherwise — by that character and
/// then the suffix.
pub proof fn lemma_split_reconstructs(s: Seq<char>)
    requires
        has_marker(s),
    ensures
        alnum_end(s, marker_at(s, 0) + 1) == s.len() ==> s == split_prefix(s) + seq!['\'']
            + split_template(s),
        alnum_end(s, marker_at(s, 0) + 1) == s.len() - 1 ==> s == split_prefix(s) + seq!['\'']
            + split_template(s) + split_suffix(s),
        alnum_end(s, marker_at(s, 0) + 1) < s.len() - 1 ==> s == split_prefix(s) + seq!['\'']
            + split_template(s) + seq![s[alnum_end(s, marker_at(s, 0) + 1)]] + split_suffix(s),
{
    let m = marker_at(s, 0);
    let k = alnum_end(s, m + 1);
    lemma_marker_at_bounds(s, 0);
    lemma_alnum_end_bounds(s, m + 1);
    if k == s.len() {
        assert(s =~= s.subrange(0, m) + seq![s[m]] + s.subrange(m + 1, k));
    } else if k == s.len() - 1 {
        assert(s =~= s.subrange(0, m) + seq![s[m]] + s.subrange(m + 1, k) + s.subrange(
            k,
            s.len() as int,
        ));
    } else {
        assert(s =~= s.subrange(0, m) + seq![s[m]] + s.subrange(m + 1, k) + seq![s[k]]
            + s.subrange(k + 1, s.len() as int));
    }
}

/// Whether a token marks a template under the default convention: its
/// first character is an apostrophe. An empty token is no template.
pub fn is_template(text: &str) -> (r: bool)
    ensures
        r == is_template_token(text@),
{
    if text.unicode_len() == 0 {
        false
    } else {
        text.get_char(0) == '\''
    }
}

/// Splits a token into the text before the first marker, the template
/// name after it, and the rest; all three are slices of the token, and
/// all three are empty when the token holds no marker.
pub fn extract_template<'a>(embedded_template: &'a str) -> (r: TemplateSplit<'a>)
    ensures
        r.prefix@ == split_prefix(embedded_template@),
        r.template@ == split_template(embedded_template@),
        r.suffix@ == split_suffix(embedded_template@),
{
    let ghost s = embedded_template@;
    let n = embedded_template.unicode_len();
    let mut m: usize = 0;
    #[verifier::loop_isolation(false)]
    while m < n && embedded_template.get_char(m) != '\''
        invariant
            0 <= m <= n,
            marker_at(s, 0) == marker_at(s, m as int),
        decreases n - m,
    {
        m = m + 1;
    }
    assert(marker_at(s, 0) == m as int);
    if m == n {
        let empty = embedded_template.substring_char(0, 0);
        assert(empty@ =~= Seq::<char>::empty());
        TemplateSplit { prefix: empty, template: empty, suffix: empty }
    } else {
        let mut k: usize = m + 1;
        #[verifier::loop_isolation(false)]
        while k < n && char_is_alnum(embedded_template.get_char(k))
            invariant
                m + 1 <= k <= n,
                alnum_end(s, m as int + 1) == alnum_end(s, k as int),
            decreases n - k,
        {
            k = k + 1;
        }
        assert(alnum_end(s, m as int + 1) == k as int);
        let prefix = embedded_template.substring_char(0, m);
        let template = embedded_template.substring_char(m + 1, k);
        let suffix = if k == n {
            let empty = embedded_template.substring_char(0, 0);
            assert(empty@ =~= Seq::<char>::empty());
            empty
        } else if k == n - 1 {
            embedded_template.substring_char(k, n)
        } else {
            embedded_template.substring_char(k + 1, n)
        };
        TemplateSplit { prefix, template, suffix }
    }
}

} // verus!
