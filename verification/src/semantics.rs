//! The meaning of interpolation.
//!
//! A resolver is modelled as a table from template names to optional
//! replacement texts. `expand_text` says what interpolating a text under a
//! table yields: each token is expanded in order, a replacement that itself
//! contains templates is expanded recursively while fuel remains, and the
//! expanded tokens are joined by single spaces. `None` stands for the one
//! failure: the recursion bound ran out.

use vstd::prelude::*;

use crate::defaults::is_template_token;
use crate::defaults::split_prefix;
use crate::defaults::split_suffix;
use crate::defaults::split_template;
use crate::defaults::lemma_split_no_marker;
use crate::tokenize::lemma_tokens_chars;
use crate::tokenize::tokens_of;

verus! {

/// A resolver model: what replacement, if any, each template name has.
pub type ResolverTable = Map<Seq<char>, Option<Seq<char>>>;

/// The replacement the table gives for `name`; a name outside the table is
/// unresolved.
pub open spec fn table_at(rho: ResolverTable, name: Seq<char>) -> Option<Seq<char>> {
    if rho.dom().contains(name) {
        rho[name]
    } else {
        None
    }
}

/// Whether any whitespace-delimited token of `s` marks a template.
pub open spec fn has_template(s: Seq<char>) -> bool {
    exists|k: int| 0 <= k < tokens_of(s).len() && is_template_token(#[trigger] tokens_of(s)[k])
}

/// Whether every token of `s` splits to an empty template name, so that
/// interpolation leaves every token unchanged.
pub open spec fn all_templates_empty(s: Seq<char>) -> bool {
    forall|k: int|
        0 <= k < tokens_of(s).len() ==> split_template(#[trigger] tokens_of(s)[k]).len() == 0
}

/// The pieces joined by single spaces.
pub open spec fn join_spaced(ps: Seq<Seq<char>>) -> Seq<char>
    decreases ps.len(),
{
    if ps.len() == 0 {
        Seq::empty()
    } else if ps.len() == 1 {
        ps[0]
    } else {
        ps[0] + seq![' '] + join_spaced(ps.subrange(1, ps.len() as int))
    }
}

/// What one token becomes. A token whose template name is empty, or whose
/// name the table leaves unresolved, stays as it is. Otherwise the
/// replacement is expanded recursively when it contains templates — which
/// costs one unit of fuel, and fails when none is left — and the result
/// stands between the token's prefix and suffix.
pub open spec fn expand_token(tok: Seq<char>, rho: ResolverTable, fuel: nat) -> Option<Seq<char>>
    decreases fuel, 0int, 0int,
{
    let name = split_template(tok);
    if name.len() == 0 {
        Some(tok)
    } else {
        match table_at(rho, name) {
            None => Some(tok),
            Some(sub) => if has_template(sub) {
                if fuel == 0 {
                    None
                } else {
                    match expand_text(sub, rho, (fuel - 1) as nat) {
                        None => None,
                        Some(r) => Some(split_prefix(tok) + r + split_suffix(tok)),
                    }
                }
            } else {
                Some(split_prefix(tok) + sub + split_suffix(tok))
            },
        }
    }
}

/// What a sequence of tokens becomes, each expanded in order; a failure in
/// any token fails the whole.
pub open spec fn expand_tokens(toks: Seq<Seq<char>>, rho: ResolverTable, fuel: nat) -> Option<
    Seq<Seq<char>>,
>
    decreases fuel, toks.len(), 1int,
{
    if toks.len() == 0 {
        Some(Seq::empty())
    } else {
        match expand_token(toks[0], rho, fuel) {
            None => None,
            Some(p) => match expand_tokens(toks.subrange(1, toks.len() as int), rho, fuel) {
                None => None,
                Some(ps) => Some(Seq::empty().push(p) + ps),
            },
        }
    }
}

/// What a whole text becomes: its tokens expanded and joined by single
/// spaces.
pub open spec fn expand_text(text: Seq<char>, rho: ResolverTable, fuel: nat) -> Option<Seq<char>>
    decreases fuel, tokens_of(text).len(), 2int,
{
    match expand_tokens(tokens_of(text), rho, fuel) {
        None => None,
        Some(ps) => Some(join_spaced(ps)),
    }
}

/// Appending one piece extends the joined text by a separating space and
/// that piece.
pub proof fn lemma_join_snoc(ps: Seq<Seq<char>>, p: Seq<char>)
    ensures
        ps.len() == 0 ==> join_spaced(ps.push(p)) == p,
        ps.len() > 0 ==> join_spaced(ps.push(p)) == join_spaced(ps) + seq![' '] + p,
    decreases ps.len(),
{
    if ps.len() == 0 {
        assert(ps.push(p)[0] == p);
    } else if ps.len() == 1 {
        assert(ps.push(p).subrange(1, 2) =~= Seq::empty().push(p));
        assert(join_spaced(Seq::empty().push(p)) == p);
    } else {
        let rest = ps.subrange(1, ps.len() as int);
        lemma_join_snoc(rest, p);
        assert(ps.push(p).subrange(1, ps.len() as int + 1) =~= rest.push(p));
        assert(ps.push(p)[0] == ps[0]);
        assert(ps[0] + seq![' '] + (join_spaced(rest) + seq![' '] + p) =~= (ps[0] + seq![' ']
            + join_spaced(rest)) + seq![' '] + p);
    }
}

/// Expanding a token sequence decomposes at any cut: the whole succeeds
/// exactly when both parts do, and then yields their concatenation.
pub proof fn lemma_expand_tokens_split(toks: Seq<Seq<char>>, m: int, rho: ResolverTable, fuel: nat)
    requires
        0 <= m <= toks.len(),
    ensures
        expand_tokens(toks, rho, fuel) == (match expand_tokens(toks.take(m), rho, fuel) {
            None => None::<Seq<Seq<char>>>,
            Some(ps) => match expand_tokens(toks.skip(m), rho, fuel) {
                None => None,
                Some(qs) => Some(ps + qs),
            },
        }),
    decreases m,
{
    if m == 0 {
        assert(toks.take(0) =~= Seq::<Seq<char>>::empty());
        assert(toks.skip(0) =~= toks);
        match expand_tokens(toks, rho, fuel) {
            None => {},
            Some(qs) => {
                assert(Seq::<Seq<char>>::empty() + qs =~= qs);
            },
        }
    } else {
        let rest = toks.subrange(1, toks.len() as int);
        assert(toks.take(m)[0] == toks[0]);
        assert(toks.take(m).subrange(1, m) =~= rest.take(m - 1));
        assert(toks.skip(m) =~= rest.skip(m - 1));
        lemma_expand_tokens_split(rest, m - 1, rho, fuel);
        match expand_token(toks[0], rho, fuel) {
            None => {},
            Some(p) => {
                match expand_tokens(rest.take(m - 1), rho, fuel) {
                    None => {},
                    Some(ps) => {
                        match expand_tokens(rest.skip(m - 1), rho, fuel) {
                            None => {},
                            Some(qs) => {
                                assert(Seq::empty().push(p) + (ps + qs) =~= (Seq::empty().push(p)
                                    + ps) + qs);
                            },
                        }
                    },
                }
            },
        }
    }
}

/// A sequence of tokens that all expand to themselves expands unchanged.
pub proof fn lemma_expand_tokens_unchanged(toks: Seq<Seq<char>>, rho: ResolverTable, fuel: nat)
    requires
        forall|k: int|
            0 <= k < toks.len() ==> split_template(#[trigger] toks[k]).len() == 0 || table_at(
                rho,
                split_template(toks[k]),
            ) is None,
    ensures
        expand_tokens(toks, rho, fuel) == Some(toks),
    decreases toks.len(),
{
    if toks.len() > 0 {
        let rest = toks.subrange(1, toks.len() as int);
        lemma_expand_tokens_unchanged(rest, rho, fuel);
        assert(expand_token(toks[0], rho, fuel) == Some(toks[0]));
        assert(Seq::empty().push(toks[0]) + rest =~= toks);
    }
}

/// Interpolating a text none of whose tokens names a template returns its
/// tokens unchanged, joined by single spaces, under any table and fuel.
pub proof fn lemma_expand_plain_text(text: Seq<char>, rho: ResolverTable, fuel: nat)
    requires
        all_templates_empty(text),
    ensures
        expand_text(text, rho, fuel) == Some(join_spaced(tokens_of(text))),
{
    lemma_expand_tokens_unchanged(tokens_of(text), rho, fuel);
}

/// Interpolating under a table that resolves nothing returns the text's
/// tokens unchanged, joined by single spaces: an unresolved template is
/// no error.
pub proof fn lemma_expand_unresolved(text: Seq<char>, rho: ResolverTable, fuel: nat)
    requires
        forall|name: Seq<char>| table_at(rho, name) is None,
    ensures
        expand_text(text, rho, fuel) == Some(join_spaced(tokens_of(text))),
{
    lemma_expand_tokens_unchanged(tokens_of(text), rho, fuel);
}

/// A text without a marker character has no template in any token.
pub proof fn lemma_no_marker_text(s: Seq<char>)
    requires
        forall|x: int| 0 <= x < s.len() ==> s[x] != '\'',
    ensures
        all_templates_empty(s),
        !has_template(s),
{
    lemma_tokens_chars(s, 0, '\'');
    assert forall|k: int| 0 <= k < tokens_of(s).len() implies split_template(
        #[trigger] tokens_of(s)[k],
    ).len() == 0 && !is_template_token(tokens_of(s)[k]) by {
        lemma_split_no_marker(tokens_of(s)[k]);
    }
}

/// A failing token fails the whole sequence.
pub proof fn lemma_expand_tokens_any_none(
    toks: Seq<Seq<char>>,
    k: int,
    rho: ResolverTable,
    fuel: nat,
)
    requires
        0 <= k < toks.len(),
        expand_token(toks[k], rho, fuel) is None,
    ensures
        expand_tokens(toks, rho, fuel) is None,
    decreases k,
{
    if k > 0 {
        let rest = toks.subrange(1, toks.len() as int);
        lemma_expand_tokens_any_none(rest, k - 1, rho, fuel);
    }
}

/// A template whose replacement reaches a template named like itself can
/// never be fully expanded: whatever the fuel, interpolating the
/// replacement fails, rather than recursing forever.
pub proof fn lemma_self_reference_fails(
    name: Seq<char>,
    sub: Seq<char>,
    rho: ResolverTable,
    fuel: nat,
    k: int,
)
    requires
        name.len() > 0,
        table_at(rho, name) == Some(sub),
        has_template(sub),
        0 <= k < tokens_of(sub).len(),
        split_template(tokens_of(sub)[k]) == name,
    ensures
        expand_text(sub, rho, fuel) is None,
    decreases fuel,
{
    if fuel > 0 {
        lemma_self_reference_fails(name, sub, rho, (fuel - 1) as nat, k);
    }
    assert(expand_token(tokens_of(sub)[k], rho, fuel) is None);
    lemma_expand_tokens_any_none(tokens_of(sub), k, rho, fuel);
}

} // verus!
