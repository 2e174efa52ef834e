//! A recursive text-template interpolator.
//!
//! Input text is split on whitespace; a token may embed a template name,
//! marked by an apostrophe under the default convention in [`defaults`].
//! Each template is replaced by the text a caller-supplied resolver returns
//! for its name, and a replacement that itself contains templates is
//! interpolated in turn. The recursion is depth-bounded: once
//! [`RECURSION_LIMIT`] nested expansions have been opened, a further one
//! fails with [`NestedTemplateLoopError`] instead of recursing forever, so
//! a self-referential template is reported as an error rather than hanging.
//! The guard is a per-call depth, not engine state, so an engine instance
//! behaves after any call, successful or failed, exactly as a fresh one.
//!
//! What a call returns is pinned by [`semantics::expand_text`], a
//! specification-level interpreter over a table modelling the resolver.

pub mod chars;
pub mod defaults;
pub mod semantics;
pub mod tokenize;

use vstd::prelude::*;

use crate::defaults::extract_template;
use crate::defaults::is_template;
use crate::defaults::is_template_token;
use crate::defaults::split_prefix;
use crate::defaults::split_suffix;
use crate::defaults::split_template;
use crate::semantics::ResolverTable;
use crate::semantics::all_templates_empty;
use crate::semantics::expand_text;
use crate::semantics::expand_token;
use crate::semantics::expand_tokens;
use crate::semantics::has_template;
use crate::semantics::join_spaced;
use crate::semantics::lemma_expand_tokens_any_none;
use crate::semantics::lemma_expand_tokens_split;
use crate::semantics::lemma_expand_unresolved;
use crate::semantics::lemma_join_snoc;
use crate::semantics::lemma_no_marker_text;
use crate::semantics::table_at;
use crate::tokenize::lemma_scan_token_bounds;
use crate::tokenize::lemma_skip_spaces_bounds;
use crate::tokenize::lemma_tokens_from_skip;
use crate::tokenize::lemma_tokens_from_unfold;
use crate::tokenize::scan_token_exec;
use crate::tokenize::skip_spaces;
use crate::tokenize::skip_spaces_exec;
use crate::tokenize::tokens_from;
use crate::tokenize::tokens_of;

verus! {

/// The recursion ceiling: how many nested template expansions one
/// interpolation call may open before it fails.
pub const RECURSION_LIMIT: usize = 25;

/// Interpolation failed because templates were still being expanded when
/// the recursion ceiling was reached, as happens on a template that
/// reaches itself again through its own replacement.
#[derive(Debug, Clone)]
pub struct NestedTemplateLoopError;

impl NestedTemplateLoopError {
    /// The error's description.
    pub fn message(&self) -> (r: String)
        ensures
            r@ == "detected infinitely looping nested templates"@,
    {
        "detected infinitely looping nested templates".to_owned()
    }
}

/// A token split into the text before the marker, the template name, and
/// the text after the name. The fields are slices of the token that was
/// split.
pub struct TemplateSplit<'a> {
    pub prefix: &'a str,
    pub template: &'a str,
    pub suffix: &'a str,
}

/// The view of what a resolver returned: the replacement text, if any.
pub open spec fn resolved_text(r: Option<String>) -> Option<Seq<char>> {
    match r {
        None => None,
        Some(t) => Some(t@),
    }
}

/// Whether the resolver `f` behaves as the table `rho` says: every result
/// it can return for a name equals the table's entry for that name. A
/// resolver that can return two different results for one name matches no
/// table.
pub open spec fn resolver_models<F: Fn(&str) -> Option<String>>(f: F, rho: ResolverTable) -> bool {
    forall|name: &str, r: Option<String>|
        #[trigger] call_ensures(f, (name,), r) ==> resolved_text(r) == table_at(rho, name@)
}

/// The interpolation engine. It carries no state between calls: the
/// recursion guard lives on the call stack, so every call behaves as a
/// call on a fresh instance.
pub struct TextInterpolator {}

impl Default for TextInterpolator {
    fn default() -> (r: Self)
        ensures
            r == (TextInterpolator {  }),
    {
        TextInterpolator {  }
    }
}

impl TextInterpolator {
    pub fn new() -> (r: Self)
        ensures
            r == (TextInterpolator {  }),
    {
        TextInterpolator {  }
    }

    /// Whether any whitespace-delimited token of `text` marks a template.
    /// Interpolation recurses into a replacement exactly when this holds
    /// of it; on a fully interpolated text this returns false.
    pub fn contains_template(&self, text: &str) -> (r: bool)
        ensures
            r == has_template(text@),
    {
        let ghost s = text@;
        let ghost toks = tokens_of(s);
        let ghost mut k: int = 0;
        let n = text.unicode_len();
        let mut i = skip_spaces_exec(text, 0);
        proof {
            assert(toks.skip(0) =~= toks);
            lemma_tokens_from_skip(s, 0);
        }
        #[verifier::loop_isolation(false)]
        while i < n
            invariant
                i <= n,
                0 <= k <= toks.len(),
                skip_spaces(s, i as int) == i as int,
                tokens_from(s, i as int) == toks.skip(k),
                forall|j: int| 0 <= j < k ==> !is_template_token(#[trigger] toks[j]),
            decreases n - i,
        {
            let e = scan_token_exec(text, i);
            let token = text.substring_char(i, e);
            proof {
                lemma_tokens_from_unfold(s, i as int);
                assert(toks.skip(k)[0] == toks[k]);
                assert(token@ == toks[k]);
                assert(tokens_from(s, e as int) =~= toks.skip(k).subrange(
                    1,
                    toks.len() - k,
                ));
                assert(toks.skip(k).subrange(1, toks.len() - k) =~= toks.skip(k + 1));
            }
            if is_template(token) {
                return true;
            }
            i = skip_spaces_exec(text, e);
            proof {
                lemma_tokens_from_skip(s, e as int);
                k = k + 1;
            }
        }
        proof {
            assert(toks.skip(k).len() == 0);
            assert(k == toks.len());
        }
        false
    }

    /// Interpolates `text` under the resolver `map`, up to
    /// [`RECURSION_LIMIT`] nested expansions.
    ///
    /// Tokens are expanded left to right and joined by single spaces. A
    /// token whose template name is empty, or whose name the resolver
    /// leaves unresolved, passes through verbatim — that is no error — so
    /// a text none of whose tokens names a template comes back unchanged
    /// up to whitespace normalization, whatever the resolver. The one
    /// error is the recursion bound: `Err(NestedTemplateLoopError)` comes
    /// exactly when the expansion of some replacement was still opening
    /// nested templates at the ceiling.
    ///
    /// For any table `rho` the resolver behaves as, the outcome is exactly
    /// what [`expand_text`] says; the engine itself is left as it was, so
    /// a later call behaves as on a fresh instance.
    pub fn interp<F: Fn(&str) -> Option<String>>(
        &mut self,
        text: &str,
        map: &F,
    ) -> (result: Result<String, NestedTemplateLoopError>)
        requires
            forall|name: &str| #[trigger] call_requires(*map, (name,)),
        ensures
            *final(self) == *old(self),
            forall|rho: ResolverTable|
                #[trigger] resolver_models(*map, rho) ==> (match result {
                    Ok(out) => expand_text(text@, rho, RECURSION_LIMIT as nat) == Some(out@),
                    Err(_) => expand_text(text@, rho, RECURSION_LIMIT as nat) is None,
                }),
            all_templates_empty(text@) ==> (result matches Ok(out) && out@ == join_spaced(
                tokens_of(text@),
            )),
            (forall|name: &str, r: Option<String>|
                #[trigger] call_ensures(*map, (name,), r) ==> r is None) ==> (result matches Ok(out)
                && out@ == join_spaced(tokens_of(text@))),
            (forall|x: int| 0 <= x < text@.len() ==> text@[x] != '\'') ==> (result matches Ok(out)
                && out@ == join_spaced(tokens_of(text@))),
    {
        let result = self.interp_fuel(text, map, RECURSION_LIMIT);
        proof {
            if forall|x: int| 0 <= x < text@.len() ==> text@[x] != '\'' {
                lemma_no_marker_text(text@);
            }
            if forall|name: &str, r: Option<String>|
                #[trigger] call_ensures(*map, (name,), r) ==> r is None {
                let rho = Map::<Seq<char>, Option<Seq<char>>>::empty();
                assert forall|name: &str, r: Option<String>|
                    #[trigger] call_ensures(*map, (name,), r) implies resolved_text(r) == table_at(
                    rho,
                    name@,
                ) by {
                    assert(r is None);
                    assert(!rho.dom().contains(name@));
                }
                assert(resolver_models(*map, rho));
                lemma_expand_unresolved(text@, rho, RECURSION_LIMIT as nat);
            }
        }
        result
    }

    /// One bounded interpolation pass: expands the tokens of `text` left
    /// to right, spending one unit of fuel on each nested expansion.
    fn interp_fuel<F: Fn(&str) -> Option<String>>(
        &self,
        text: &str,
        map: &F,
        fuel: usize,
    ) -> (result: Result<String, NestedTemplateLoopError>)
        requires
            forall|name: &str| #[trigger] call_requires(*map, (name,)),
        ensures
            forall|rho: ResolverTable|
                #[trigger] resolver_models(*map, rho) ==> (match result {
                    Ok(out) => expand_text(text@, rho, fuel as nat) == Some(out@),
                    Err(_) => expand_text(text@, rho, fuel as nat) is None,
                }),
            all_templates_empty(text@) ==> (result matches Ok(out) && out@ == join_spaced(
                tokens_of(text@),
            )),
        decreases fuel,
    {
        let ghost s = text@;
        let ghost toks = tokens_of(s);
        let n = text.unicode_len();
        let mut out = String::new();
        let mut count: usize = 0;
        let ghost mut pieces: Seq<Seq<char>> = Seq::empty();
        let mut i = skip_spaces_exec(text, 0);
        proof {
            assert(toks.skip(0) =~= toks);
            lemma_tokens_from_skip(s, 0);
            assert(toks.take(0) =~= Seq::<Seq<char>>::empty());
        }
        #[verifier::loop_isolation(false)]
        while i < n
            invariant
                i <= n,
                0 <= count,
                count <= i,
                count as int <= toks.len(),
                pieces.len() == count as int,
                skip_spaces(s, i as int) == i as int,
                tokens_from(s, i as int) == toks.skip(count as int),
                out@ == join_spaced(pieces),
                forall|rho: ResolverTable|
                    #[trigger] resolver_models(*map, rho) ==> expand_tokens(
                        toks.take(count as int),
                        rho,
                        fuel as nat,
                    ) == Some(pieces),
                all_templates_empty(s) ==> pieces == toks.take(count as int),
            decreases n - i,
        {
            let ghost k = count as int;
            proof {
                lemma_skip_spaces_bounds(s, i as int);
                lemma_scan_token_bounds(s, i as int);
            }
            let e = scan_token_exec(text, i);
            let token = text.substring_char(i, e);
            proof {
                lemma_tokens_from_unfold(s, i as int);
                assert(toks.skip(k)[0] == toks[k]);
                assert(token@ == toks[k]);
                assert(tokens_from(s, e as int) =~= toks.skip(k).subrange(1, toks.len() - k));
                assert(toks.skip(k).subrange(1, toks.len() - k) =~= toks.skip(k + 1));
            }
            let split = extract_template(token);
            let ghost name_v = split.template@;
            let piece: String;
            if split.template.unicode_len() == 0 {
                piece = token.to_owned();
                proof {
                    assert forall|rho: ResolverTable| resolver_models(*map, rho) implies expand_token(
                        toks[k],
                        rho,
                        fuel as nat,
                    ) == Some(piece@) by {}
                    assert(all_templates_empty(s) ==> piece@ == toks[k]);
                }
            } else {
                let resolved = (*map)(split.template);
                proof {
                    assert(split_template(tokens_of(s)[k]) == name_v);
                    assert(name_v.len() > 0);
                    assert(!all_templates_empty(s));
                }
                match &resolved {
                    None => {
                        piece = token.to_owned();
                        proof {
                            assert forall|rho: ResolverTable|
                                resolver_models(*map, rho) implies expand_token(
                                toks[k],
                                rho,
                                fuel as nat,
                            ) == Some(piece@) by {
                                assert(call_ensures(*map, (split.template,), resolved));
                                assert(table_at(rho, name_v) is None);
                            }
                        }
                    },
                    Some(sub) => {
                        if self.contains_template(sub.as_str()) {
                            if fuel == 0 {
                                proof {
                                    assert forall|rho: ResolverTable|
                                        resolver_models(*map, rho) implies expand_text(
                                        s,
                                        rho,
                                        fuel as nat,
                                    ) is None by {
                                        assert(call_ensures(*map, (split.template,), resolved));
                                        assert(table_at(rho, name_v) == Some(sub@));
                                        assert(expand_token(toks[k], rho, fuel as nat) is None);
                                        lemma_expand_tokens_any_none(toks, k, rho, fuel as nat);
                                    }
                                }
                                return Err(NestedTemplateLoopError);
                            }
                            let nested = self.interp_fuel(sub.as_str(), map, fuel - 1);
                            match nested {
                                Err(e) => {
                                    proof {
                                        assert forall|rho: ResolverTable|
                                            resolver_models(*map, rho) implies expand_text(
                                            s,
                                            rho,
                                            fuel as nat,
                                        ) is None by {
                                            assert(call_ensures(*map, (split.template,), resolved));
                                            assert(table_at(rho, name_v) == Some(sub@));
                                            assert(expand_text(sub@, rho, (fuel - 1) as nat) is None);
                                            assert(expand_token(toks[k], rho, fuel as nat) is None);
                                            lemma_expand_tokens_any_none(toks, k, rho, fuel as nat);
                                        }
                                    }
                                    return Err(e);
                                },
                                Ok(expanded) => {
                                    let mut built = String::new();
                                    built.append(split.prefix);
                                    built.append(expanded.as_str());
                                    built.append(split.suffix);
                                    piece = built;
                                    proof {
                                        assert(piece@ =~= split_prefix(toks[k]) + expanded@
                                            + split_suffix(toks[k]));
                                        assert forall|rho: ResolverTable|
                                            resolver_models(*map, rho) implies expand_token(
                                            toks[k],
                                            rho,
                                            fuel as nat,
                                        ) == Some(piece@) by {
                                            assert(call_ensures(*map, (split.template,), resolved));
                                            assert(table_at(rho, name_v) == Some(sub@));
                                            assert(expand_text(sub@, rho, (fuel - 1) as nat)
                                                == Some(expanded@));
                                        }
                                    }
                                },
                            }
                        } else {
                            let mut built = String::new();
                            built.append(split.prefix);
                            built.append(sub.as_str());
                            built.append(split.suffix);
                            piece = built;
                            proof {
                                assert(piece@ =~= split_prefix(toks[k]) + sub@ + split_suffix(
                                    toks[k],
                                ));
                                assert forall|rho: ResolverTable|
                                    resolver_models(*map, rho) implies expand_token(
                                    toks[k],
                                    rho,
                                    fuel as nat,
                                ) == Some(piece@) by {
                                    assert(call_ensures(*map, (split.template,), resolved));
                                    assert(table_at(rho, name_v) == Some(sub@));
                                }
                            }
                        }
                    },
                }
            }
            proof {
                assert forall|rho: ResolverTable| resolver_models(*map, rho) implies expand_tokens(
                    toks.take(k + 1),
                    rho,
                    fuel as nat,
                ) == Some(pieces.push(piece@)) by {
                    lemma_expand_tokens_split(toks.take(k + 1), k, rho, fuel as nat);
                    assert(toks.take(k + 1).take(k) =~= toks.take(k));
                    assert(toks.take(k + 1).skip(k) =~= Seq::<Seq<char>>::empty().push(toks[k]));
                    let single = Seq::<Seq<char>>::empty().push(toks[k]);
                    assert(single[0] == toks[k]);
                    assert(single.subrange(1, 1) =~= Seq::<Seq<char>>::empty());
                    assert(expand_token(toks[k], rho, fuel as nat) == Some(piece@));
                    assert(expand_tokens(Seq::<Seq<char>>::empty(), rho, fuel as nat) == Some(
                        Seq::<Seq<char>>::empty(),
                    ));
                    assert(expand_tokens(single, rho, fuel as nat) == Some(
                        Seq::<Seq<char>>::empty().push(piece@) + Seq::<Seq<char>>::empty(),
                    ));
                    assert(Seq::<Seq<char>>::empty().push(piece@) + Seq::<Seq<char>>::empty()
                        =~= Seq::<Seq<char>>::empty().push(piece@));
                    assert(pieces + Seq::<Seq<char>>::empty().push(piece@) =~= pieces.push(
                        piece@,
                    ));
                }
            }
            if count > 0 {
                out.append(" ");
            }
            out.append(piece.as_str());
            count = count + 1;
            i = skip_spaces_exec(text, e);
            proof {
                reveal_strlit(" ");
                assert(" "@ =~= seq![' ']);
                lemma_join_snoc(pieces, piece@);
                pieces = pieces.push(piece@);
                lemma_tokens_from_skip(s, e as int);
                if all_templates_empty(s) {
                    assert(pieces =~= toks.take(k + 1));
                }
            }
        }
        proof {
            assert(toks.skip(count as int).len() == 0);
            assert(count as int == toks.len());
            assert(toks.take(count as int) =~= toks);
        }
        Ok(out)
    }
}

} // verus!
