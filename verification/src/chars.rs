//! Character classes used by the tokenizer and the default template syntax.
//!
//! Whitespace and alphanumericity are Unicode properties; their full tables
//! are not restated here. Each gets an uninterpreted name, and a trusted
//! wrapper ties the name to the std function that computes it.

use vstd::prelude::*;

verus! {

/// Whether `c` is whitespace, as `char::is_whitespace` decides it.
pub uninterp spec fn is_space(c: char) -> bool;

/// Whether `c` is alphanumeric, as `char::is_alphanumeric` decides it.
pub uninterp spec fn is_alnum(c: char) -> bool;

/// Relies on char::is_whitespace: a property of the character alone.
#[verifier::external_body]
pub(crate) fn char_is_space(c: char) -> (r: bool)
    ensures
        r == is_space(c),
{
    c.is_whitespace()
}

/// Relies on char::is_alphanumeric: a property of the character alone.
#[verifier::external_body]
pub(crate) fn char_is_alnum(c: char) -> (r: bool)
    ensures
        r == is_alnum(c),
{
    c.is_alphanumeric()
}

} // verus!
