//! String helpers taken on trust from std.

use vstd::prelude::*;

verus! {

/// Relies on str::contains with a `char` pattern: true exactly when the
/// character occurs in the string.
#[verifier::external_body]
pub fn contains_dot(s: &str) -> (r: bool)
    ensures
        r == s@.contains('.'),
{
    s.contains('.')
}

/// Relies on str::rsplit_once: splits at the last occurrence of the
/// delimiter, returning the text before and after it, or nothing when
/// the delimiter does not occur at all.
#[verifier::external_body]
pub fn split_at_last_dot(s: &str) -> (r: Option<(String, String)>)
    ensures
        match r {
            Some(parts) => {
                &&& s@ == parts.0@ + seq!['.'] + parts.1@
                &&& !parts.1@.contains('.')
            },
            None => !s@.contains('.'),
        },
{
    s.rsplit_once('.').map(|(pre, suf)| (pre.to_owned(), suf.to_owned()))
}

} // verus!
