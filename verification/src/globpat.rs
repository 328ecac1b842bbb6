//! Wildcard input patterns, matched through the `glob` crate.
//!
//! A raw input reference may be a glob pattern (`*`, `?`, character
//! classes) to be matched against concrete candidate ids.  An entry
//! that does not compile as a pattern falls back to literal matching.

use vstd::prelude::*;

verus! {

/// Whether the pattern string compiles as a glob pattern.  The answer
/// depends on the pattern's characters alone.
pub uninterp spec fn glob_ok(pattern: Seq<char>) -> bool;

/// Whether the candidate matches the compiled glob pattern, under the
/// default match options.  The answer depends on the pattern's and the
/// candidate's characters alone.
pub uninterp spec fn glob_matches(pattern: Seq<char>, candidate: Seq<char>) -> bool;

/// Relies on glob::Pattern::new: compilation succeeds or fails as a
/// function of the pattern's characters alone.
#[verifier::external_body]
pub fn pattern_compiles(pattern: &str) -> (r: bool)
    ensures
        r == glob_ok(pattern@),
{
    glob::Pattern::new(pattern).is_ok()
}

/// Relies on glob::Pattern::matches (after glob::Pattern::new compiles
/// the pattern): the match verdict is a function of the pattern's and
/// the candidate's characters alone; a pattern that does not compile
/// matches nothing here.
#[verifier::external_body]
pub fn pattern_matches(pattern: &str, candidate: &str) -> (r: bool)
    ensures
        r == (glob_ok(pattern@) && glob_matches(pattern@, candidate@)),
{
    match glob::Pattern::new(pattern) {
        Ok(p) => p.matches(candidate),
        Err(_) => false,
    }
}

/// How one raw input entry is matched against candidates: as a compiled
/// wildcard pattern, or — for an entry that is no valid pattern — as a
/// literal string.
#[derive(Debug, Clone)]
pub enum InputMatcher {
    Pattern(String),
    Literal(String),
}

/// What it means for a candidate to match one raw entry: by glob when
/// the entry compiles as a pattern, by string equality otherwise.
pub open spec fn spec_entry_matches(raw: Seq<char>, candidate: Seq<char>) -> bool {
    if glob_ok(raw) {
        glob_matches(raw, candidate)
    } else {
        raw == candidate
    }
}

impl InputMatcher {
    /// The matcher's verdict on a candidate.
    pub open spec fn spec_matches(&self, candidate: Seq<char>) -> bool {
        match self {
            InputMatcher::Pattern(p) => glob_ok(p@) && glob_matches(p@, candidate),
            InputMatcher::Literal(s) => s@ == candidate,
        }
    }

    /// Builds the matcher for one raw entry; the flag reports the
    /// literal fallback for an entry that failed to compile.
    pub fn new(raw: String) -> (r: (InputMatcher, bool))
        ensures
            glob_ok(raw@) ==> r == (InputMatcher::Pattern(raw), false),
            !glob_ok(raw@) ==> r == (InputMatcher::Literal(raw), true),
            forall|c: Seq<char>| r.0.spec_matches(c) == spec_entry_matches(raw@, c),
    {
        if pattern_compiles(raw.as_str()) {
            (InputMatcher::Pattern(raw), false)
        } else {
            (InputMatcher::Literal(raw), true)
        }
    }

    /// Tests one candidate.
    pub fn matches(&self, candidate: &str) -> (r: bool)
        ensures
            r == self.spec_matches(candidate@),
    {
        match self {
            InputMatcher::Pattern(p) => pattern_matches(p.as_str(), candidate),
            InputMatcher::Literal(s) => *s == candidate.to_owned(),
        }
    }
}

} // verus!
