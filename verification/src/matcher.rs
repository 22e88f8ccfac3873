//! The matcher: a fuzzy relevance score between a bookmark's name and
//! the query, delegated to an external fuzzy-string-matching crate.

use vstd::prelude::*;

use crate::bookmark::Bookmark;

verus! {

/// The fuzzy score that `fuzzy_matcher`'s `SkimMatcherV2`, in its
/// default configuration, assigns to a choice/pattern pair: `None`
/// when the pattern cannot be aligned as an ordered subsequence of
/// the choice, `Some(s)` with a higher `s` for a tighter, more
/// prefix-aligned match.  The score depends on the two strings alone.
pub uninterp spec fn skim_score(choice: Seq<char>, pattern: Seq<char>) -> Option<i64>;

/// Relies on `fuzzy_matcher::skim::SkimMatcherV2::default` and its
/// `FuzzyMatcher::fuzzy_match`: `default` builds one fixed
/// configuration, so the score is a function of the two strings
/// alone, and the crate computes it as an `i32` widened to `i64`.
#[verifier::external_body]
fn skim_fuzzy_match(choice: &str, pattern: &str) -> (r: Option<i64>)
    ensures
        r == skim_score(choice@, pattern@),
        r is Some ==> -0x8000_0000 <= r->0 <= 0x7fff_ffff,
{
    let matcher = fuzzy_matcher::skim::SkimMatcherV2::default();
    fuzzy_matcher::FuzzyMatcher::fuzzy_match(&matcher, choice, pattern)
}

/// The relevance of `name` for `query` in positive terms: the fuzzy
/// score when there is one, else 0.  Only a strictly positive value
/// counts as a match: 0 is also a possible score of a degenerate
/// alignment, so "no positive score" is the non-match condition.
pub open spec fn match_score(name: Seq<char>, query: Seq<char>) -> int {
    match skim_score(name, query) {
        Some(s) => s as int,
        None => 0,
    }
}

/// Whether `name` matches `query` at all.
pub open spec fn is_match(name: Seq<char>, query: Seq<char>) -> bool {
    match_score(name, query) > 0
}

impl Bookmark {
    /// The negated fuzzy score of this bookmark's name against the
    /// query: 0 when the matcher finds no alignment, and the
    /// matcher's score with its sign flipped otherwise, so that a
    /// lower value means a better match and every match is strictly
    /// negative.
    pub fn calculate_matching_score(&self, query: String) -> (r: i64)
        ensures
            r == 0 - match_score(self.name@, query@),
            r < 0 <==> is_match(self.name@, query@),
    {
        match skim_fuzzy_match(self.name.as_str(), query.as_str()) {
            None => 0,
            Some(s) => -s,
        }
    }

    /// The same relevance in positive terms, as the ranker uses it:
    /// `0` when the matcher finds no alignment.
    pub fn relevance(&self, query: &str) -> (r: i64)
        ensures
            r == match_score(self.name@, query@),
            r > 0 <==> is_match(self.name@, query@),
    {
        match skim_fuzzy_match(self.name.as_str(), query) {
            None => 0,
            Some(s) => s,
        }
    }
}

} // verus!
