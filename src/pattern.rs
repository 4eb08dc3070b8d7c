//! Name filters: literal prefixes and glob patterns.
use vstd::prelude::*;
use crate::text::{contains_char, has_prefix, starts_with};

verus! {

/// What `glob_match::glob_match(pattern, name)` returns.
pub uninterp spec fn glob_matches(pattern: Seq<char>, name: Seq<char>) -> bool;

/// Relies on `glob_match::glob_match`: whether `name` matches the glob `pattern`.
#[verifier::external_body]
fn glob_match_call(pattern: &str, name: &str) -> (r: bool)
    ensures
        r == glob_matches(pattern@, name@),
{
    glob_match::glob_match(pattern, name)
}

/// Whether one pattern accepts `name`: a pattern holding `*` is a glob,
/// any other pattern is a literal prefix.
pub open spec fn pattern_accepts(pattern: Seq<char>, name: Seq<char>) -> bool {
    if pattern.contains('*') {
        glob_matches(pattern, name)
    } else {
        has_prefix(name, pattern)
    }
}

/// Whether some pattern of `patterns` accepts `name`.
pub open spec fn any_pattern_accepts(name: Seq<char>, patterns: Seq<Seq<char>>) -> bool {
    exists|k: int| 0 <= k < patterns.len() && pattern_accepts(#[trigger] patterns[k], name)
}

/// Whether `pattern` accepts `name`, once the glob's verdict `glob` is known.
pub fn accepts_with(pattern: &str, name: &str, glob: bool) -> (r: bool)
    ensures
        r == if pattern@.contains('*') { glob } else { has_prefix(name@, pattern@) },
{
    if contains_char(pattern, '*') {
        glob
    } else {
        starts_with(name, pattern)
    }
}

/// Whether `pattern` accepts `name`.
pub fn pattern_matches(pattern: &str, name: &str) -> (r: bool)
    ensures
        r == pattern_accepts(pattern@, name@),
{
    let glob = if contains_char(pattern, '*') {
        glob_match_call(pattern, name)
    } else {
        false
    };
    accepts_with(pattern, name, glob)
}

/// Whether any of `patterns` accepts `name`.
pub fn matches_pattern(name: &str, patterns: &Vec<String>) -> (r: bool)
    ensures
        r == any_pattern_accepts(name@, patterns.deep_view()),
{
    let mut k: usize = 0;
    while k < patterns.len()
        invariant
            k <= patterns.len(),
            forall|t: int| 0 <= t < k ==> !pattern_accepts(#[trigger] patterns.deep_view()[t], name@),
        decreases patterns.len() - k,
    {
        if pattern_matches(patterns[k].as_str(), name) {
            assert(pattern_accepts(patterns.deep_view()[k as int], name@));
            return true;
        }
        k = k + 1;
    }
    false
}

} // verus!
