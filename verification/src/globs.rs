//! Glob pattern checks for ignore rules.
//!
//! Whether a pattern compiles, and whether it matches a path, are pure
//! functions of the two texts; both carry names that the scanning contracts
//! are stated over.

use vstd::prelude::*;

verus! {

/// Whether `pattern` is a valid glob pattern.
pub uninterp spec fn glob_pattern_ok(pattern: Seq<char>) -> bool;

/// Whether the valid glob pattern `pattern` matches `path`.
pub uninterp spec fn glob_path_matches(pattern: Seq<char>, path: Seq<char>) -> bool;

/// Relies on `glob::Pattern::new`: whether a pattern compiles depends on the
/// pattern text alone.
#[verifier::external_body]
pub fn glob_pattern_valid(pattern: &String) -> (r: bool)
    ensures
        r == glob_pattern_ok(pattern@),
{
    glob::Pattern::new(pattern).is_ok()
}

/// Relies on `glob::Pattern::matches`: the outcome depends on the pattern and
/// path texts alone.
#[verifier::external_body]
pub fn glob_match(pattern: &String, path: &String) -> (r: bool)
    requires
        glob_pattern_ok(pattern@),
    ensures
        r == glob_path_matches(pattern@, path@),
{
    match glob::Pattern::new(pattern) {
        Ok(p) => p.matches(path),
        Err(_) => false,
    }
}

} // verus!
