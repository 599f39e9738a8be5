//! Regular expressions, as the crate `regex` reads and applies them.
//!
//! What a pattern means is not stated here: whether a pattern is one, and
//! whether it matches a text, are named and left to `regex`.

use vstd::prelude::*;

verus! {

/// Whether `regex` takes `pattern` for a regular expression.
pub uninterp spec fn pattern_is_valid(pattern: Seq<char>) -> bool;

/// Whether the regular expression `pattern` matches somewhere in `text`.
pub uninterp spec fn pattern_matches(pattern: Seq<char>, text: Seq<char>) -> bool;

/// `regex::Regex::new`, and on the expression it gives `Regex::is_match`:
/// `None` where `regex` refuses the pattern, else whether the expression
/// matches anywhere in `text`. Both depend on the arguments alone; whether a
/// pattern is refused does not depend on the text.
#[verifier::external_body]
fn search(pattern: &str, text: &str) -> (found: Option<bool>)
    ensures
        found is Some == pattern_is_valid(pattern@),
        found matches Some(b) ==> b == pattern_matches(pattern@, text@),
{
    match regex::Regex::new(pattern) {
        Ok(expression) => Some(expression.is_match(text)),
        Err(_) => None,
    }
}

/// Whether `pattern` is a regular expression.
pub fn is_valid(pattern: &str) -> (valid: bool)
    ensures
        valid == pattern_is_valid(pattern@),
{
    search(pattern, "").is_some()
}

/// Whether the regular expression `pattern` matches somewhere in `text`.
pub fn is_match(pattern: &str, text: &str) -> (found: bool)
    requires
        pattern_is_valid(pattern@),
    ensures
        found == pattern_matches(pattern@, text@),
{
    match search(pattern, text) {
        Some(found) => found,
        None => false,
    }
}

/// Whether `pattern` matches somewhere in `text`, where it is a regular
/// expression at all.
pub fn try_match(pattern: &str, text: &str) -> (found: Option<bool>)
    ensures
        found == if pattern_is_valid(pattern@) {
            Some(pattern_matches(pattern@, text@))
        } else {
            None
        },
{
    if is_valid(pattern) {
        Some(is_match(pattern, text))
    } else {
        None
    }
}

} // verus!
