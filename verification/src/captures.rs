//! Capture groups, as the `regex` crate finds them in a byte string.
//!
//! Nothing in this module is proved: it says what the regex engine is taken
//! to return.

use vstd::prelude::*;

verus! {

/// `regex::Error`: why the regex engine refused a pattern. It is carried
/// through unread.
#[verifier::external_type_specification]
#[verifier::external_body]
pub struct ExRegexError(regex::Error);

/// For every match of `pattern` in `haystack`, from left to right and without
/// overlap, the bytes that the first capture group took, or `None` where the
/// group took no part in the match. Left open for a pattern that the regex
/// engine refuses.
pub uninterp spec fn first_groups(pattern: Seq<char>, haystack: Seq<u8>) -> Seq<Option<Seq<u8>>>;

/// What a list of captured groups holds.
pub open spec fn groups_of(found: Seq<Option<Vec<u8>>>) -> Seq<Option<Seq<u8>>> {
    Seq::new(
        found.len(),
        |i: int|
            match found[i] {
                Some(bytes) => Some(bytes@),
                None => None,
            },
    )
}

/// `regex::bytes::Regex::new`, then `captures_iter` on the compiled regex and
/// `Captures::get(1)` on every match. Nothing is claimed about which patterns
/// compile. When the pattern does compile, the result is what the regex
/// engine finds, and that is all that is known of it.
#[verifier::external_body]
pub(crate) fn capture_first_groups(pattern: &str, haystack: &[u8]) -> (r: Result<
    Vec<Option<Vec<u8>>>,
    regex::Error,
>)
    ensures
        r matches Ok(found) ==> groups_of(found@) == first_groups(pattern@, haystack@),
{
    let re = regex::bytes::Regex::new(pattern)?;
    Ok(re.captures_iter(haystack).map(|c| c.get(1).map(|m| m.as_bytes().to_vec())).collect())
}

} // verus!
