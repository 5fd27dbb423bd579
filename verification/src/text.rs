//! Substring search on text.

use vstd::prelude::*;

verus! {

/// `needle` occurs in `hay` at position `at`, character for character.
pub open spec fn occurs_at(hay: Seq<char>, needle: Seq<char>, at: int) -> bool {
    0 <= at && at + needle.len() <= hay.len() && hay.subrange(at, at + needle.len()) == needle
}

/// `needle` occurs somewhere in `hay` as a contiguous run of characters.
pub open spec fn has_substring(hay: Seq<char>, needle: Seq<char>) -> bool {
    exists|at: int| occurs_at(hay, needle, at)
}

/// Calls `str::contains` with a string pattern.
///
/// Trusted: std documents that it returns true exactly where the pattern
/// matches a sub-slice of the string; for a string pattern that is an
/// occurrence as a contiguous run of characters.
#[verifier::external_body]
pub(crate) fn str_contains(hay: &str, needle: &str) -> (r: bool)
    ensures
        r == has_substring(hay@, needle@),
{
    hay.contains(needle)
}

/// A keyword is found wherever it stands in a text, whatever stands before
/// and after it: inside a word as well as between words.
pub proof fn keyword_within_text(before: Seq<char>, keyword: Seq<char>, after: Seq<char>)
    ensures
        has_substring(before + keyword + after, keyword),
{
    let hay = before + keyword + after;
    assert(hay.subrange(before.len() as int, (before.len() + keyword.len()) as int) =~= keyword);
    assert(occurs_at(hay, keyword, before.len() as int));
}

} // verus!
