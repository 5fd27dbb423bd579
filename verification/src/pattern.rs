//! Compiled regular expressions and what they capture.

use regex::Regex;
use vstd::prelude::*;

verus! {

#[verifier::external_type_specification]
#[verifier::external_body]
pub struct ExRegex(Regex);

#[verifier::external_type_specification]
#[verifier::external_body]
pub struct ExRegexError(regex::Error);

/// What `regex::Regex::new` makes of `pattern`: the regex that it compiles,
/// or `None` where it reports an error.
pub uninterp spec fn regex_compiled(pattern: Seq<char>) -> Option<Regex>;

/// What `regex::Regex::captures` finds in `haystack` for the regex `re`:
/// `None` where nothing matches, otherwise the leftmost match, given by the
/// offset in bytes at which it starts and by its capture groups in the order
/// of their opening brackets, the whole match first. A group that took no
/// part in the match is `None`.
pub uninterp spec fn regex_captures(re: Regex, haystack: Seq<char>) -> Option<
    (usize, Seq<Option<Seq<char>>>),
>;

/// Trusted: whether `regex::Regex::new` compiles a pattern, and what it
/// compiles, depends on the pattern text alone: the outcome is the value
/// that [`regex_compiled`] names. Nothing is claimed about which patterns
/// compile.
pub assume_specification[ Regex::new ](re: &str) -> (r: Result<Regex, regex::Error>)
    ensures
        r is Ok <==> regex_compiled(re@) is Some,
        r matches Ok(compiled) ==> regex_compiled(re@) == Some(compiled),
;

/// Calls `regex::Regex::captures(re, haystack)` and copies out where the
/// whole match starts (`Captures::get_match`, `Match::start`) and the text
/// of each capture group, in the order in which `Captures::iter` yields them.
///
/// Trusted: the outcome depends on the regex and the haystack alone, and is
/// the value that [`regex_captures`] names.
#[verifier::external_body]
pub(crate) fn capture_groups(re: &Regex, haystack: &str) -> (r: Option<
    (usize, Vec<Option<String>>),
>)
    ensures
        r.deep_view() == regex_captures(*re, haystack@),
{
    match re.captures(haystack) {
        Some(caps) => {
            let mut groups = Vec::new();
            for group in caps.iter() {
                groups.push(match group {
                    Some(found) => Some(found.as_str().to_string()),
                    None => None,
                });
            }
            Some((caps.get_match().start(), groups))
        },
        None => None,
    }
}

} // verus!
