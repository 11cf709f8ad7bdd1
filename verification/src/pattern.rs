//! Regular expressions, as far as the library needs them: the matches of
//! a pattern in a text, and what the first group holds in each.

use regex::Regex;
use vstd::prelude::*;
use crate::strings::text_opt;

verus! {

/// What the first capture group holds in each match of `pattern` in
/// `haystack`, match after match, where a group that took no part in its
/// match, or a pattern without a group, gives `None`; `None` as a whole
/// for a pattern that cannot be compiled.
pub uninterp spec fn regex_groups(pattern: Seq<char>, haystack: Seq<char>) -> Option<
    Seq<Option<Seq<char>>>,
>;

/// What a list of optional strings says.
pub open spec fn opt_texts(v: Seq<Option<String>>) -> Seq<Option<Seq<char>>> {
    v.map_values(|s: Option<String>| text_opt(s))
}

/// What the result of a search for groups says.
pub open spec fn groups_found(r: Option<Vec<Option<String>>>) -> Option<Seq<Option<Seq<char>>>> {
    match r {
        Some(v) => Some(opt_texts(v@)),
        None => None,
    }
}

/// `Regex::new` and `Regex::captures_iter` of the regex crate: compiles
/// `pattern` and walks the successive matches in `haystack` that do not
/// overlap, taking from each what `Captures::get(1)` gives.
#[verifier::external_body]
pub(crate) fn first_groups(pattern: &str, haystack: &str) -> (r: Option<Vec<Option<String>>>)
    ensures
        groups_found(r) == regex_groups(pattern@, haystack@),
{
    match Regex::new(pattern) {
        Ok(re) => Some(
            re.captures_iter(haystack).map(|c| c.get(1).map(|m| m.as_str().to_string())).collect(),
        ),
        Err(_) => None,
    }
}

} // verus!
