//! Regular expressions, as the `regex` crate matches them.

use vstd::prelude::*;

use crate::model::text_of;

verus! {

/// The first match of the regular expression `pattern` in `haystack`, as the
/// `regex` crate finds it; `None` where `pattern` is no regular expression or
/// nothing in `haystack` matches.
pub uninterp spec fn first_match(pattern: Seq<char>, haystack: Seq<char>) -> Option<Seq<char>>;

/// `haystack` with the first match of the regular expression `pattern`
/// replaced by `replacement`, as the `regex` crate does it; `None` where
/// `pattern` is no regular expression.
pub uninterp spec fn first_replaced(
    pattern: Seq<char>,
    haystack: Seq<char>,
    replacement: Seq<char>,
) -> Option<Seq<char>>;

/// `regex::Regex::new`, then `Regex::find` and `Match::as_str`. The result is
/// named, not described: it is `None` where the pattern does not compile or
/// `find` gives no match.
#[verifier::external_body]
pub(crate) fn find_first(pattern: &str, haystack: &str) -> (r: Option<String>)
    ensures
        text_of(r) == first_match(pattern@, haystack@),
{
    match regex::Regex::new(pattern) {
        Ok(re) => match re.find(haystack) {
            Some(m) => Some(m.as_str().to_string()),
            None => None,
        },
        Err(_) => None,
    }
}

/// `regex::Regex::new`, then `Regex::replace`. The result is named, not
/// described: it is `None` where the pattern does not compile.
#[verifier::external_body]
pub(crate) fn replace_first(pattern: &str, haystack: &str, replacement: &str) -> (r: Option<
    String,
>)
    ensures
        text_of(r) == first_replaced(pattern@, haystack@, replacement@),
{
    match regex::Regex::new(pattern) {
        Ok(re) => Some(re.replace(haystack, replacement).into_owned()),
        Err(_) => None,
    }
}

} // verus!
