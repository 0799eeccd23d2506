use vstd::prelude::*;
use regex::Regex;

verus! {

/// Whether the regular expression `pattern` matches anywhere in `text`;
/// `None` where `pattern` is no regular expression that the engine takes.
pub uninterp spec fn regex_is_match(pattern: Seq<char>, text: Seq<char>) -> Option<bool>;

/// The parts of `text` that the regular expression `pattern` matches, from
/// left to right and without overlap; `None` where `pattern` is no regular
/// expression that the engine takes.
pub uninterp spec fn regex_find_all(pattern: Seq<char>, text: Seq<char>) -> Option<
    Seq<Seq<char>>,
>;

/// The texts of a list of strings that may be missing.
pub open spec fn found_texts(r: Option<Vec<String>>) -> Option<Seq<Seq<char>>> {
    match r {
        Some(v) => Some(v@.map_values(|s: String| s@)),
        None => None,
    }
}

/// Whether `pattern` matches somewhere in `text`.
///
/// Trusted: `regex::Regex::new` compiles `pattern` and fails with an error
/// on a pattern it does not take; `regex::Regex::is_match` then searches
/// `text`. Both depend on their arguments alone and neither panics; the
/// outcome is given the name `regex_is_match`.
#[verifier::external_body]
pub(crate) fn is_match(pattern: &str, text: &str) -> (r: Option<bool>)
    ensures
        r == regex_is_match(pattern@, text@),
{
    match Regex::new(pattern) {
        Ok(re) => Some(re.is_match(text)),
        Err(_) => None,
    }
}

/// The parts of `text` that `pattern` matches.
///
/// Trusted: `regex::Regex::new` compiles `pattern` and fails with an error
/// on a pattern it does not take; `regex::Regex::find_iter` then yields the
/// successive matches in `text`, each handed out as the text it covers.
/// Both depend on their arguments alone and neither panics; the outcome is
/// given the name `regex_find_all`.
#[verifier::external_body]
pub(crate) fn find_all(pattern: &str, text: &str) -> (r: Option<Vec<String>>)
    ensures
        found_texts(r) == regex_find_all(pattern@, text@),
{
    match Regex::new(pattern) {
        Ok(re) => Some(re.find_iter(text).map(|m| m.as_str().to_string()).collect()),
        Err(_) => None,
    }
}

} // verus!
