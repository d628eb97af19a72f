//! The calls into other crates.
//!
//! Regular expressions are those of the crate `regex`, host lists those of the
//! crate `hostlist-parser`. What either returns is not stated here but named,
//! as a function of what it is given. That the calls return what the names
//! stand for is believed of them, not proved.

use vstd::prelude::*;

verus! {

/// Why `regex::Regex::new` refuses `pattern`, in the words of its error;
/// nothing where it makes a regular expression of the pattern.
pub uninterp spec fn regex_refusal(pattern: Seq<char>) -> Option<Seq<char>>;

/// Whether the regular expression that `regex::Regex::new` makes of `pattern`
/// matches somewhere in `haystack`, as `regex::Regex::is_match` tells.
pub uninterp spec fn regex_is_match(pattern: Seq<char>, haystack: Seq<char>) -> bool;

/// The host names for which the host list `input` stands, as
/// `hostlist_parser::parse` gives them; or, where it cannot read the list, its
/// error in words.
pub uninterp spec fn hostlist_expansion(input: Seq<char>) -> Result<Seq<Seq<char>>, Seq<char>>;

/// Calls `regex::Regex::new` on `pattern` and hands back the error that it
/// gives, in words. The contract claims only that the outcome is the one that
/// [`regex_refusal`] names.
#[verifier::external_body]
pub(crate) fn pattern_refusal(pattern: &str) -> (refusal: Option<String>)
    ensures
        refusal.deep_view() == regex_refusal(pattern@),
{
    match regex::Regex::new(pattern) {
        Ok(_) => None,
        Err(error) => Some(error.to_string()),
    }
}

/// Calls `regex::Regex::new` on `pattern` and `regex::Regex::is_match` of the
/// regular expression on `haystack`; nothing comes back where the pattern is
/// refused. A regular expression cannot be carried from one call to the next
/// with its pattern known, so each call makes it anew. The contract claims
/// only that the outcome is the one that [`regex_refusal`] and
/// [`regex_is_match`] name.
#[verifier::external_body]
pub(crate) fn pattern_match(pattern: &str, haystack: &str) -> (matched: Option<bool>)
    ensures
        matched == match regex_refusal(pattern@) {
            None => Some(regex_is_match(pattern@, haystack@)),
            Some(_) => None::<bool>,
        },
{
    match regex::Regex::new(pattern) {
        Ok(compiled) => Some(compiled.is_match(haystack)),
        Err(_) => None,
    }
}

/// Calls `hostlist_parser::parse` on `input` and hands back the host names, or
/// its error in words. The list is expanded in memory: one that stands for
/// more hosts than memory holds ends the process, as any allocation that fails
/// does. The contract claims only that the outcome is the one that
/// [`hostlist_expansion`] names.
#[verifier::external_body]
pub(crate) fn expand_hostlist(input: &str) -> (hosts: Result<Vec<String>, String>)
    ensures
        match hosts {
            Ok(names) => hostlist_expansion(input@) == Ok::<Seq<Seq<char>>, Seq<char>>(
                names.deep_view(),
            ),
            Err(message) => hostlist_expansion(input@) == Err::<Seq<Seq<char>>, Seq<char>>(
                message@,
            ),
        },
{
    match hostlist_parser::parse(input) {
        Ok(names) => Ok(names),
        Err(error) => Err(error.to_string()),
    }
}

} // verus!
