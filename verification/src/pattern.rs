//! Regular expressions, as the `regex` crate compiles and matches them.

use crate::text::same_text;
use regex::Error;
use regex::Regex;
use vstd::prelude::*;

verus! {

#[verifier::external_type_specification]
#[verifier::external_body]
pub struct ExRegex(Regex);

#[verifier::external_type_specification]
#[verifier::external_body]
pub struct ExRegexError(Error);

/// What `Regex::is_match` returns for a compiled expression and a text:
/// whether the expression matches somewhere in the text.
pub uninterp spec fn regex_matches(regex: Regex, text: Seq<char>) -> bool;

/// What `Regex::as_str` returns for a compiled expression: the pattern it was
/// compiled from.
pub uninterp spec fn regex_source(regex: Regex) -> Seq<char>;

/// Whether `Regex::new` accepts a pattern: the pattern is well-formed and
/// what it compiles to stays within the limits that the crate sets itself.
pub uninterp spec fn regex_compiles(pattern: Seq<char>) -> bool;

/// `Regex::new` compiles `re`. It succeeds on the patterns that it accepts,
/// and the expression that it returns reports `re` as its source.
pub assume_specification[ Regex::new ](re: &str) -> (r: Result<Regex, Error>)
    ensures
        r is Ok <==> regex_compiles(re@),
        r matches Ok(regex) ==> regex_source(regex) == re@,
;

/// `Regex::is_match` says whether the expression matches somewhere in
/// `haystack`.
pub assume_specification[ Regex::is_match ](regex: &Regex, haystack: &str) -> (b: bool)
    ensures
        b == regex_matches(*regex, haystack@),
;

/// `Regex::as_str` hands out the pattern that the expression was compiled
/// from.
pub assume_specification<'a>[ Regex::as_str ](regex: &'a Regex) -> (source: &'a str)
    ensures
        source@ == regex_source(*regex),
;

/// The patterns that `regexes` were compiled from, in order.
pub open spec fn sources(regexes: Seq<Regex>) -> Seq<Seq<char>> {
    Seq::new(regexes.len(), |i: int| regex_source(regexes[i]))
}

/// Whether one of `regexes` matches somewhere in `text`.
pub open spec fn any_matches(regexes: Seq<Regex>, text: Seq<char>) -> bool {
    exists|i: int| 0 <= i < regexes.len() && regex_matches(#[trigger] regexes[i], text)
}

/// Whether one of `regexes` matches somewhere in `text`.
pub fn matches_any(regexes: &Vec<Regex>, text: &str) -> (found: bool)
    ensures
        found == any_matches(regexes@, text@),
{
    let mut i: usize = 0;
    while i < regexes.len()
        invariant
            i <= regexes.len(),
            forall|j: int| 0 <= j < i ==> !regex_matches(#[trigger] regexes@[j], text@),
        decreases regexes.len() - i,
    {
        if regexes[i].is_match(text) {
            return true;
        }
        i += 1;
    }
    false
}

/// Whether the two lists were compiled from the same patterns, in the same
/// order.
pub fn same_sources(a: &Vec<Regex>, b: &Vec<Regex>) -> (same: bool)
    ensures
        same == (sources(a@) == sources(b@)),
{
    if a.len() != b.len() {
        assert(sources(a@).len() != sources(b@).len());
        return false;
    }
    let mut i: usize = 0;
    while i < a.len()
        invariant
            i <= a.len(),
            a.len() == b.len(),
            forall|j: int| 0 <= j < i ==> regex_source(a@[j]) == regex_source(b@[j]),
        decreases a.len() - i,
    {
        if !same_text(a[i].as_str(), b[i].as_str()) {
            assert(sources(a@)[i as int] != sources(b@)[i as int]);
            return false;
        }
        i += 1;
    }
    assert(sources(a@) =~= sources(b@));
    true
}

} // verus!
