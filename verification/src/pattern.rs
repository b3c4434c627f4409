//! The `regex` crate as this library sees it. Nothing here is proved: each
//! item states what the library takes for granted of a regular expression.
//! The library makes its expressions with `Regex::new` and in no other way.

use crate::text::is_subsequence;
use regex::Regex;
use vstd::prelude::*;

verus! {

/// `regex::Regex`, a compiled regular expression. Its inside is not visible to
/// the verifier.
#[verifier::external_type_specification]
#[verifier::external_body]
pub struct ExRegex(Regex);

/// `regex::Error`, the reason why a pattern was not compiled.
#[verifier::external_type_specification]
#[verifier::external_body]
pub struct ExRegexError(regex::Error);

/// Whether `Regex::new` compiles the text `pattern`: whether it is an
/// expression in the syntax of the crate, and not too large for it.
pub uninterp spec fn regex_compiles(pattern: Seq<char>) -> bool;

/// What a compiled expression stands for: the pattern text that `Regex::new`
/// made it from.
pub uninterp spec fn regex_source(re: Regex) -> Seq<char>;

/// Whether the expression written as `pattern` matches anywhere in
/// `haystack`, as `Regex::is_match` finds.
pub uninterp spec fn regex_is_match(pattern: Seq<char>, haystack: Seq<char>) -> bool;

/// `haystack` with every match of the expression written as `pattern`
/// replaced by `rep`, as `Regex::replace_all` builds it where there is a
/// match: the matches are found from left to right and do not overlap.
pub uninterp spec fn regex_replace_all(
    pattern: Seq<char>,
    haystack: Seq<char>,
    rep: Seq<char>,
) -> Seq<char>;

/// What `Regex::replace_all` returns: the replaced text, and `haystack` itself
/// where nothing matches.
pub open spec fn replaced(pattern: Seq<char>, haystack: Seq<char>, rep: Seq<char>) -> Seq<char> {
    if regex_is_match(pattern, haystack) {
        regex_replace_all(pattern, haystack, rep)
    } else {
        haystack
    }
}

/// `Regex::new` compiles a pattern or refuses it. Claimed: whether it
/// compiles depends on nothing but the pattern text, and an expression that
/// it returns stands for exactly the pattern given. Nothing is claimed about
/// which patterns it compiles.
pub assume_specification[ Regex::new ](re: &str) -> (r: Result<Regex, regex::Error>)
    ensures
        (r is Ok) <==> regex_compiles(re@),
        r matches Ok(compiled) ==> regex_source(compiled) == re@,
;

/// `Regex::is_match` says whether the expression matches anywhere in
/// `haystack`. Claimed: the answer depends on nothing but the pattern that
/// the expression stands for and the text searched.
pub assume_specification[ Regex::is_match ](re: &Regex, haystack: &str) -> (r: bool)
    ensures
        r == regex_is_match(regex_source(*re), haystack@),
;

/// `Regex::replace_all` with a text as the replacement. Claimed: the result
/// depends on nothing but the pattern that the expression stands for, the
/// text searched and the replacement; as the documentation says, it is the
/// text searched where the expression matches nowhere in it; and with the
/// empty text as the replacement it is the text searched with the matches
/// left out, so that nothing is added and nothing changes place.
#[verifier::external_body]
pub(crate) fn replace_all(re: &Regex, haystack: &str, rep: &str) -> (r: String)
    ensures
        regex_is_match(regex_source(*re), haystack@) ==> r@ == regex_replace_all(
            regex_source(*re),
            haystack@,
            rep@,
        ),
        !regex_is_match(regex_source(*re), haystack@) ==> r@ == haystack@,
        rep@.len() == 0 ==> is_subsequence(r@, haystack@),
{
    re.replace_all(haystack, rep).into_owned()
}

} // verus!
