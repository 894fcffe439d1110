//! User-Agent patterns: a compiled regular expression that remembers the
//! pattern it was compiled from, so that contracts can speak of that pattern.

use vstd::prelude::*;

verus! {

#[verifier::external_type_specification]
#[verifier::external_body]
pub struct ExRegex(regex::Regex);

#[verifier::external_type_specification]
#[verifier::external_body]
pub struct ExRegexError(regex::Error);

/// Whether `regex::Regex::new` accepts `pattern`.
pub uninterp spec fn regex_compiles(pattern: Seq<char>) -> bool;

/// What `regex::Regex::is_match` answers for the regex compiled from `pattern`
/// on `haystack`.
pub uninterp spec fn regex_matches(pattern: Seq<char>, haystack: Seq<char>) -> bool;

/// What `regex::Regex::replace_all` gives for the regex compiled from
/// `pattern`, on `haystack`, with the replacement text `replacement`.
pub uninterp spec fn regex_replace_all(
    pattern: Seq<char>,
    haystack: Seq<char>,
    replacement: Seq<char>,
) -> Seq<char>;

/// A compiled regular expression together with the pattern it was built from.
pub struct UaRegex {
    pattern: String,
    regex: regex::Regex,
}

impl View for UaRegex {
    type V = Seq<char>;

    /// The pattern the regex was compiled from.
    closed spec fn view(&self) -> Seq<char> {
        self.pattern@
    }
}

/// `regex::Regex::new`: the contract claims that the call succeeds exactly when
/// the pattern compiles (a named result); nothing is claimed of the regex.
#[verifier::external_body]
fn compile_regex(pattern: &str) -> (r: Result<regex::Regex, regex::Error>)
    ensures
        r is Ok <==> regex_compiles(pattern@),
{
    regex::Regex::new(pattern)
}

/// The `Display` text of a `regex::Error`; nothing is claimed of it.
#[verifier::external_body]
fn regex_error_text(e: &regex::Error) -> String {
    e.to_string()
}

/// `regex::Regex::is_match` on the regex held by `re`: the contract claims the
/// named result for the pattern `re` was compiled from.
#[verifier::external_body]
pub(crate) fn ua_regex_is_match(re: &UaRegex, haystack: &str) -> (b: bool)
    ensures
        b == regex_matches(re@, haystack@),
{
    re.regex.is_match(haystack)
}

/// `regex::Regex::replace_all` on the regex held by `re`, turned into a
/// `String`: the contract claims the named result, and, as the crate documents,
/// that a haystack without a match comes back unchanged.
#[verifier::external_body]
pub(crate) fn ua_regex_replace_all(re: &UaRegex, haystack: &str, replacement: &str) -> (s: String)
    ensures
        s@ == regex_replace_all(re@, haystack@, replacement@),
        !regex_matches(re@, haystack@) ==> s@ == haystack@,
{
    re.regex.replace_all(haystack, replacement).to_string()
}

impl UaRegex {
    /// Compiles `pattern`. On failure the error carries the regex crate's
    /// description of what is wrong with the pattern.
    pub fn new(pattern: &str) -> (r: Result<UaRegex, String>)
        ensures
            r is Ok <==> regex_compiles(pattern@),
            r matches Ok(re) ==> re@ == pattern@,
    {
        match compile_regex(pattern) {
            Ok(regex) => Ok(UaRegex { pattern: pattern.to_owned(), regex }),
            Err(e) => Err(regex_error_text(&e)),
        }
    }

    /// The pattern this regex was compiled from.
    pub fn pattern(&self) -> (p: &str)
        ensures
            p@ == self@,
    {
        self.pattern.as_str()
    }
}

} // verus!
