//! Regular expressions, as the `regex` crate provides them.
//!
//! Nothing in this file is proved: each item states what the rest of the
//! library takes on trust about `regex`.

use vstd::prelude::*;

verus! {

/// `regex::Regex`, a compiled regular expression. Its inside is not modelled.
#[verifier::external_type_specification]
#[verifier::external_body]
pub struct ExRegex(regex::Regex);

/// `regex::Error`, the reason why a pattern was not compiled. Its inside is not modelled.
#[verifier::external_type_specification]
#[verifier::external_body]
pub struct ExRegexError(regex::Error);

/// What `regex::Regex::new` returns for `pattern`: the compiled expression, or
/// the error that says why the pattern was refused.
pub uninterp spec fn regex_new(pattern: Seq<char>) -> Result<regex::Regex, regex::Error>;

/// What `regex::Regex::is_match` returns: whether `re` matches anywhere in `haystack`.
pub uninterp spec fn regex_is_match(re: regex::Regex, haystack: Seq<char>) -> bool;

/// `regex::Regex::new` compiles a pattern with the crate's default settings.
/// Assumed: the outcome depends on the text of the pattern and on nothing
/// else, so that it can be called [`regex_new`] of that text.
pub assume_specification[ regex::Regex::new ](re: &str) -> (r: Result<regex::Regex, regex::Error>)
    ensures
        r == regex_new(re@),
;

/// `regex::Regex::is_match` searches `haystack` for a match. Assumed: the
/// answer depends on the expression and on the text of the haystack alone, so
/// that it can be called [`regex_is_match`] of the two.
pub assume_specification[ regex::Regex::is_match ](re: &regex::Regex, haystack: &str) -> (b: bool)
    ensures
        b == regex_is_match(*re, haystack@),
;

/// The text that `regex::Error` shows for `error` through `Display`.
pub uninterp spec fn regex_error_text(error: regex::Error) -> Seq<char>;

/// `to_string` on a `regex::Error`, which writes it through its `Display`.
/// Assumed: the text depends on the error alone, so that it can be called
/// [`regex_error_text`] of it.
#[verifier::external_body]
pub(crate) fn error_text(error: &regex::Error) -> (text: String)
    ensures
        text@ == regex_error_text(*error),
{
    error.to_string()
}

} // verus!
