//! The validator: the matcher that decides whether a candidate belongs to
//! the language of the pattern.

use regex::Regex;
use vstd::prelude::*;

verus! {

/// The compiled matcher `regex::Regex`; the proofs know it only through
/// [`regex_accepts`].
#[verifier::external_type_specification]
#[verifier::external_body]
pub struct ExRegex(regex::Regex);

/// The compile error `regex::Error`; nothing of it is visible to the
/// proofs.
#[verifier::external_type_specification]
#[verifier::external_body]
pub struct ExRegexError(regex::Error);

/// Whether the compiled matcher `re` finds a match in `text`: the result of
/// `Regex::is_match`.
pub uninterp spec fn regex_accepts(re: Regex, text: Seq<char>) -> bool;

/// Whether the matcher that `Regex::new` compiles from `pattern` finds a
/// match in `text`. Nothing is said of patterns that do not compile.
pub uninterp spec fn pattern_matches(pattern: Seq<char>, text: Seq<char>) -> bool;

/// Whether `Regex::new` compiles `pattern`: it does unless the pattern is
/// invalid or its matcher would exceed the size limit.
pub uninterp spec fn pattern_compiles(pattern: Seq<char>) -> bool;

/// The report of the error with which `Regex::new` refuses `pattern`.
/// Nothing is said of patterns that compile.
pub uninterp spec fn compile_report(pattern: Seq<char>) -> Seq<char>;

/// Compiles `pattern` with `Regex::new`.
///
/// The outcome depends on the pattern alone. A matcher that comes back
/// accepts a text exactly if the pattern matches it; an error that comes
/// back has the report that belongs to the pattern.
#[verifier::external_body]
pub(crate) fn compile(pattern: &str) -> (r: Result<Regex, regex::Error>)
    ensures
        r is Ok <==> pattern_compiles(pattern@),
        r matches Ok(re) ==> forall|text: Seq<char>| #[trigger]
            regex_accepts(re, text) == pattern_matches(pattern@, text),
        r matches Err(e) ==> report_of(e) == compile_report(pattern@),
{
    Regex::new(pattern)
}

/// Asks `Regex::is_match` whether `re` finds a match anywhere in `text`.
#[verifier::external_body]
pub(crate) fn is_match(re: &Regex, text: &str) -> (b: bool)
    ensures
        b == regex_accepts(*re, text@),
{
    re.is_match(text)
}

/// The report that the `Display` impl of `regex::Error` writes for `e`.
pub uninterp spec fn report_of(e: regex::Error) -> Seq<char>;

/// The report of a compile error, as `to_string` gives it from the
/// `Display` impl of `regex::Error`.
#[verifier::external_body]
pub(crate) fn error_report(e: &regex::Error) -> (report: String)
    ensures
        report@ == report_of(*e),
{
    e.to_string()
}

} // verus!
