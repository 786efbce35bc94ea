//! Error types of the token generator and of the orchestrator.

use vstd::prelude::*;
use vstd::string::StringExecFns;

verus! {

/// Errors raised while generating text from a token tree.
#[derive(Debug)]
pub enum GenrexError {
    /// The validator rejected the pattern.
    InvalidRegex(String),
    /// No candidate was found within the configured limits.
    NoMatch,
    /// The time budget ran out.
    Timeout,
    /// A back-reference cannot be resolved.
    BackreferenceError(String),
    /// The pattern uses a construct that cannot be generated.
    UnsupportedFeature(String),
    /// A token tree violates an invariant of its construction.
    Internal(String),
}

/// Mathematical view of a [`GenrexError`]: the variant and the detail text.
pub enum GenrexErrorView {
    InvalidRegex(Seq<char>),
    NoMatch,
    Timeout,
    BackreferenceError(Seq<char>),
    UnsupportedFeature(Seq<char>),
    Internal(Seq<char>),
}

impl GenrexErrorView {
    /// The text shown for the error.
    pub open spec fn message(self) -> Seq<char> {
        match self {
            GenrexErrorView::InvalidRegex(detail) => "invalid regex pattern: "@ + detail,
            GenrexErrorView::NoMatch => "no match found within constraints"@,
            GenrexErrorView::Timeout => "timeout reached during generation"@,
            GenrexErrorView::BackreferenceError(detail) => "backreference or group error: "@
                + detail,
            GenrexErrorView::UnsupportedFeature(detail) => "unsupported regex feature: "@ + detail,
            GenrexErrorView::Internal(detail) => "internal error: "@ + detail,
        }
    }
}

impl View for GenrexError {
    type V = GenrexErrorView;

    open spec fn view(&self) -> GenrexErrorView {
        match self {
            GenrexError::InvalidRegex(detail) => GenrexErrorView::InvalidRegex(detail@),
            GenrexError::NoMatch => GenrexErrorView::NoMatch,
            GenrexError::Timeout => GenrexErrorView::Timeout,
            GenrexError::BackreferenceError(detail) => GenrexErrorView::BackreferenceError(
                detail@,
            ),
            GenrexError::UnsupportedFeature(detail) => GenrexErrorView::UnsupportedFeature(
                detail@,
            ),
            GenrexError::Internal(detail) => GenrexErrorView::Internal(detail@),
        }
    }
}

/// `prefix` followed by `detail`.
fn prefixed(prefix: &str, detail: &String) -> (text: String)
    ensures
        text@ == prefix@ + detail@,
{
    let mut text = String::from_str(prefix);
    text.append(detail.as_str());
    text
}

impl GenrexError {
    /// The text shown for the error.
    pub fn message(&self) -> (text: String)
        ensures
            text@ == self@.message(),
    {
        match self {
            GenrexError::InvalidRegex(detail) => prefixed("invalid regex pattern: ", detail),
            GenrexError::NoMatch => String::from_str("no match found within constraints"),
            GenrexError::Timeout => String::from_str("timeout reached during generation"),
            GenrexError::BackreferenceError(detail) => prefixed(
                "backreference or group error: ",
                detail,
            ),
            GenrexError::UnsupportedFeature(detail) => prefixed(
                "unsupported regex feature: ",
                detail,
            ),
            GenrexError::Internal(detail) => prefixed("internal error: ", detail),
        }
    }
}

/// Errors of the generator as a whole.
#[derive(Debug)]
pub enum GenError {
    /// The validator rejected the pattern; the text is the validator's report.
    InvalidRegex(String),
    /// No candidate was found within the configured limits.
    NoMatch,
}

/// Mathematical view of a [`GenError`].
pub enum GenErrorView {
    InvalidRegex(Seq<char>),
    NoMatch,
}

impl GenErrorView {
    /// The text shown for the error.
    pub open spec fn message(self) -> Seq<char> {
        match self {
            GenErrorView::InvalidRegex(detail) => "invalid regex: "@ + detail,
            GenErrorView::NoMatch => "no match found within constraints"@,
        }
    }

    /// The same failure in the vocabulary of the token generator.
    pub open spec fn widen(self) -> GenrexErrorView {
        match self {
            GenErrorView::InvalidRegex(detail) => GenrexErrorView::InvalidRegex(detail),
            GenErrorView::NoMatch => GenrexErrorView::NoMatch,
        }
    }
}

impl View for GenError {
    type V = GenErrorView;

    open spec fn view(&self) -> GenErrorView {
        match self {
            GenError::InvalidRegex(detail) => GenErrorView::InvalidRegex(detail@),
            GenError::NoMatch => GenErrorView::NoMatch,
        }
    }
}

impl GenError {
    /// The text shown for the error.
    pub fn message(&self) -> (text: String)
        ensures
            text@ == self@.message(),
    {
        match self {
            GenError::InvalidRegex(detail) => prefixed("invalid regex: ", detail),
            GenError::NoMatch => String::from_str("no match found within constraints"),
        }
    }

    /// Restates the failure in the vocabulary of the token generator.
    pub fn widen(self) -> (e: GenrexError)
        ensures
            e@ == self@.widen(),
    {
        match self {
            GenError::InvalidRegex(detail) => GenrexError::InvalidRegex(detail),
            GenError::NoMatch => GenrexError::NoMatch,
        }
    }
}

} // verus!
