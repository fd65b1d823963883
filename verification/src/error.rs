//! The ways in which rewriting a chapter fails.

use vstd::prelude::*;

verus! {

/// Why a chapter could not be rewritten. Each of them stops the build.
#[derive(Debug, PartialEq, Eq)]
pub enum LinkError {
    /// The engine refused one of the library's patterns.
    Pattern,
    /// The resolver produced another number of URLs than it was given
    /// references.
    CountMismatch { expected: usize, found: usize },
    /// A resolved URL does not start with a known prefix of the
    /// documentation site.
    UnrecognizedUrl { url: String },
}

/// The mathematical value of a [`LinkError`].
pub enum LinkErrorView {
    Pattern,
    CountMismatch { expected: usize, found: usize },
    UnrecognizedUrl { url: Seq<char> },
}

impl View for LinkError {
    type V = LinkErrorView;

    open spec fn view(&self) -> LinkErrorView {
        match self {
            LinkError::Pattern => LinkErrorView::Pattern,
            LinkError::CountMismatch { expected, found } => LinkErrorView::CountMismatch {
                expected: *expected,
                found: *found,
            },
            LinkError::UnrecognizedUrl { url } => LinkErrorView::UnrecognizedUrl { url: url@ },
        }
    }
}

/// The value of a text or of the error in its place.
pub open spec fn text_result(r: Result<String, LinkError>) -> Result<Seq<char>, LinkErrorView> {
    match r {
        Ok(text) => Ok(text@),
        Err(e) => Err(e@),
    }
}

} // verus!
