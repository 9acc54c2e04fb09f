//! What can go wrong while a summary is made.

use vstd::prelude::*;

verus! {

/// The failures that end a summarisation. Neither leaves a partial summary.
#[derive(Debug, Clone, PartialEq, Eq)]
pub enum Error {
    /// Two embeddings that were to be compared differ in length.
    DimensionMismatch,
    /// The embedding provider failed on a sentence; the text is its report.
    EmbeddingProviderFailure(String),
}

/// A failure as plain values.
pub enum ErrorView {
    DimensionMismatch,
    EmbeddingProviderFailure(Seq<char>),
}

impl View for Error {
    type V = ErrorView;

    open spec fn view(&self) -> ErrorView {
        match self {
            Error::DimensionMismatch => ErrorView::DimensionMismatch,
            Error::EmbeddingProviderFailure(report) => ErrorView::EmbeddingProviderFailure(report@),
        }
    }
}

impl Error {
    /// What `message` returns.
    pub open spec fn spec_message(&self) -> Seq<char> {
        match self {
            Error::DimensionMismatch => "Embeddings have different dimensions"@,
            Error::EmbeddingProviderFailure(report) => report@,
        }
    }

    /// A description of the failure.
    pub fn message(&self) -> (text: String)
        ensures
            text@ == self.spec_message(),
    {
        match self {
            Error::DimensionMismatch => "Embeddings have different dimensions".to_owned(),
            Error::EmbeddingProviderFailure(report) => report.clone(),
        }
    }
}

} // verus!
