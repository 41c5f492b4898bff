//! The errors of a hydration.

use vstd::prelude::*;
use vstd::string::*;

verus! {

/// Why a fetch did not produce a value.
#[derive(Clone, Copy, Debug, PartialEq, Eq, Structural)]
pub enum FetchFailure {
    /// The store holds no value under the key.
    NotFound,
    /// The store failed while answering.
    StoreError,
}

/// Why a hydration produced no mapping.
#[derive(Clone, Debug, PartialEq, Eq)]
pub enum HydrationError {
    /// A scanned key does not have the shape `<prefix>:<identifier>`.
    MalformedKey { key: String },
    /// Under the strict policy, a key's value could not be fetched.
    HydrationAborted { key: String, failure: FetchFailure, cause: String },
    /// Two fetched keys decode to the same identifier.
    DuplicateIdentifier { identifier: String },
    /// The background work ended without delivering a result.
    BridgeClosed,
}

/// The mathematical content of a [`HydrationError`].
pub enum HydrationErrorView {
    MalformedKey { key: Seq<char> },
    HydrationAborted { key: Seq<char>, failure: FetchFailure, cause: Seq<char> },
    DuplicateIdentifier { identifier: Seq<char> },
    BridgeClosed,
}

impl View for HydrationError {
    type V = HydrationErrorView;

    open spec fn view(&self) -> HydrationErrorView {
        match *self {
            HydrationError::MalformedKey { key } => HydrationErrorView::MalformedKey { key: key@ },
            HydrationError::HydrationAborted { key, failure, cause } => {
                HydrationErrorView::HydrationAborted { key: key@, failure, cause: cause@ }
            },
            HydrationError::DuplicateIdentifier { identifier } => {
                HydrationErrorView::DuplicateIdentifier { identifier: identifier@ }
            },
            HydrationError::BridgeClosed => HydrationErrorView::BridgeClosed,
        }
    }
}

/// The text that reports an error: what went wrong, and for which key.
pub open spec fn message_text(error: HydrationErrorView) -> Seq<char> {
    match error {
        HydrationErrorView::MalformedKey { key } => "malformed key: "@ + key,
        HydrationErrorView::HydrationAborted { key, failure, cause } => match failure {
            FetchFailure::NotFound => "hydration aborted: not found: "@ + key,
            FetchFailure::StoreError => "hydration aborted: store error: "@ + key + ": "@ + cause,
        },
        HydrationErrorView::DuplicateIdentifier { identifier } => "duplicate identifier: "@
            + identifier,
        HydrationErrorView::BridgeClosed => "bridge closed before a result was delivered"@,
    }
}

impl HydrationError {
    /// The text that reports this error.
    pub fn message(&self) -> (text: String)
        ensures
            text@ == message_text(self@),
    {
        match self {
            HydrationError::MalformedKey { key } => {
                let mut text = String::from_str("malformed key: ");
                text.append(key.as_str());
                text
            },
            HydrationError::HydrationAborted { key, failure, cause } => {
                match failure {
                    FetchFailure::NotFound => {
                        let mut text = String::from_str("hydration aborted: not found: ");
                        text.append(key.as_str());
                        text
                    },
                    FetchFailure::StoreError => {
                        let mut text = String::from_str("hydration aborted: store error: ");
                        text.append(key.as_str());
                        text.append(": ");
                        text.append(cause.as_str());
                        text
                    },
                }
            },
            HydrationError::DuplicateIdentifier { identifier } => {
                let mut text = String::from_str("duplicate identifier: ");
                text.append(identifier.as_str());
                text
            },
            HydrationError::BridgeClosed => String::from_str(
                "bridge closed before a result was delivered",
            ),
        }
    }
}

} // verus!
