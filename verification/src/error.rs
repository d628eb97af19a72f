//! What can go wrong in a reconciliation.

use crate::text::{join, joined};
use vstd::prelude::*;
use vstd::string::StringExecFns;

verus! {

/// The failures of the reconciliation engine.
#[derive(Debug)]
pub enum Error {
    /// Some node id is malformed or is no member of the declared parent
    /// group. It is raised before anything is read from or written to the
    /// store, and never retried.
    Validation { node_ids: Vec<String> },
    /// The remote service rejected or failed a request.
    Upstream { status: u16, payload: String },
    /// The scheduling of the fetch tasks itself failed; the whole fetch is
    /// given up.
    Concurrency { reason: String },
    /// No group carries the label that was looked up.
    NotFound { label: String },
}

/// What an [`Error`] holds, as plain values.
pub enum ErrorView {
    Validation { node_ids: Seq<Seq<char>> },
    Upstream { status: u16, payload: Seq<char> },
    Concurrency { reason: Seq<char> },
    NotFound { label: Seq<char> },
}

impl DeepView for Error {
    type V = ErrorView;

    open spec fn deep_view(&self) -> ErrorView {
        match self {
            Error::Validation { node_ids } => ErrorView::Validation {
                node_ids: node_ids.deep_view(),
            },
            Error::Upstream { status, payload } => ErrorView::Upstream {
                status: *status,
                payload: payload@,
            },
            Error::Concurrency { reason } => ErrorView::Concurrency { reason: reason@ },
            Error::NotFound { label } => ErrorView::NotFound { label: label@ },
        }
    }
}

impl View for Error {
    type V = ErrorView;

    open spec fn view(&self) -> ErrorView {
        self.deep_view()
    }
}

/// The words in which an error is reported.
pub open spec fn message_of(error: ErrorView) -> Seq<char> {
    match error {
        ErrorView::Validation { node_ids } => "Nodes '"@ + joined(node_ids, ", "@)
            + "' not valid"@,
        ErrorView::Upstream { status, payload } => payload,
        ErrorView::Concurrency { reason } => reason,
        ErrorView::NotFound { label } => "Group '"@ + label + "' not found"@,
    }
}

impl Error {
    /// The words in which this error is reported.
    pub fn message(&self) -> (text: String)
        ensures
            text@ == message_of(self@),
    {
        match self {
            Error::Validation { node_ids } => {
                let mut text = "Nodes '".to_string();
                let ids = join(node_ids, ", ");
                text.append(ids.as_str());
                text.append("' not valid");
                text
            },
            Error::Upstream { status, payload } => payload.clone(),
            Error::Concurrency { reason } => reason.clone(),
            Error::NotFound { label } => {
                let mut text = "Group '".to_string();
                text.append(label.as_str());
                text.append("' not found");
                text
            },
        }
    }
}

} // verus!
