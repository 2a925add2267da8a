//! Requests and responses as the in-host actor exchanges them with other
//! processes. The code of a request and the output of a response travel in
//! the message's blob, not in these values.

use vstd::prelude::*;

verus! {

#[derive(Debug, Clone, Copy, PartialEq, Eq, Structural)]
pub enum PythonRequest {
    /// Run the source text carried in the blob.
    Run,
}

#[derive(Debug, Clone, PartialEq, Eq)]
pub enum PythonResponse {
    /// The run finished; its output is in the blob.
    Run,
    /// The run failed, with a diagnostic.
    Failure(String),
}

/// A response with its text as a sequence of characters.
pub enum PythonResponseView {
    Run,
    Failure(Seq<char>),
}

impl View for PythonResponse {
    type V = PythonResponseView;

    open spec fn view(&self) -> PythonResponseView {
        match self {
            PythonResponse::Run => PythonResponseView::Run,
            PythonResponse::Failure(message) => PythonResponseView::Failure(message@),
        }
    }
}

} // verus!
