//! How a run ended, whichever backend ran it, and what of it goes back to
//! the host.
//!
//! A run that ended in output is a success and its payload is that output; a
//! run that ended in a diagnostic is a failure and its payload is the failed
//! response on the wire. The embedded interpreter hands back the text of the
//! function's result or the text of its error.

use vstd::prelude::*;
use vstd::string::StrSliceExecFns;
use vstd::utf8::encode_utf8;
use crate::ext::codec::response_wire;
use crate::ext::frame::{Frame, FrameView, MessageType, frame_fits};
use crate::ext::msgpack::{MAX_LENGTH, text_fits};
use crate::ext::python_types::{PythonResponse, PythonResponseView};

verus! {

/// How a run ended.
#[derive(Debug, Clone, PartialEq, Eq)]
pub enum Outcome {
    /// The run gave this output.
    Success(Vec<u8>),
    /// The run could not be made or broke off, for this reason.
    Failure(String),
}

/// An outcome with its output as bytes and its diagnostic as characters.
pub enum OutcomeView {
    Success(Seq<u8>),
    Failure(Seq<char>),
}

impl View for Outcome {
    type V = OutcomeView;

    open spec fn view(&self) -> OutcomeView {
        match self {
            Outcome::Success(output) => OutcomeView::Success(output@),
            Outcome::Failure(message) => OutcomeView::Failure(message@),
        }
    }
}

/// The outcome of a call into the embedded interpreter.
pub open spec fn native_outcome_of(result: Result<Seq<char>, Seq<char>>) -> OutcomeView {
    match result {
        Ok(text) => OutcomeView::Success(encode_utf8(text)),
        Err(message) => OutcomeView::Failure(message),
    }
}

/// The response that tells the host how a run ended.
pub open spec fn response_of(outcome: OutcomeView) -> PythonResponseView {
    match outcome {
        OutcomeView::Success(_) => PythonResponseView::RunScript,
        OutcomeView::Failure(message) => PythonResponseView::Failure(message),
    }
}

/// Whether the payload of an outcome can be written, and fits the blob of a
/// frame.
pub open spec fn outcome_fits(outcome: OutcomeView) -> bool {
    match outcome {
        OutcomeView::Success(output) => output.len() <= MAX_LENGTH,
        OutcomeView::Failure(message) => text_fits(message) && response_wire(
            PythonResponseView::Failure(message),
        ).len() <= MAX_LENGTH,
    }
}

/// The payload of an outcome: the output of a success, and the failed
/// response on the wire for a failure.
pub open spec fn payload_of(outcome: OutcomeView) -> Seq<u8> {
    match outcome {
        OutcomeView::Success(output) => output,
        OutcomeView::Failure(message) => response_wire(PythonResponseView::Failure(message)),
    }
}

/// The frame in which an outcome goes back: under the id and the kind of
/// message of the frame that asked for the run.
pub open spec fn reply_of(id: u64, message_type: MessageType, outcome: OutcomeView) -> FrameView {
    FrameView { id, message_type, blob: payload_of(outcome) }
}

/// The outcome of a call into the embedded interpreter: the text of the
/// function's result is the output, the interpreter's error text is the
/// diagnostic.
pub fn native_outcome(result: Result<String, String>) -> (outcome: Outcome)
    ensures
        outcome@ == native_outcome_of(
            match result {
                Ok(text) => Ok(text@),
                Err(message) => Err(message@),
            },
        ),
{
    match result {
        Ok(text) => Outcome::Success(text.as_str().as_bytes_vec()),
        Err(message) => Outcome::Failure(message),
    }
}

impl Outcome {
    /// The response that tells the host how the run ended.
    pub fn response(&self) -> (response: PythonResponse)
        ensures
            response@ == response_of(self@),
    {
        match self {
            Outcome::Success(_) => PythonResponse::RunScript,
            Outcome::Failure(message) => PythonResponse::Failure(message.clone()),
        }
    }

    /// Whether the payload of the outcome can be written, and fits the blob
    /// of a frame.
    pub fn fits_wire(&self) -> (yes: bool)
        ensures
            yes == outcome_fits(self@),
    {
        match self {
            Outcome::Success(output) => output.len() <= MAX_LENGTH as usize,
            Outcome::Failure(_) => {
                let response: PythonResponse = self.response();
                response.fits_wire() && response.encode().len() <= MAX_LENGTH as usize
            },
        }
    }

    /// The payload of the outcome.
    pub fn payload(self) -> (payload: Vec<u8>)
        requires
            outcome_fits(self@),
        ensures
            payload@ == payload_of(self@),
    {
        match self {
            Outcome::Success(output) => output,
            Outcome::Failure(message) => PythonResponse::Failure(message).encode(),
        }
    }
}

/// The frame in which an outcome goes back to the host: it carries the id
/// and the kind of message of the frame that asked for the run, and the
/// payload of the outcome as its blob.
pub fn reply(id: u64, message_type: MessageType, outcome: Outcome) -> (frame: Frame)
    requires
        outcome_fits(outcome@),
    ensures
        frame@ == reply_of(id, message_type, outcome@),
        frame_fits(frame@),
{
    Frame { id, message_type, blob: outcome.payload() }
}

} // verus!
