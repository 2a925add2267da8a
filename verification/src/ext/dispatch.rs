//! The dispatcher: which backend serves a frame, and with what.
//!
//! The blob of a frame is read from its first byte. Where a request begins
//! there and is whole, the embedded interpreter serves it, with the call the
//! request describes. Where an envelope begins there and is no whole request,
//! the frame is rejected with the error of reading it, and nothing is run: so
//! it is for a request that is cut short, for a name that is no request's,
//! for a field of the wrong type and for an empty blob. Only where no
//! envelope begins at all, neither a name nor a map, the blob is source text
//! and the sandbox serves it.
//!
//! A job keeps the id and the kind of message of its frame, under which its
//! result goes back, and the serial number of the run.

use vstd::prelude::*;
use crate::ext::codec::{
    RUN_SCRIPT, decoded_request, request_fits, request_wire, lemma_names,
    lemma_request_round_trip, lemma_truncated_request_is_rejected,
    lemma_unknown_request_tag_is_rejected,
};
use crate::ext::executor::{OutcomeView, outcome_fits, payload_of, reply_of};
use crate::ext::frame::{
    Frame, FrameView, MessageType, decoded_frame, frame_wire, lemma_frame_round_trip,
};
use crate::ext::msgpack::{DecodeError, MAX_LENGTH, parse_length_header, parse_str};
use crate::ext::native::{Invocation, InvocationView, invocation_of, run_python};
use crate::ext::python_types::{PythonRequest, PythonRequestView};
use crate::ext::tagged::{
    keyed_variant_wire, parse_variant, read_variant, tag_bytes, unit_variant_wire,
    lemma_keyed_variant_round_trip, lemma_unit_variant_round_trip, lemma_variant_cut,
};

verus! {

/// What a backend is to run.
#[derive(Debug, Clone, PartialEq, Eq)]
pub enum Work {
    /// A call of a function in a script, for the embedded interpreter.
    Script(Invocation),
    /// Source text, for the sandbox, which reads it from its standard
    /// input.
    Source(Vec<u8>),
}

/// One run: the frame fields under which its result goes back, its serial
/// number among the runs of this worker, and what is run.
#[derive(Debug, Clone, PartialEq, Eq)]
pub struct Job {
    pub id: u64,
    pub message_type: MessageType,
    pub serial: u64,
    pub work: Work,
}

/// Work with its texts as sequences.
pub enum WorkView {
    Script(InvocationView),
    Source(Seq<u8>),
}

/// A job with its work as sequences.
pub struct JobView {
    pub id: u64,
    pub message_type: MessageType,
    pub serial: u64,
    pub work: WorkView,
}

impl View for Work {
    type V = WorkView;

    open spec fn view(&self) -> WorkView {
        match self {
            Work::Script(invocation) => WorkView::Script(invocation@),
            Work::Source(source) => WorkView::Source(source@),
        }
    }
}

impl View for Job {
    type V = JobView;

    open spec fn view(&self) -> JobView {
        JobView {
            id: self.id,
            message_type: self.message_type,
            serial: self.serial,
            work: self.work@,
        }
    }
}

/// Whether no envelope begins at the front of a blob: its first byte begins
/// neither a name nor a map.
pub open spec fn begins_no_envelope(blob: Seq<u8>) -> bool {
    parse_variant(blob) == Err::<((Seq<u8>, bool), int), DecodeError>(DecodeError::TypeMismatch)
}

/// What is run for a blob as the run with this serial number, where the
/// packages lie under `home`, or the error with which the blob is rejected.
pub open spec fn work_of(home: Seq<char>, serial: u64, blob: Seq<u8>) -> Result<
    WorkView,
    DecodeError,
> {
    match decoded_request(blob) {
        Ok(request) => Ok(WorkView::Script(invocation_of(home, serial, request))),
        Err(error) => if begins_no_envelope(blob) {
            Ok(WorkView::Source(blob))
        } else {
            Err(error)
        },
    }
}

/// The job that serves `frame` as the run with this serial number, or the
/// error with which the frame is rejected.
pub open spec fn job_of(home: Seq<char>, serial: u64, frame: FrameView) -> Result<
    JobView,
    DecodeError,
> {
    match work_of(home, serial, frame.blob) {
        Ok(work) => Ok(
            JobView { id: frame.id, message_type: frame.message_type, serial, work },
        ),
        Err(error) => Err(error),
    }
}

/// Decides how a frame is served as the run with this serial number, or
/// rejects it.
pub fn python(home: &str, serial: u64, frame: Frame) -> (result: Result<Job, DecodeError>)
    ensures
        match result {
            Ok(job) => job_of(home@, serial, frame@) == Ok::<JobView, DecodeError>(job@),
            Err(error) => job_of(home@, serial, frame@) == Err::<JobView, DecodeError>(error),
        },
{
    let Frame { id, message_type, blob } = frame;
    let work: Work = match PythonRequest::decode(blob.as_slice()) {
        Ok(request) => Work::Script(run_python(home, serial, request)),
        Err(error) => {
            assert(blob@.skip(0) =~= blob@);
            match read_variant(blob.as_slice(), 0) {
                Err(DecodeError::TypeMismatch) => Work::Source(blob),
                _ => {
                    return Err(error);
                },
            }
        },
    };
    Ok(Job { id, message_type, serial, work })
}

/// A blob is run as source text only where no envelope begins in it, and a
/// blob in which an envelope begins is either a whole request or rejected
/// with the error of reading it.
pub proof fn lemma_source_only_where_no_envelope_begins(
    home: Seq<char>,
    serial: u64,
    blob: Seq<u8>,
)
    ensures
        work_of(home, serial, blob) matches Ok(WorkView::Source(_)) ==> begins_no_envelope(blob),
        !begins_no_envelope(blob) ==> work_of(home, serial, blob) == match decoded_request(blob) {
            Ok(request) => Ok::<WorkView, DecodeError>(
                WorkView::Script(invocation_of(home, serial, request)),
            ),
            Err(error) => Err::<WorkView, DecodeError>(error),
        },
{
}

/// A blob that is a written request is served by the embedded interpreter,
/// with the call that the request describes.
pub proof fn lemma_written_request_is_served_as_script(
    home: Seq<char>,
    serial: u64,
    request: PythonRequestView,
)
    requires
        request_fits(request),
    ensures
        work_of(home, serial, request_wire(request)) == Ok::<WorkView, DecodeError>(
            WorkView::Script(invocation_of(home, serial, request)),
        ),
{
    lemma_request_round_trip(request);
}

/// A blob that ends before a written request does is rejected, as ending too
/// early, and nothing is run for it.
pub proof fn lemma_truncated_request_is_not_run(
    home: Seq<char>,
    serial: u64,
    request: PythonRequestView,
    kept: int,
)
    requires
        request_fits(request),
        0 <= kept < request_wire(request).len(),
    ensures
        work_of(home, serial, request_wire(request).take(kept)) == Err::<WorkView, DecodeError>(
            DecodeError::Truncated,
        ),
{
    let bytes = request_wire(request);
    lemma_truncated_request_is_rejected(request, kept);
    // The whole request begins with its name as a key, so what is left of
    // it begins with that, or ends too early to tell.
    lemma_names();
    let tag = tag_bytes(RUN_SCRIPT);
    let head = keyed_variant_wire(tag);
    assert(bytes =~= head + bytes.skip(head.len() as int));
    lemma_keyed_variant_round_trip(tag, bytes.skip(head.len() as int));
    lemma_variant_cut(bytes, kept);
}

/// A blob in which another name stands in the place of a request's is
/// rejected, as naming no variant, and nothing is run for it.
pub proof fn lemma_unknown_tag_is_not_run(
    home: Seq<char>,
    serial: u64,
    tag: Seq<u8>,
    rest: Seq<u8>,
)
    requires
        tag.len() <= MAX_LENGTH,
        tag != tag_bytes(RUN_SCRIPT),
    ensures
        work_of(home, serial, keyed_variant_wire(tag) + rest) == Err::<WorkView, DecodeError>(
            DecodeError::UnknownVariant,
        ),
        work_of(home, serial, unit_variant_wire(tag) + rest) == Err::<WorkView, DecodeError>(
            DecodeError::UnknownVariant,
        ),
{
    lemma_unknown_request_tag_is_rejected(tag, rest);
    lemma_keyed_variant_round_trip(tag, rest);
    lemma_unit_variant_round_trip(tag, rest);
}

/// An empty blob is rejected, as ending too early, and nothing is run for
/// it.
pub proof fn lemma_empty_blob_is_not_run(home: Seq<char>, serial: u64)
    ensures
        work_of(home, serial, Seq::<u8>::empty()) == Err::<WorkView, DecodeError>(
            DecodeError::Truncated,
        ),
{
    reveal(parse_variant);
    reveal(parse_length_header);
}

/// A blob whose first byte is an ASCII character is source text: it reaches
/// the sandbox as it is.
pub proof fn lemma_ascii_source_reaches_the_sandbox(home: Seq<char>, serial: u64, blob: Seq<u8>)
    requires
        blob.len() > 0,
        blob[0] < 0x80,
    ensures
        work_of(home, serial, blob) == Ok::<WorkView, DecodeError>(WorkView::Source(blob)),
{
    reveal(parse_variant);
    reveal(parse_length_header);
    reveal(parse_str);
}

/// The result of a job reaches the host under the id and the kind of message
/// of the frame that asked for it, whatever the job was and however it ended:
/// the reply, once written and read back, holds them and the payload of the
/// outcome.
pub proof fn lemma_result_returns_under_its_id(
    home: Seq<char>,
    serial: u64,
    frame: FrameView,
    outcome: OutcomeView,
)
    requires
        job_of(home, serial, frame) is Ok,
        outcome_fits(outcome),
    ensures
        decoded_frame(
            frame_wire(
                reply_of(
                    job_of(home, serial, frame)->Ok_0.id,
                    job_of(home, serial, frame)->Ok_0.message_type,
                    outcome,
                ),
            ),
        ) == Ok::<FrameView, DecodeError>(
            FrameView {
                id: frame.id,
                message_type: frame.message_type,
                blob: payload_of(outcome),
            },
        ),
{
    let job = job_of(home, serial, frame)->Ok_0;
    lemma_frame_round_trip(reply_of(job.id, job.message_type, outcome));
}

/// The results of two jobs that were asked for under different ids go back
/// in different frames, even where the runs ended alike.
pub proof fn lemma_results_stay_apart(
    first_id: u64,
    second_id: u64,
    first_type: MessageType,
    second_type: MessageType,
    first_outcome: OutcomeView,
    second_outcome: OutcomeView,
)
    requires
        first_id != second_id,
        outcome_fits(first_outcome),
        outcome_fits(second_outcome),
    ensures
        frame_wire(reply_of(first_id, first_type, first_outcome)) != frame_wire(
            reply_of(second_id, second_type, second_outcome),
        ),
{
    lemma_frame_round_trip(reply_of(first_id, first_type, first_outcome));
    lemma_frame_round_trip(reply_of(second_id, second_type, second_outcome));
}

} // verus!
