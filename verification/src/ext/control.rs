//! The control-channel loop, as the decisions it makes.
//!
//! The loop owns one connection. It starts out connecting, is open after a
//! successful handshake, and is closed for good after a failed one, after
//! the peer closed the connection, and after any error of the transport or
//! of the protocol. While it is open it takes one event at a time: a binary
//! message is read as a frame and handed to the dispatcher, a finished
//! result is written to the channel, and any other message is passed over.
//!
//! The open loop counts the runs it has started. The count is the serial
//! number of the next run, so every run of a worker has a number of its own.

use vstd::prelude::*;
use vstd::string::StringExecFns;
use crate::ext::decimal::{append_decimal, decimal};
use crate::ext::dispatch::{Job, JobView, job_of, python};
use crate::ext::frame::{
    Frame, FrameView, decoded_frame, frame_fits, frame_wire, lemma_frame_round_trip,
};
use crate::ext::msgpack::DecodeError;
use crate::ext::native::{module_name_of, lemma_module_names_differ};

verus! {

/// The scheme and the host of the control endpoint.
pub const LOCALHOST: &'static str = "ws://localhost";

/// The name under which the worker is known to the host's router.
pub const PROCESS_ID: &'static str = "python:python:holium.os";

/// How many finished results may wait to be written.
pub const EVENT_LOOP_CHANNEL_CAPACITY: usize = 100;

/// The address of the control endpoint for a port.
pub open spec fn control_url_of(port: u16) -> Seq<char> {
    LOCALHOST@ + seq![':'] + decimal(port as nat) + seq!['/'] + PROCESS_ID@
}

/// The address of the control endpoint for a port:
/// `ws://localhost:<port>/python:python:holium.os`.
pub fn control_url(port: u16) -> (url: String)
    ensures
        url@ == control_url_of(port),
{
    proof {
        reveal_strlit(":");
        reveal_strlit("/");
    }
    let mut url: String = String::from_str(LOCALHOST);
    url.append(":");
    append_decimal(&mut url, port as u64);
    url.append("/");
    url.append(PROCESS_ID);
    url
}

/// Where the loop stands.
#[derive(Debug, Clone, Copy, PartialEq, Eq, Structural)]
pub enum LoopState {
    Connecting,
    /// The connection is open, and so many runs were started over it.
    Open { started: u64 },
    Closed,
}

/// What the loop is told.
#[derive(Debug, Clone, PartialEq, Eq)]
pub enum Event {
    /// The handshake succeeded.
    Connected,
    /// The handshake failed.
    ConnectFailed,
    /// A binary message arrived.
    Binary(Vec<u8>),
    /// The peer closed the connection.
    Close,
    /// A message arrived that is neither binary nor a close.
    Other,
    /// The transport reported an error.
    TransportError,
    /// A run finished; these are the bytes of its reply.
    ResultReady(Vec<u8>),
}

/// Why the loop ended.
#[derive(Debug, Clone, Copy, PartialEq, Eq, Structural)]
pub enum Fatal {
    /// The handshake failed.
    ConnectFailed,
    /// The peer closed the connection.
    ClosedByPeer,
    /// The transport reported an error.
    Transport,
    /// A binary message was no frame, or the blob of its frame began as an
    /// envelope and was no whole request.
    Malformed(DecodeError),
    /// An event arrived that cannot arrive in the state the loop was in.
    Unexpected,
    /// Every serial number was given out.
    Exhausted,
}

/// What the loop does next.
#[derive(Debug, Clone, PartialEq, Eq)]
pub enum Action {
    /// Wait for the next event.
    Wait,
    /// Start this job as a task of its own, then wait for the next event.
    Spawn(Job),
    /// Write these bytes to the channel as a binary message, then wait for
    /// the next event. A failed write is logged and ends nothing.
    Send(Vec<u8>),
    /// End the process with this error.
    Exit(Fatal),
}

/// An event with its bytes as a sequence.
pub enum EventView {
    Connected,
    ConnectFailed,
    Binary(Seq<u8>),
    Close,
    Other,
    TransportError,
    ResultReady(Seq<u8>),
}

/// An action with its job and its bytes as sequences.
pub enum ActionView {
    Wait,
    Spawn(JobView),
    Send(Seq<u8>),
    Exit(Fatal),
}

impl View for Event {
    type V = EventView;

    open spec fn view(&self) -> EventView {
        match self {
            Event::Connected => EventView::Connected,
            Event::ConnectFailed => EventView::ConnectFailed,
            Event::Binary(bytes) => EventView::Binary(bytes@),
            Event::Close => EventView::Close,
            Event::Other => EventView::Other,
            Event::TransportError => EventView::TransportError,
            Event::ResultReady(bytes) => EventView::ResultReady(bytes@),
        }
    }
}

impl View for Action {
    type V = ActionView;

    open spec fn view(&self) -> ActionView {
        match self {
            Action::Wait => ActionView::Wait,
            Action::Spawn(job) => ActionView::Spawn(job@),
            Action::Send(bytes) => ActionView::Send(bytes@),
            Action::Exit(fatal) => ActionView::Exit(*fatal),
        }
    }
}

/// The state after `event`, and what the loop does on it, where the
/// packages lie under `home`.
pub open spec fn step_of(state: LoopState, home: Seq<char>, event: EventView) -> (
    LoopState,
    ActionView,
) {
    match (state, event) {
        (LoopState::Connecting, EventView::Connected) => (
            LoopState::Open { started: 0 },
            ActionView::Wait,
        ),
        (LoopState::Connecting, EventView::ConnectFailed) => (
            LoopState::Closed,
            ActionView::Exit(Fatal::ConnectFailed),
        ),
        (LoopState::Open { started }, EventView::Binary(bytes)) => match decoded_frame(bytes) {
            Err(error) => (LoopState::Closed, ActionView::Exit(Fatal::Malformed(error))),
            Ok(frame) => match job_of(home, started, frame) {
                Err(error) => (LoopState::Closed, ActionView::Exit(Fatal::Malformed(error))),
                Ok(job) => if started < u64::MAX {
                    (LoopState::Open { started: (started + 1) as u64 }, ActionView::Spawn(job))
                } else {
                    (LoopState::Closed, ActionView::Exit(Fatal::Exhausted))
                },
            },
        },
        (LoopState::Open { .. }, EventView::Close) => (
            LoopState::Closed,
            ActionView::Exit(Fatal::ClosedByPeer),
        ),
        (LoopState::Open { .. }, EventView::TransportError) => (
            LoopState::Closed,
            ActionView::Exit(Fatal::Transport),
        ),
        (LoopState::Open { started }, EventView::Other) => (
            LoopState::Open { started },
            ActionView::Wait,
        ),
        (LoopState::Open { started }, EventView::ResultReady(bytes)) => (
            LoopState::Open { started },
            ActionView::Send(bytes),
        ),
        _ => (LoopState::Closed, ActionView::Exit(Fatal::Unexpected)),
    }
}

/// The state after a sequence of events, each taken in its turn.
pub open spec fn state_after(state: LoopState, home: Seq<char>, events: Seq<EventView>)
    -> LoopState
    decreases events.len(),
{
    if events.len() == 0 {
        state
    } else {
        step_of(state_after(state, home, events.drop_last()), home, events.last()).0
    }
}

/// What the loop does on the event at `at`, after the events before it.
pub open spec fn action_at(
    start: LoopState,
    home: Seq<char>,
    events: Seq<EventView>,
    at: int,
) -> ActionView {
    step_of(state_after(start, home, events.take(at)), home, events[at]).1
}

/// Takes one event: gives the state after it and what the loop does on it.
pub fn step(state: LoopState, home: &str, event: Event) -> (next: (LoopState, Action))
    ensures
        next.0 == step_of(state, home@, event@).0,
        next.1@ == step_of(state, home@, event@).1,
{
    match state {
        LoopState::Connecting => match event {
            Event::Connected => (LoopState::Open { started: 0 }, Action::Wait),
            Event::ConnectFailed => (LoopState::Closed, Action::Exit(Fatal::ConnectFailed)),
            _ => (LoopState::Closed, Action::Exit(Fatal::Unexpected)),
        },
        LoopState::Open { started } => match event {
            Event::Binary(bytes) => match Frame::decode(bytes.as_slice()) {
                Err(error) => (LoopState::Closed, Action::Exit(Fatal::Malformed(error))),
                Ok(frame) => match python(home, started, frame) {
                    Err(error) => (LoopState::Closed, Action::Exit(Fatal::Malformed(error))),
                    Ok(job) => if started < u64::MAX {
                        (LoopState::Open { started: started + 1 }, Action::Spawn(job))
                    } else {
                        (LoopState::Closed, Action::Exit(Fatal::Exhausted))
                    },
                },
            },
            Event::Close => (LoopState::Closed, Action::Exit(Fatal::ClosedByPeer)),
            Event::TransportError => (LoopState::Closed, Action::Exit(Fatal::Transport)),
            Event::Other => (LoopState::Open { started }, Action::Wait),
            Event::ResultReady(bytes) => (LoopState::Open { started }, Action::Send(bytes)),
            _ => (LoopState::Closed, Action::Exit(Fatal::Unexpected)),
        },
        LoopState::Closed => (LoopState::Closed, Action::Exit(Fatal::Unexpected)),
    }
}

/// While the loop is open and has numbers left, a binary message that is a
/// written frame which the dispatcher accepts is dispatched as the job of
/// that frame, under the next serial number, and the loop stays open.
pub proof fn lemma_written_frame_is_dispatched(home: Seq<char>, started: u64, frame: FrameView)
    requires
        frame_fits(frame),
        started < u64::MAX,
        job_of(home, started, frame) is Ok,
    ensures
        step_of(LoopState::Open { started }, home, EventView::Binary(frame_wire(frame))) == (
            LoopState::Open { started: (started + 1) as u64 },
            ActionView::Spawn(job_of(home, started, frame)->Ok_0),
        ),
{
    lemma_frame_round_trip(frame);
}

/// A binary message whose frame the dispatcher rejects starts no run: the
/// loop ends with the error of reading the blob.
pub proof fn lemma_rejected_frame_starts_no_run(home: Seq<char>, started: u64, frame: FrameView)
    requires
        frame_fits(frame),
        job_of(home, started, frame) is Err,
    ensures
        step_of(LoopState::Open { started }, home, EventView::Binary(frame_wire(frame))) == (
            LoopState::Closed,
            ActionView::Exit(Fatal::Malformed(job_of(home, started, frame)->Err_0)),
        ),
{
    lemma_frame_round_trip(frame);
}

/// No result ends the loop: whatever bytes a finished run hands in, a failed
/// run's as well, the open loop writes them and stays open.
pub proof fn lemma_no_result_ends_the_loop(home: Seq<char>, started: u64, bytes: Seq<u8>)
    ensures
        step_of(LoopState::Open { started }, home, EventView::ResultReady(bytes)) == (
            LoopState::Open { started },
            ActionView::Send(bytes),
        ),
{
}

/// The loop ends exactly when it closes, and once closed it stays closed:
/// an event leads to the closed state if and only if the loop exits on it,
/// and every event in the closed state does.
pub proof fn lemma_closed_is_final(state: LoopState, home: Seq<char>, event: EventView)
    ensures
        step_of(state, home, event).0 == LoopState::Closed <==> step_of(
            state,
            home,
            event,
        ).1 is Exit,
        state == LoopState::Closed ==> step_of(state, home, event).0 == LoopState::Closed,
{
}

/// A run is started only by the open loop: it gets the count of the runs
/// started before it as its serial number, and the count goes up by one.
pub proof fn lemma_spawn_takes_the_next_number(state: LoopState, home: Seq<char>, event: EventView)
    requires
        step_of(state, home, event).1 is Spawn,
    ensures
        state matches LoopState::Open { started } && started < u64::MAX && step_of(
            state,
            home,
            event,
        ).1->Spawn_0.serial == started && step_of(state, home, event).0 == (LoopState::Open {
            started: (started + 1) as u64,
        }),
{
}

/// The count of started runs never falls, and an open loop never goes back
/// to connecting.
pub proof fn lemma_count_never_falls(state: LoopState, home: Seq<char>, events: Seq<EventView>)
    ensures
        match (state, state_after(state, home, events)) {
            (LoopState::Open { started: before }, LoopState::Open { started: after }) => before
                <= after,
            (LoopState::Open { .. }, LoopState::Connecting) => false,
            (LoopState::Closed, after) => after == LoopState::Closed,
            _ => true,
        },
    decreases events.len(),
{
    if events.len() > 0 {
        lemma_count_never_falls(state, home, events.drop_last());
    }
}

/// Taking two sequences of events one after the other is taking them as
/// one.
pub proof fn lemma_state_after_both(
    state: LoopState,
    home: Seq<char>,
    first: Seq<EventView>,
    second: Seq<EventView>,
)
    ensures
        state_after(state, home, first + second) == state_after(
            state_after(state, home, first),
            home,
            second,
        ),
    decreases second.len(),
{
    if second.len() == 0 {
        assert(first + second =~= first);
    } else {
        assert((first + second).drop_last() =~= first + second.drop_last());
        assert((first + second).last() == second.last());
        lemma_state_after_both(state, home, first, second.drop_last());
    }
}

/// Every run of a worker has a serial number of its own: of two runs that
/// the loop starts in the course of any events, the later has the greater
/// number. So two scripts are never compiled under one module name, even
/// where their frames came under one id.
pub proof fn lemma_every_run_has_a_number_of_its_own(
    start: LoopState,
    home: Seq<char>,
    events: Seq<EventView>,
    earlier: int,
    later: int,
)
    requires
        0 <= earlier < later < events.len(),
        action_at(start, home, events, earlier) is Spawn,
        action_at(start, home, events, later) is Spawn,
    ensures
        action_at(start, home, events, earlier)->Spawn_0.serial < action_at(
            start,
            home,
            events,
            later,
        )->Spawn_0.serial,
        module_name_of(action_at(start, home, events, earlier)->Spawn_0.serial) != module_name_of(
            action_at(start, home, events, later)->Spawn_0.serial,
        ),
{
    let before = state_after(start, home, events.take(earlier));
    let between = events.subrange(earlier + 1, later);
    lemma_spawn_takes_the_next_number(before, home, events[earlier]);
    let after = step_of(before, home, events[earlier]).0;
    // The state after the earlier event is the state after one more event.
    assert(events.take(earlier + 1).drop_last() =~= events.take(earlier));
    assert(events.take(earlier + 1).last() == events[earlier]);
    assert(state_after(start, home, events.take(earlier + 1)) == after);
    // From there the events in between lead to the state before the later.
    assert(events.take(later) =~= events.take(earlier + 1) + between);
    lemma_state_after_both(start, home, events.take(earlier + 1), between);
    lemma_count_never_falls(after, home, between);
    lemma_spawn_takes_the_next_number(
        state_after(start, home, events.take(later)),
        home,
        events[later],
    );
    lemma_module_names_differ(
        action_at(start, home, events, earlier)->Spawn_0.serial,
        action_at(start, home, events, later)->Spawn_0.serial,
    );
}

} // verus!
