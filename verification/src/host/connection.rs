//! The one open control channel, and what each channel event does to it.

use vstd::prelude::*;
use crate::host::python_types::{PythonRequest, PythonResponse, PythonResponseView};

verus! {

/// The control channel that is currently open, named by the id the host
/// assigned when it opened.
#[derive(Debug, Clone, Copy, PartialEq, Eq, Structural)]
pub struct Connection {
    pub channel_id: u32,
}

/// The kind of a message pushed over a channel.
#[derive(Debug, Clone, Copy, PartialEq, Eq, Structural)]
pub enum MessageKind {
    Text,
    Binary,
    Ping,
    Pong,
    Close,
}

/// What the HTTP server reports to the actor.
#[derive(Debug, Clone, Copy, PartialEq, Eq, Structural)]
pub enum ChannelEvent {
    /// A plain HTTP request.
    Http,
    /// A channel opened under this id.
    Open { channel_id: u32 },
    /// The channel with this id closed.
    Close { channel_id: u32 },
    /// A message of this kind was pushed over the channel with this id; its
    /// payload is the blob that came with the event.
    Push { channel_id: u32, kind: MessageKind },
}

/// Why a channel event was rejected.
#[derive(Debug, Clone, Copy, PartialEq, Eq, Structural)]
pub enum ProtocolError {
    /// The event names a channel, but none is open.
    NotConnected,
    /// The event names a channel other than the open one.
    ChannelMismatch,
    /// A plain HTTP request arrived on the channel-only binding.
    UnexpectedHttp,
    /// A binary push arrived without a payload.
    MissingBlob,
    /// A push arrived whose kind is not binary.
    UnsupportedMessageKind,
}

/// A result handed back to the process that asked for the run.
#[derive(Debug, Clone, PartialEq, Eq)]
pub struct Relay {
    pub body: PythonResponse,
    pub blob: Vec<u8>,
}

/// How long, in seconds, the actor waits for the worker's answer to a
/// forwarded run.
pub const FORWARD_TIMEOUT_SECONDS: u64 = 15;

/// What the actor does with a message it received.
#[derive(Debug, Clone, Copy, PartialEq, Eq, Structural)]
pub enum MessagePlan {
    /// Push the message's blob to the worker over this channel as a binary
    /// message, and wait for the answer.
    Forward { channel_id: u32, kind: MessageKind, timeout_seconds: u64 },
    /// Read the message as a channel event.
    HandleEvent,
}

/// The error, if any, with which `event` is rejected while `connection` is
/// the state and `has_blob` says whether a payload came with the event.
pub open spec fn rejection(
    connection: Option<Connection>,
    event: ChannelEvent,
    has_blob: bool,
) -> Option<ProtocolError> {
    match event {
        ChannelEvent::Http => Some(ProtocolError::UnexpectedHttp),
        ChannelEvent::Open { .. } => None,
        ChannelEvent::Close { channel_id } => match connection {
            None => Some(ProtocolError::NotConnected),
            Some(current) => if current.channel_id == channel_id {
                None
            } else {
                Some(ProtocolError::ChannelMismatch)
            },
        },
        ChannelEvent::Push { channel_id, kind } => match connection {
            None => Some(ProtocolError::NotConnected),
            Some(current) => if current.channel_id != channel_id {
                Some(ProtocolError::ChannelMismatch)
            } else if kind != MessageKind::Binary {
                Some(ProtocolError::UnsupportedMessageKind)
            } else if !has_blob {
                Some(ProtocolError::MissingBlob)
            } else {
                None
            },
        },
    }
}

/// The state after `event` was accepted.
pub open spec fn next_connection(connection: Option<Connection>, event: ChannelEvent) -> Option<
    Connection,
> {
    match event {
        ChannelEvent::Open { channel_id } => Some(Connection { channel_id }),
        ChannelEvent::Close { .. } => None,
        _ => connection,
    }
}

/// Whether `channel_id` names the open channel; an error when none is open.
pub fn is_expected_channel_id(connection: &Option<Connection>, channel_id: &u32) -> (result: Result<
    bool,
    ProtocolError,
>)
    ensures
        match *connection {
            Some(current) => result == Ok::<bool, ProtocolError>(current.channel_id == *channel_id),
            None => result == Err::<bool, ProtocolError>(ProtocolError::NotConnected),
        },
{
    match connection {
        Some(current) => Ok(*channel_id == current.channel_id),
        None => Err(ProtocolError::NotConnected),
    }
}

/// Whether the payload of an event is wanted: the event is a binary push
/// over the open channel. For every other event the payload is not looked
/// at, and need not be fetched.
pub fn wants_blob(connection: &Option<Connection>, event: ChannelEvent) -> (yes: bool)
    ensures
        yes == (event is Push && rejection(*connection, event, true) is None),
{
    match event {
        ChannelEvent::Push { channel_id, kind } => match is_expected_channel_id(
            connection,
            &channel_id,
        ) {
            Ok(true) => match kind {
                MessageKind::Binary => true,
                _ => false,
            },
            _ => false,
        },
        _ => false,
    }
}

/// Applies one channel event to the connection state.
///
/// An opening sets the state, a closing of the open channel clears it, and a
/// binary push over the open channel leaves it as it is and hands the payload
/// back as a successful response. Every other event is rejected, and a
/// rejected event leaves the state untouched.
pub fn handle_ws_message(
    connection: &mut Option<Connection>,
    event: ChannelEvent,
    blob: Option<Vec<u8>>,
) -> (result: Result<Option<Relay>, ProtocolError>)
    ensures
        match rejection(*old(connection), event, blob is Some) {
            Some(error) => {
                &&& result == Err::<Option<Relay>, ProtocolError>(error)
                &&& *final(connection) == *old(connection)
            },
            None => {
                &&& result is Ok
                &&& *final(connection) == next_connection(*old(connection), event)
            },
        },
        result matches Ok(relay) ==> match event {
            ChannelEvent::Push { .. } => relay matches Some(r) && r.body@
                == PythonResponseView::Run && r.blob@ == blob->Some_0@,
            _ => relay is None,
        },
{
    match event {
        ChannelEvent::Http => Err(ProtocolError::UnexpectedHttp),
        ChannelEvent::Open { channel_id } => {
            *connection = Some(Connection { channel_id });
            Ok(None)
        },
        ChannelEvent::Close { channel_id } => {
            match is_expected_channel_id(connection, &channel_id) {
                Err(error) => Err(error),
                Ok(false) => Err(ProtocolError::ChannelMismatch),
                Ok(true) => {
                    *connection = None;
                    Ok(None)
                },
            }
        },
        ChannelEvent::Push { channel_id, kind } => {
            match is_expected_channel_id(connection, &channel_id) {
                Err(error) => Err(error),
                Ok(false) => Err(ProtocolError::ChannelMismatch),
                Ok(true) => match kind {
                    MessageKind::Binary => match blob {
                        Some(bytes) => Ok(Some(Relay { body: PythonResponse::Run, blob: bytes })),
                        None => Err(ProtocolError::MissingBlob),
                    },
                    _ => Err(ProtocolError::UnsupportedMessageKind),
                },
            }
        },
    }
}

/// Decides what to do with a received message: `request` is the run request
/// its body holds, if it holds one.
///
/// A run request is forwarded over the open channel as a binary push; with no
/// channel open it cannot be forwarded and is rejected. Any other message is
/// read as a channel event.
pub fn handle_message(connection: &Option<Connection>, request: Option<PythonRequest>) -> (result:
    Result<MessagePlan, ProtocolError>)
    ensures
        result == match (request, *connection) {
            (None, _) => Ok::<MessagePlan, ProtocolError>(MessagePlan::HandleEvent),
            (Some(_), None) => Err::<MessagePlan, ProtocolError>(ProtocolError::NotConnected),
            (Some(_), Some(current)) => Ok::<MessagePlan, ProtocolError>(
                MessagePlan::Forward {
                    channel_id: current.channel_id,
                    kind: MessageKind::Binary,
                    timeout_seconds: FORWARD_TIMEOUT_SECONDS,
                },
            ),
        },
{
    match request {
        None => Ok(MessagePlan::HandleEvent),
        Some(PythonRequest::Run) => match connection {
            None => Err(ProtocolError::NotConnected),
            Some(current) => Ok(
                MessagePlan::Forward {
                    channel_id: current.channel_id,
                    kind: MessageKind::Binary,
                    timeout_seconds: FORWARD_TIMEOUT_SECONDS,
                },
            ),
        },
    }
}

/// Where the payload of an event is not wanted, it decides nothing: the
/// event is accepted or rejected alike with it and without it.
pub proof fn lemma_unwanted_blob_decides_nothing(
    connection: Option<Connection>,
    event: ChannelEvent,
)
    requires
        !(event is Push && rejection(connection, event, true) is None),
    ensures
        rejection(connection, event, true) == rejection(connection, event, false),
{
}

/// A push that names a channel other than the open one, or any channel while
/// none is open, is rejected whatever its kind and payload, and the state
/// stays as it was.
pub proof fn lemma_foreign_push_is_rejected(
    connection: Option<Connection>,
    channel_id: u32,
    kind: MessageKind,
    has_blob: bool,
)
    requires
        connection != Some(Connection { channel_id }),
    ensures
        rejection(connection, ChannelEvent::Push { channel_id, kind }, has_blob) is Some,
        rejection(connection, ChannelEvent::Push { channel_id, kind }, has_blob) == Some(
            if connection is None {
                ProtocolError::NotConnected
            } else {
                ProtocolError::ChannelMismatch
            },
        ),
{
}

} // verus!
