use python_ext::host::connection::{
    handle_message, handle_ws_message, is_expected_channel_id, wants_blob, ChannelEvent,
    Connection, MessageKind, MessagePlan, ProtocolError, Relay, FORWARD_TIMEOUT_SECONDS,
};
use python_ext::host::python_types::{PythonRequest, PythonResponse};

fn open(channel_id: u32) -> Option<Connection> {
    Some(Connection { channel_id })
}

#[test]
fn expected_channel_id_needs_an_open_channel() {
    assert_eq!(is_expected_channel_id(&None, &7), Err(ProtocolError::NotConnected));
    assert_eq!(is_expected_channel_id(&open(7), &7), Ok(true));
    assert_eq!(is_expected_channel_id(&open(7), &8), Ok(false));
    assert_eq!(is_expected_channel_id(&open(0), &u32::MAX), Ok(false));
}

#[test]
fn an_opening_sets_the_connection() {
    let mut connection = None;
    assert_eq!(handle_ws_message(&mut connection, ChannelEvent::Open { channel_id: 7 }, None), Ok(None));
    assert_eq!(connection, open(7));
    // A second opening takes the place of the first.
    assert_eq!(handle_ws_message(&mut connection, ChannelEvent::Open { channel_id: 9 }, None), Ok(None));
    assert_eq!(connection, open(9));
}

#[test]
fn a_closing_of_the_open_channel_clears_the_connection() {
    let mut connection = open(7);
    assert_eq!(handle_ws_message(&mut connection, ChannelEvent::Close { channel_id: 7 }, None), Ok(None));
    assert_eq!(connection, None);
}

#[test]
fn a_closing_of_another_channel_is_rejected() {
    let mut connection = open(7);
    assert_eq!(
        handle_ws_message(&mut connection, ChannelEvent::Close { channel_id: 8 }, None),
        Err(ProtocolError::ChannelMismatch)
    );
    assert_eq!(connection, open(7));

    let mut connection = None;
    assert_eq!(
        handle_ws_message(&mut connection, ChannelEvent::Close { channel_id: 8 }, None),
        Err(ProtocolError::NotConnected)
    );
    assert_eq!(connection, None);
}

#[test]
fn a_binary_push_over_the_open_channel_is_relayed() {
    let mut connection = open(7);
    let event = ChannelEvent::Push { channel_id: 7, kind: MessageKind::Binary };
    assert_eq!(
        handle_ws_message(&mut connection, event, Some(b"hello".to_vec())),
        Ok(Some(Relay { body: PythonResponse::Run, blob: b"hello".to_vec() }))
    );
    assert_eq!(connection, open(7));
}

#[test]
fn a_push_over_another_channel_is_rejected_and_changes_nothing() {
    for kind in [MessageKind::Text, MessageKind::Binary, MessageKind::Ping, MessageKind::Pong, MessageKind::Close] {
        for blob in [None, Some(b"hello".to_vec())] {
            let mut connection = open(7);
            let event = ChannelEvent::Push { channel_id: 8, kind };
            assert_eq!(
                handle_ws_message(&mut connection, event, blob.clone()),
                Err(ProtocolError::ChannelMismatch)
            );
            assert_eq!(connection, open(7));

            let mut connection = None;
            assert_eq!(
                handle_ws_message(&mut connection, event, blob),
                Err(ProtocolError::NotConnected)
            );
            assert_eq!(connection, None);
        }
    }
}

#[test]
fn a_push_that_is_not_binary_is_rejected() {
    for kind in [MessageKind::Text, MessageKind::Ping, MessageKind::Pong, MessageKind::Close] {
        let mut connection = open(7);
        let event = ChannelEvent::Push { channel_id: 7, kind };
        assert_eq!(
            handle_ws_message(&mut connection, event, Some(b"hello".to_vec())),
            Err(ProtocolError::UnsupportedMessageKind)
        );
        assert_eq!(connection, open(7));
    }
}

#[test]
fn a_binary_push_without_a_blob_is_rejected() {
    let mut connection = open(7);
    let event = ChannelEvent::Push { channel_id: 7, kind: MessageKind::Binary };
    assert_eq!(handle_ws_message(&mut connection, event, None), Err(ProtocolError::MissingBlob));
    assert_eq!(connection, open(7));
}

#[test]
fn a_plain_http_request_is_rejected() {
    let mut connection = open(7);
    assert_eq!(
        handle_ws_message(&mut connection, ChannelEvent::Http, Some(Vec::new())),
        Err(ProtocolError::UnexpectedHttp)
    );
    assert_eq!(connection, open(7));
    let mut connection = None;
    assert_eq!(handle_ws_message(&mut connection, ChannelEvent::Http, None), Err(ProtocolError::UnexpectedHttp));
    assert_eq!(connection, None);
}

#[test]
fn a_run_request_is_forwarded_over_the_open_channel() {
    assert_eq!(FORWARD_TIMEOUT_SECONDS, 15);
    assert_eq!(
        handle_message(&open(7), Some(PythonRequest::Run)),
        Ok(MessagePlan::Forward { channel_id: 7, kind: MessageKind::Binary, timeout_seconds: 15 })
    );
    assert_eq!(handle_message(&None, Some(PythonRequest::Run)), Err(ProtocolError::NotConnected));
}

#[test]
fn any_other_message_is_read_as_a_channel_event() {
    assert_eq!(handle_message(&open(7), None), Ok(MessagePlan::HandleEvent));
    assert_eq!(handle_message(&None, None), Ok(MessagePlan::HandleEvent));
}

#[test]
fn the_blob_is_wanted_for_a_binary_push_over_the_open_channel_only() {
    let binary = |channel_id| ChannelEvent::Push { channel_id, kind: MessageKind::Binary };
    assert!(wants_blob(&open(7), binary(7)));
    assert!(!wants_blob(&open(7), binary(8)));
    assert!(!wants_blob(&None, binary(7)));
    for kind in [MessageKind::Text, MessageKind::Ping, MessageKind::Pong, MessageKind::Close] {
        assert!(!wants_blob(&open(7), ChannelEvent::Push { channel_id: 7, kind }));
    }
    assert!(!wants_blob(&open(7), ChannelEvent::Http));
    assert!(!wants_blob(&open(7), ChannelEvent::Open { channel_id: 7 }));
    assert!(!wants_blob(&open(7), ChannelEvent::Close { channel_id: 7 }));
}

#[test]
fn an_event_whose_blob_is_not_wanted_ends_alike_with_and_without_it() {
    let events = [
        ChannelEvent::Http,
        ChannelEvent::Open { channel_id: 7 },
        ChannelEvent::Close { channel_id: 7 },
        ChannelEvent::Close { channel_id: 8 },
        ChannelEvent::Push { channel_id: 8, kind: MessageKind::Binary },
        ChannelEvent::Push { channel_id: 7, kind: MessageKind::Text },
    ];
    for start in [None, open(7)] {
        for event in events {
            assert!(!wants_blob(&start, event));
            let mut with = start;
            let mut without = start;
            assert_eq!(
                handle_ws_message(&mut with, event, Some(b"blob".to_vec())),
                handle_ws_message(&mut without, event, None)
            );
            assert_eq!(with, without);
        }
    }
}
