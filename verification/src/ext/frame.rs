//! The transport frame: the push-data action in which every envelope and
//! every result crosses the control channel.
//!
//! On the wire a frame is a map of one entry, from the name
//! `WebSocketExtPushData` to an array of three: the id, the kind of message
//! as its name, and the blob as an array of its bytes.

use vstd::prelude::*;
use crate::ext::arrays::{
    blob_fits_wire, byte_array_wire, parse_byte_array, read_byte_array, write_byte_array,
    lemma_byte_array_cut, lemma_byte_array_round_trip, lemma_byte_array_within,
};
use crate::ext::msgpack::{
    Container, DecodeError, MAX_LENGTH, length_header, parse_length_header, parse_uint,
    read_length, read_uint, uint_wire, write_length, write_uint, cut_short, within,
    lemma_length_header_cut, lemma_length_header_round_trip, lemma_length_header_within,
    lemma_uint_cut, lemma_uint_round_trip, lemma_uint_within,
};
use crate::ext::tagged::{
    VariantHead, keyed_variant_wire, parse_unit_value, parse_variant, read_unit_value,
    read_variant, tag_bytes, tag_is, unit_variant_wire, write_keyed_variant,
    write_unit_variant, lemma_ascii_tag, lemma_keyed_variant_round_trip,
    lemma_unit_value_cut, lemma_unit_variant_round_trip, lemma_variant_cut,
    lemma_variant_within,
};

verus! {

/// Whether the blob of a frame is to reach its receiver as a request or as a
/// response.
#[derive(Debug, Clone, Copy, PartialEq, Eq, Structural)]
pub enum MessageType {
    Request,
    Response,
}

/// A push-data action: the id of the exchange it belongs to, the kind of
/// message its blob is, and the blob.
#[derive(Debug, Clone, PartialEq, Eq)]
pub struct Frame {
    pub id: u64,
    pub message_type: MessageType,
    pub blob: Vec<u8>,
}

/// A frame with its blob as a sequence of bytes.
pub struct FrameView {
    pub id: u64,
    pub message_type: MessageType,
    pub blob: Seq<u8>,
}

impl View for Frame {
    type V = FrameView;

    open spec fn view(&self) -> FrameView {
        FrameView { id: self.id, message_type: self.message_type, blob: self.blob@ }
    }
}

/// The name of the push-data action.
pub const PUSH_DATA: &'static str = "WebSocketExtPushData";

/// The name of the kind of message that asks.
pub const REQUEST: &'static str = "Request";

/// The name of the kind of message that answers.
pub const RESPONSE: &'static str = "Response";

/// The number of fields of a frame.
pub const FRAME_FIELDS: u32 = 3;

/// The names are short, and those of the two kinds of message differ.
pub proof fn lemma_names()
    ensures
        tag_bytes(PUSH_DATA).len() == 20,
        tag_bytes(REQUEST).len() == 7,
        tag_bytes(RESPONSE).len() == 8,
{
    reveal_strlit("WebSocketExtPushData");
    reveal_strlit("Request");
    reveal_strlit("Response");
    lemma_ascii_tag(PUSH_DATA);
    lemma_ascii_tag(REQUEST);
    lemma_ascii_tag(RESPONSE);
}

/// The name of a kind of message, as bytes.
pub open spec fn message_type_tag(message_type: MessageType) -> Seq<u8> {
    match message_type {
        MessageType::Request => tag_bytes(REQUEST),
        MessageType::Response => tag_bytes(RESPONSE),
    }
}

/// The bytes of a kind of message.
pub open spec fn message_type_wire(message_type: MessageType) -> Seq<u8> {
    unit_variant_wire(message_type_tag(message_type))
}

/// Reads a kind of message from the front of `bytes`.
pub open spec fn parse_message_type(bytes: Seq<u8>) -> Result<(MessageType, int), DecodeError> {
    match parse_variant(bytes) {
        Err(error) => Err(error),
        Ok(((tag, keyed), head)) => if tag == tag_bytes(REQUEST) || tag == tag_bytes(RESPONSE) {
            match parse_unit_value(bytes.skip(head), keyed) {
                Err(error) => Err(error),
                Ok((_, taken)) => Ok(
                    (
                        if tag == tag_bytes(REQUEST) {
                            MessageType::Request
                        } else {
                            MessageType::Response
                        },
                        head + taken,
                    ),
                ),
            }
        } else {
            Err(DecodeError::UnknownVariant)
        },
    }
}

/// Whether a frame can be written: its blob has no more bytes than a header
/// can count.
pub open spec fn frame_fits(frame: FrameView) -> bool {
    frame.blob.len() <= MAX_LENGTH
}

/// The fields of a frame, one after the other.
pub open spec fn frame_fields_wire(frame: FrameView) -> Seq<u8> {
    uint_wire(frame.id as nat) + message_type_wire(frame.message_type) + byte_array_wire(
        frame.blob,
    )
}

/// The bytes of a frame.
pub open spec fn frame_wire(frame: FrameView) -> Seq<u8> {
    keyed_variant_wire(tag_bytes(PUSH_DATA)) + length_header(
        Container::Array,
        FRAME_FIELDS as nat,
    ) + frame_fields_wire(frame)
}

/// Reads the fields of a frame from the front of `bytes`.
pub open spec fn parse_frame_fields(bytes: Seq<u8>) -> Result<(FrameView, int), DecodeError> {
    match parse_uint(bytes) {
        Err(error) => Err(error),
        Ok((id, a)) => match parse_message_type(bytes.skip(a)) {
            Err(error) => Err(error),
            Ok((message_type, b)) => match parse_byte_array(bytes.skip(a + b)) {
                Err(error) => Err(error),
                Ok((blob, c)) => Ok((FrameView { id: id as u64, message_type, blob }, a + b + c)),
            },
        },
    }
}

/// Reads a frame from the front of `bytes`: the frame, and how many bytes it
/// takes.
pub open spec fn parse_frame(bytes: Seq<u8>) -> Result<(FrameView, int), DecodeError> {
    match parse_variant(bytes) {
        Err(error) => Err(error),
        Ok(((tag, keyed), head)) => if tag != tag_bytes(PUSH_DATA) {
            Err(DecodeError::UnknownVariant)
        } else if !keyed {
            Err(DecodeError::TypeMismatch)
        } else {
            match parse_length_header(Container::Array, bytes.skip(head)) {
                Err(error) => Err(error),
                Ok((fields, header)) => if fields != FRAME_FIELDS {
                    Err(DecodeError::LengthMismatch)
                } else {
                    match parse_frame_fields(bytes.skip(head + header)) {
                        Err(error) => Err(error),
                        Ok((frame, taken)) => Ok((frame, head + header + taken)),
                    }
                },
            }
        },
    }
}

/// The frame that `bytes` begin with, or why they begin with none.
pub open spec fn decoded_frame(bytes: Seq<u8>) -> Result<FrameView, DecodeError> {
    match parse_frame(bytes) {
        Err(error) => Err(error),
        Ok((frame, _)) => Ok(frame),
    }
}

/// Reads a kind of message at `pos`: the kind, and the position behind it.
fn read_message_type(input: &[u8], pos: usize) -> (result: Result<
    (MessageType, usize),
    DecodeError,
>)
    requires
        pos <= input.len(),
    ensures
        match result {
            Ok((message_type, next)) => pos <= next <= input.len() && parse_message_type(
                input@.skip(pos as int),
            ) == Ok::<(MessageType, int), DecodeError>((message_type, next - pos)),
            Err(error) => parse_message_type(input@.skip(pos as int)) == Err::<
                (MessageType, int),
                DecodeError,
            >(error),
        },
{
    let head: VariantHead = match read_variant(input, pos) {
        Err(error) => {
            return Err(error);
        },
        Ok(head) => head,
    };
    let message_type: MessageType = if tag_is(input, head.tag_start, head.tag_end, REQUEST) {
        MessageType::Request
    } else if tag_is(input, head.tag_start, head.tag_end, RESPONSE) {
        MessageType::Response
    } else {
        return Err(DecodeError::UnknownVariant);
    };
    match read_unit_value(input, head.tag_end, head.keyed) {
        Err(error) => Err(error),
        Ok(next) => Ok((message_type, next)),
    }
}

/// Reads the fields of a frame at `pos`: the frame, and the position behind
/// it.
fn read_frame_fields(input: &[u8], pos: usize) -> (result: Result<(Frame, usize), DecodeError>)
    requires
        pos <= input.len(),
    ensures
        match result {
            Ok((frame, next)) => pos <= next <= input.len() && parse_frame_fields(
                input@.skip(pos as int),
            ) == Ok::<(FrameView, int), DecodeError>((frame@, next - pos)),
            Err(error) => parse_frame_fields(input@.skip(pos as int)) == Err::<
                (FrameView, int),
                DecodeError,
            >(error),
        },
{
    let ghost body = input@.skip(pos as int);
    let (id, after_id) = match read_uint(input, pos) {
        Err(error) => {
            return Err(error);
        },
        Ok(field) => field,
    };
    assert(body.skip(after_id - pos) =~= input@.skip(after_id as int));
    let (message_type, after_type) = match read_message_type(input, after_id) {
        Err(error) => {
            return Err(error);
        },
        Ok(field) => field,
    };
    assert(body.skip(after_type - pos) =~= input@.skip(after_type as int));
    let (blob, end) = match read_byte_array(input, after_type) {
        Err(error) => {
            return Err(error);
        },
        Ok(field) => field,
    };
    Ok((Frame { id, message_type, blob }, end))
}

impl Frame {
    /// Whether the frame can be written.
    pub fn fits_wire(&self) -> (yes: bool)
        ensures
            yes == frame_fits(self@),
    {
        blob_fits_wire(self.blob.as_slice())
    }

    /// The bytes of the frame.
    pub fn encode(&self) -> (bytes: Vec<u8>)
        requires
            frame_fits(self@),
        ensures
            bytes@ == frame_wire(self@),
    {
        let mut buf: Vec<u8> = Vec::new();
        proof {
            lemma_names();
        }
        write_keyed_variant(&mut buf, PUSH_DATA);
        write_length(&mut buf, Container::Array, FRAME_FIELDS);
        write_uint(&mut buf, self.id);
        match self.message_type {
            MessageType::Request => write_unit_variant(&mut buf, REQUEST),
            MessageType::Response => write_unit_variant(&mut buf, RESPONSE),
        }
        write_byte_array(&mut buf, self.blob.as_slice());
        buf
    }

    /// The frame that `bytes` begin with, or why they begin with none.
    pub fn decode(bytes: &[u8]) -> (result: Result<Frame, DecodeError>)
        ensures
            match result {
                Ok(frame) => decoded_frame(bytes@) == Ok::<FrameView, DecodeError>(frame@),
                Err(error) => decoded_frame(bytes@) == Err::<FrameView, DecodeError>(error),
            },
    {
        assert(bytes@.skip(0) =~= bytes@);
        let head: VariantHead = match read_variant(bytes, 0) {
            Err(error) => {
                return Err(error);
            },
            Ok(head) => head,
        };
        if !tag_is(bytes, head.tag_start, head.tag_end, PUSH_DATA) {
            return Err(DecodeError::UnknownVariant);
        }
        if !head.keyed {
            return Err(DecodeError::TypeMismatch);
        }
        let (fields, at) = match read_length(bytes, head.tag_end, Container::Array) {
            Err(error) => {
                return Err(error);
            },
            Ok(header) => header,
        };
        if fields != FRAME_FIELDS {
            return Err(DecodeError::LengthMismatch);
        }
        match read_frame_fields(bytes, at) {
            Err(error) => Err(error),
            Ok((frame, _)) => Ok(frame),
        }
    }
}

/// A kind of message that was written is read back, whatever follows it.
pub proof fn lemma_message_type_round_trip(message_type: MessageType, rest: Seq<u8>)
    ensures
        parse_message_type(message_type_wire(message_type) + rest) == Ok::<
            (MessageType, int),
            DecodeError,
        >((message_type, message_type_wire(message_type).len() as int)),
{
    lemma_names();
    lemma_unit_variant_round_trip(message_type_tag(message_type), rest);
}

/// The fields of a frame that were written are read back, whatever follows
/// them.
pub proof fn lemma_frame_fields_round_trip(frame: FrameView, rest: Seq<u8>)
    requires
        frame_fits(frame),
    ensures
        parse_frame_fields(frame_fields_wire(frame) + rest) == Ok::<(FrameView, int), DecodeError>(
            (frame, frame_fields_wire(frame).len() as int),
        ),
{
    let bytes = frame_fields_wire(frame) + rest;
    let a = uint_wire(frame.id as nat);
    let b = message_type_wire(frame.message_type);
    let c = byte_array_wire(frame.blob);
    assert(bytes =~= a + (b + c + rest));
    lemma_uint_round_trip(frame.id as nat, b + c + rest);
    assert(bytes.skip(a.len() as int) =~= b + (c + rest));
    lemma_message_type_round_trip(frame.message_type, c + rest);
    assert(bytes.skip((a.len() + b.len()) as int) =~= c + rest);
    lemma_byte_array_round_trip(frame.blob, rest);
}

/// Reading takes a written frame from the front of any bytes that begin with
/// it.
pub proof fn lemma_frame_parse(frame: FrameView, rest: Seq<u8>)
    requires
        frame_fits(frame),
    ensures
        parse_frame(frame_wire(frame) + rest) == Ok::<(FrameView, int), DecodeError>(
            (frame, frame_wire(frame).len() as int),
        ),
{
    lemma_names();
    let tag = tag_bytes(PUSH_DATA);
    let head = keyed_variant_wire(tag);
    let header = length_header(Container::Array, FRAME_FIELDS as nat);
    let fields = frame_fields_wire(frame);
    let bytes = frame_wire(frame) + rest;
    assert(bytes =~= head + (header + fields + rest));
    lemma_keyed_variant_round_trip(tag, header + fields + rest);
    assert(bytes.skip(head.len() as int) =~= header + (fields + rest));
    lemma_length_header_round_trip(Container::Array, FRAME_FIELDS as nat, fields + rest);
    assert(bytes.skip((head.len() + header.len()) as int) =~= fields + rest);
    lemma_frame_fields_round_trip(frame, rest);
}

/// Decoding the bytes of a frame gives the frame back.
pub proof fn lemma_frame_round_trip(frame: FrameView)
    requires
        frame_fits(frame),
    ensures
        decoded_frame(frame_wire(frame)) == Ok::<FrameView, DecodeError>(frame),
{
    lemma_frame_parse(frame, Seq::empty());
}

/// A kind of message that was read lies within the input.
pub proof fn lemma_message_type_within(bytes: Seq<u8>)
    ensures
        within(parse_message_type(bytes), bytes.len()),
{
    lemma_variant_within(bytes);
}

/// A kind of message is read from the bytes it takes, and from no fewer.
pub proof fn lemma_message_type_cut(bytes: Seq<u8>, kept: int)
    requires
        0 <= kept <= bytes.len(),
    ensures
        cut_short(parse_message_type(bytes), parse_message_type(bytes.take(kept)), kept),
{
    lemma_variant_cut(bytes, kept);
    lemma_variant_within(bytes);
    if let Ok(((_, keyed), head)) = parse_variant(bytes) {
        if head <= kept {
            lemma_unit_value_cut(bytes.skip(head), keyed, kept - head);
        }
    }
}

/// The fields of a frame that were read lie within the input.
pub proof fn lemma_frame_fields_within(bytes: Seq<u8>)
    ensures
        within(parse_frame_fields(bytes), bytes.len()),
{
    lemma_uint_within(bytes);
    if let Ok((_, a)) = parse_uint(bytes) {
        lemma_message_type_within(bytes.skip(a));
        if let Ok((_, b)) = parse_message_type(bytes.skip(a)) {
            lemma_byte_array_within(bytes.skip(a + b));
        }
    }
}

/// The fields of a frame are read from the bytes they take, and from no
/// fewer.
pub proof fn lemma_frame_fields_cut(bytes: Seq<u8>, kept: int)
    requires
        0 <= kept <= bytes.len(),
    ensures
        cut_short(parse_frame_fields(bytes), parse_frame_fields(bytes.take(kept)), kept),
{
    let part = bytes.take(kept);
    lemma_uint_cut(bytes, kept);
    lemma_uint_within(bytes);
    if let Ok((_, a)) = parse_uint(bytes) {
        let after_a = bytes.skip(a);
        lemma_message_type_within(after_a);
        if a <= kept {
            assert(part.skip(a) =~= after_a.take(kept - a));
            lemma_message_type_cut(after_a, kept - a);
        }
        if let Ok((_, b)) = parse_message_type(after_a) {
            let after_b = bytes.skip(a + b);
            lemma_byte_array_within(after_b);
            if a + b <= kept {
                assert(part.skip(a + b) =~= after_b.take(kept - a - b));
                lemma_byte_array_cut(after_b, kept - a - b);
            }
        }
    }
}

/// A frame is read from the bytes it takes, and from no fewer: on fewer,
/// reading reports that the bytes end too early.
pub proof fn lemma_frame_cut(bytes: Seq<u8>, kept: int)
    requires
        0 <= kept <= bytes.len(),
    ensures
        cut_short(parse_frame(bytes), parse_frame(bytes.take(kept)), kept),
{
    let part = bytes.take(kept);
    lemma_variant_cut(bytes, kept);
    lemma_variant_within(bytes);
    if let Ok(((tag, keyed), head)) = parse_variant(bytes) {
        if tag == tag_bytes(PUSH_DATA) && keyed {
            let after_head = bytes.skip(head);
            lemma_length_header_within(Container::Array, after_head);
            if head <= kept {
                assert(part.skip(head) =~= after_head.take(kept - head));
                lemma_length_header_cut(Container::Array, after_head, kept - head);
            }
            if let Ok((fields, header)) = parse_length_header(Container::Array, after_head) {
                if fields == FRAME_FIELDS {
                    let body = bytes.skip(head + header);
                    if head + header <= kept {
                        assert(part.skip(head + header) =~= body.take(kept - head - header));
                        lemma_frame_fields_cut(body, kept - head - header);
                    }
                    lemma_frame_fields_within(body);
                }
            }
        }
    }
}

/// Bytes that end before a written frame does are rejected, as ending too
/// early.
pub proof fn lemma_truncated_frame_is_rejected(frame: FrameView, kept: int)
    requires
        frame_fits(frame),
        0 <= kept < frame_wire(frame).len(),
    ensures
        decoded_frame(frame_wire(frame).take(kept)) == Err::<FrameView, DecodeError>(
            DecodeError::Truncated,
        ),
{
    let bytes = frame_wire(frame);
    lemma_frame_parse(frame, Seq::empty());
    lemma_frame_cut(bytes, kept);
}

/// Bytes in which another name stands in the place of the frame's tag are
/// rejected, as naming no variant, whatever follows the name.
pub proof fn lemma_unknown_frame_tag_is_rejected(tag: Seq<u8>, rest: Seq<u8>)
    requires
        tag.len() <= MAX_LENGTH,
        tag != tag_bytes(PUSH_DATA),
    ensures
        decoded_frame(keyed_variant_wire(tag) + rest) == Err::<FrameView, DecodeError>(
            DecodeError::UnknownVariant,
        ),
        decoded_frame(unit_variant_wire(tag) + rest) == Err::<FrameView, DecodeError>(
            DecodeError::UnknownVariant,
        ),
{
    lemma_keyed_variant_round_trip(tag, rest);
    lemma_unit_variant_round_trip(tag, rest);
}

} // verus!
