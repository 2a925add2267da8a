//! The envelope on the wire.
//!
//! A request is a map of one entry, from the name `RunScript` to an array of
//! its five fields in the order of their declaration. A successful response
//! is the name `RunScript`; a failed one is a map of one entry, from the name
//! `Err` to the diagnostic. Reading takes a value from the front of the bytes
//! and leaves what follows it unread.

use vstd::prelude::*;
use crate::ext::arrays::{
    parse_text_array, read_text_array, text_array_wire, texts_fit, texts_fit_wire,
    write_text_array, lemma_text_array_cut, lemma_text_array_round_trip,
    lemma_text_array_within,
};
use crate::ext::msgpack::{
    Container, DecodeError, MAX_LENGTH, fits, length_header, parse_length_header, parse_text,
    read_length, read_text, text_fits, text_wire, write_length, write_text, cut_short, within,
    lemma_length_header_cut, lemma_length_header_round_trip, lemma_length_header_within,
    lemma_text_cut, lemma_text_round_trip, lemma_text_within,
};
use crate::ext::python_types::{
    PythonRequest, PythonRequestView, PythonResponse, PythonResponseView,
};
use crate::ext::tagged::{
    VariantHead, keyed_variant_wire, parse_unit_value, parse_variant, read_unit_value,
    read_variant, tag_bytes, tag_is, unit_variant_wire, write_keyed_variant,
    write_unit_variant, lemma_ascii_tag, lemma_keyed_variant_round_trip,
    lemma_unit_value_cut, lemma_unit_variant_round_trip, lemma_variant_cut,
    lemma_variant_within,
};

verus! {

/// The name of the variant that asks for a run, and of the one that reports
/// its success.
pub const RUN_SCRIPT: &'static str = "RunScript";

/// The name of the variant that reports a failure.
pub const ERR: &'static str = "Err";

/// The number of fields of a request.
pub const REQUEST_FIELDS: u32 = 5;

/// The names are short, and differ.
pub proof fn lemma_names()
    ensures
        tag_bytes(RUN_SCRIPT).len() == 9,
        tag_bytes(ERR).len() == 3,
{
    reveal_strlit("RunScript");
    reveal_strlit("Err");
    lemma_ascii_tag(RUN_SCRIPT);
    lemma_ascii_tag(ERR);
}

/// Whether a request can be written: each text and the array of arguments
/// fit the lengths that a header can hold.
pub open spec fn request_fits(request: PythonRequestView) -> bool {
    match request {
        PythonRequestView::RunScript { package_id, requirements, script, func, args } => {
            &&& text_fits(package_id)
            &&& text_fits(requirements)
            &&& text_fits(script)
            &&& text_fits(func)
            &&& texts_fit(args)
        },
    }
}

/// The fields of a request, one after the other.
pub open spec fn fields_wire(request: PythonRequestView) -> Seq<u8> {
    match request {
        PythonRequestView::RunScript { package_id, requirements, script, func, args } => {
            text_wire(package_id) + text_wire(requirements) + text_wire(script) + text_wire(func)
                + text_array_wire(args)
        },
    }
}

/// The bytes of a request.
pub open spec fn request_wire(request: PythonRequestView) -> Seq<u8> {
    keyed_variant_wire(tag_bytes(RUN_SCRIPT)) + length_header(
        Container::Array,
        REQUEST_FIELDS as nat,
    ) + fields_wire(request)
}

/// Reads the fields of a request from the front of `bytes`.
pub open spec fn parse_fields(bytes: Seq<u8>) -> Result<(PythonRequestView, int), DecodeError> {
    match parse_text(bytes) {
        Err(error) => Err(error),
        Ok((package_id, a)) => match parse_text(bytes.skip(a)) {
            Err(error) => Err(error),
            Ok((requirements, b)) => match parse_text(bytes.skip(a + b)) {
                Err(error) => Err(error),
                Ok((script, c)) => match parse_text(bytes.skip(a + b + c)) {
                    Err(error) => Err(error),
                    Ok((func, d)) => match parse_text_array(bytes.skip(a + b + c + d)) {
                        Err(error) => Err(error),
                        Ok((args, e)) => Ok(
                            (
                                PythonRequestView::RunScript {
                                    package_id,
                                    requirements,
                                    script,
                                    func,
                                    args,
                                },
                                a + b + c + d + e,
                            ),
                        ),
                    },
                },
            },
        },
    }
}

/// Reads a request from the front of `bytes`: the request, and how many
/// bytes it takes.
pub open spec fn parse_request(bytes: Seq<u8>) -> Result<(PythonRequestView, int), DecodeError> {
    match parse_variant(bytes) {
        Err(error) => Err(error),
        Ok(((tag, keyed), head)) => if tag != tag_bytes(RUN_SCRIPT) {
            Err(DecodeError::UnknownVariant)
        } else if !keyed {
            Err(DecodeError::TypeMismatch)
        } else {
            match parse_length_header(Container::Array, bytes.skip(head)) {
                Err(error) => Err(error),
                Ok((fields, header)) => if fields != REQUEST_FIELDS {
                    Err(DecodeError::LengthMismatch)
                } else {
                    match parse_fields(bytes.skip(head + header)) {
                        Err(error) => Err(error),
                        Ok((request, taken)) => Ok((request, head + header + taken)),
                    }
                },
            }
        },
    }
}

/// The request that `bytes` begin with, or why they begin with none.
pub open spec fn decoded_request(bytes: Seq<u8>) -> Result<PythonRequestView, DecodeError> {
    match parse_request(bytes) {
        Err(error) => Err(error),
        Ok((request, _)) => Ok(request),
    }
}

/// Whether a response can be written: its diagnostic, if it has one, fits
/// the length that a header can hold.
pub open spec fn response_fits(response: PythonResponseView) -> bool {
    match response {
        PythonResponseView::RunScript => true,
        PythonResponseView::Failure(message) => text_fits(message),
    }
}

/// The bytes of a response.
pub open spec fn response_wire(response: PythonResponseView) -> Seq<u8> {
    match response {
        PythonResponseView::RunScript => unit_variant_wire(tag_bytes(RUN_SCRIPT)),
        PythonResponseView::Failure(message) => keyed_variant_wire(tag_bytes(ERR)) + text_wire(
            message,
        ),
    }
}

/// Reads a response from the front of `bytes`: the response, and how many
/// bytes it takes.
pub open spec fn parse_response(bytes: Seq<u8>) -> Result<(PythonResponseView, int), DecodeError> {
    match parse_variant(bytes) {
        Err(error) => Err(error),
        Ok(((tag, keyed), head)) => if tag == tag_bytes(RUN_SCRIPT) {
            match parse_unit_value(bytes.skip(head), keyed) {
                Err(error) => Err(error),
                Ok((_, taken)) => Ok((PythonResponseView::RunScript, head + taken)),
            }
        } else if tag == tag_bytes(ERR) {
            if !keyed {
                Err(DecodeError::TypeMismatch)
            } else {
                match parse_text(bytes.skip(head)) {
                    Err(error) => Err(error),
                    Ok((message, taken)) => Ok(
                        (PythonResponseView::Failure(message), head + taken),
                    ),
                }
            }
        } else {
            Err(DecodeError::UnknownVariant)
        },
    }
}

/// The response that `bytes` begin with, or why they begin with none.
pub open spec fn decoded_response(bytes: Seq<u8>) -> Result<PythonResponseView, DecodeError> {
    match parse_response(bytes) {
        Err(error) => Err(error),
        Ok((response, _)) => Ok(response),
    }
}

/// Reads the fields of a request at `pos`: the request, and the position
/// behind it.
fn read_fields(input: &[u8], pos: usize) -> (result: Result<(PythonRequest, usize), DecodeError>)
    requires
        pos <= input.len(),
    ensures
        match result {
            Ok((request, next)) => pos <= next <= input.len() && parse_fields(
                input@.skip(pos as int),
            ) == Ok::<(PythonRequestView, int), DecodeError>((request@, next - pos)),
            Err(error) => parse_fields(input@.skip(pos as int)) == Err::<
                (PythonRequestView, int),
                DecodeError,
            >(error),
        },
{
    let ghost body = input@.skip(pos as int);
    let (package_id, after_package) = match read_text(input, pos) {
        Err(error) => {
            return Err(error);
        },
        Ok(field) => field,
    };
    assert(body.skip(after_package - pos) =~= input@.skip(after_package as int));
    let (requirements, after_requirements) = match read_text(input, after_package) {
        Err(error) => {
            return Err(error);
        },
        Ok(field) => field,
    };
    assert(body.skip(after_requirements - pos) =~= input@.skip(after_requirements as int));
    let (script, after_script) = match read_text(input, after_requirements) {
        Err(error) => {
            return Err(error);
        },
        Ok(field) => field,
    };
    assert(body.skip(after_script - pos) =~= input@.skip(after_script as int));
    let (func, after_func) = match read_text(input, after_script) {
        Err(error) => {
            return Err(error);
        },
        Ok(field) => field,
    };
    assert(body.skip(after_func - pos) =~= input@.skip(after_func as int));
    let (args, end) = match read_text_array(input, after_func) {
        Err(error) => {
            return Err(error);
        },
        Ok(field) => field,
    };
    Ok((PythonRequest::RunScript { package_id, requirements, script, func, args }, end))
}

impl PythonRequest {
    /// Whether the request can be written.
    pub fn fits_wire(&self) -> (yes: bool)
        ensures
            yes == request_fits(self@),
    {
        match self {
            PythonRequest::RunScript { package_id, requirements, script, func, args } => {
                fits(package_id.as_str()) && fits(requirements.as_str()) && fits(script.as_str())
                    && fits(func.as_str()) && texts_fit_wire(args)
            },
        }
    }

    /// The bytes of the request.
    pub fn encode(&self) -> (bytes: Vec<u8>)
        requires
            request_fits(self@),
        ensures
            bytes@ == request_wire(self@),
    {
        let mut buf: Vec<u8> = Vec::new();
        proof {
            lemma_names();
        }
        match self {
            PythonRequest::RunScript { package_id, requirements, script, func, args } => {
                write_keyed_variant(&mut buf, RUN_SCRIPT);
                write_length(&mut buf, Container::Array, REQUEST_FIELDS);
                write_text(&mut buf, package_id.as_str());
                write_text(&mut buf, requirements.as_str());
                write_text(&mut buf, script.as_str());
                write_text(&mut buf, func.as_str());
                write_text_array(&mut buf, args);
            },
        }
        buf
    }

    /// The request that `bytes` begin with, or why they begin with none.
    pub fn decode(bytes: &[u8]) -> (result: Result<PythonRequest, DecodeError>)
        ensures
            match result {
                Ok(request) => decoded_request(bytes@) == Ok::<PythonRequestView, DecodeError>(
                    request@,
                ),
                Err(error) => decoded_request(bytes@) == Err::<PythonRequestView, DecodeError>(
                    error,
                ),
            },
    {
        assert(bytes@.skip(0) =~= bytes@);
        let head: VariantHead = match read_variant(bytes, 0) {
            Err(error) => {
                return Err(error);
            },
            Ok(head) => head,
        };
        if !tag_is(bytes, head.tag_start, head.tag_end, RUN_SCRIPT) {
            return Err(DecodeError::UnknownVariant);
        }
        if !head.keyed {
            return Err(DecodeError::TypeMismatch);
        }
        let (fields, at) = match read_length(bytes, head.tag_end, Container::Array) {
            Err(error) => {
                return Err(error);
            },
            Ok(header) => header,
        };
        if fields != REQUEST_FIELDS {
            return Err(DecodeError::LengthMismatch);
        }
        match read_fields(bytes, at) {
            Err(error) => Err(error),
            Ok((request, _)) => Ok(request),
        }
    }
}

impl PythonResponse {
    /// Whether the response can be written.
    pub fn fits_wire(&self) -> (yes: bool)
        ensures
            yes == response_fits(self@),
    {
        match self {
            PythonResponse::RunScript => true,
            PythonResponse::Failure(message) => fits(message.as_str()),
        }
    }

    /// The bytes of the response.
    pub fn encode(&self) -> (bytes: Vec<u8>)
        requires
            response_fits(self@),
        ensures
            bytes@ == response_wire(self@),
    {
        let mut buf: Vec<u8> = Vec::new();
        proof {
            lemma_names();
        }
        match self {
            PythonResponse::RunScript => {
                write_unit_variant(&mut buf, RUN_SCRIPT);
            },
            PythonResponse::Failure(message) => {
                write_keyed_variant(&mut buf, ERR);
                write_text(&mut buf, message.as_str());
            },
        }
        buf
    }

    /// The response that `bytes` begin with, or why they begin with none.
    pub fn decode(bytes: &[u8]) -> (result: Result<PythonResponse, DecodeError>)
        ensures
            match result {
                Ok(response) => decoded_response(bytes@) == Ok::<PythonResponseView, DecodeError>(
                    response@,
                ),
                Err(error) => decoded_response(bytes@) == Err::<PythonResponseView, DecodeError>(
                    error,
                ),
            },
    {
        assert(bytes@.skip(0) =~= bytes@);
        let head: VariantHead = match read_variant(bytes, 0) {
            Err(error) => {
                return Err(error);
            },
            Ok(head) => head,
        };
        if tag_is(bytes, head.tag_start, head.tag_end, RUN_SCRIPT) {
            match read_unit_value(bytes, head.tag_end, head.keyed) {
                Err(error) => Err(error),
                Ok(_) => Ok(PythonResponse::RunScript),
            }
        } else if tag_is(bytes, head.tag_start, head.tag_end, ERR) {
            if !head.keyed {
                Err(DecodeError::TypeMismatch)
            } else {
                match read_text(bytes, head.tag_end) {
                    Err(error) => Err(error),
                    Ok((message, _)) => Ok(PythonResponse::Failure(message)),
                }
            }
        } else {
            Err(DecodeError::UnknownVariant)
        }
    }
}

/// The fields of a request that were written are read back, whatever
/// follows them.
pub proof fn lemma_fields_round_trip(request: PythonRequestView, rest: Seq<u8>)
    requires
        request_fits(request),
    ensures
        parse_fields(fields_wire(request) + rest) == Ok::<(PythonRequestView, int), DecodeError>(
            (request, fields_wire(request).len() as int),
        ),
{
    match request {
        PythonRequestView::RunScript { package_id, requirements, script, func, args } => {
            let bytes = fields_wire(request) + rest;
            let a = text_wire(package_id);
            let b = text_wire(requirements);
            let c = text_wire(script);
            let d = text_wire(func);
            let e = text_array_wire(args);
            let after_a = b + c + d + e + rest;
            let after_b = c + d + e + rest;
            let after_c = d + e + rest;
            let after_d = e + rest;
            assert(bytes =~= a + after_a);
            lemma_text_round_trip(package_id, after_a);
            assert(bytes.skip(a.len() as int) =~= b + after_b);
            lemma_text_round_trip(requirements, after_b);
            assert(bytes.skip((a.len() + b.len()) as int) =~= c + after_c);
            lemma_text_round_trip(script, after_c);
            assert(bytes.skip((a.len() + b.len() + c.len()) as int) =~= d + after_d);
            lemma_text_round_trip(func, after_d);
            assert(bytes.skip((a.len() + b.len() + c.len() + d.len()) as int) =~= e + rest);
            lemma_text_array_round_trip(args, rest);
        },
    }
}

/// Reading takes a written request from the front of any bytes that begin
/// with it.
pub proof fn lemma_request_parse(request: PythonRequestView, rest: Seq<u8>)
    requires
        request_fits(request),
    ensures
        parse_request(request_wire(request) + rest) == Ok::<(PythonRequestView, int), DecodeError>(
            (request, request_wire(request).len() as int),
        ),
{
    lemma_names();
    let tag = tag_bytes(RUN_SCRIPT);
    let head = keyed_variant_wire(tag);
    let header = length_header(Container::Array, REQUEST_FIELDS as nat);
    let fields = fields_wire(request);
    let bytes = request_wire(request) + rest;
    assert(bytes =~= head + (header + fields + rest));
    lemma_keyed_variant_round_trip(tag, header + fields + rest);
    assert(bytes.skip(head.len() as int) =~= header + (fields + rest));
    lemma_length_header_round_trip(Container::Array, REQUEST_FIELDS as nat, fields + rest);
    assert(bytes.skip((head.len() + header.len()) as int) =~= fields + rest);
    lemma_fields_round_trip(request, rest);
}

/// Decoding the bytes of a request gives the request back.
pub proof fn lemma_request_round_trip(request: PythonRequestView)
    requires
        request_fits(request),
    ensures
        decoded_request(request_wire(request)) == Ok::<PythonRequestView, DecodeError>(request),
{
    lemma_request_parse(request, Seq::empty());
}

/// Reading takes a written response from the front of any bytes that begin
/// with it.
pub proof fn lemma_response_parse(response: PythonResponseView, rest: Seq<u8>)
    requires
        response_fits(response),
    ensures
        parse_response(response_wire(response) + rest) == Ok::<
            (PythonResponseView, int),
            DecodeError,
        >((response, response_wire(response).len() as int)),
{
    lemma_names();
    let bytes = response_wire(response) + rest;
    match response {
        PythonResponseView::RunScript => {
            lemma_unit_variant_round_trip(tag_bytes(RUN_SCRIPT), rest);
        },
        PythonResponseView::Failure(message) => {
            let head = keyed_variant_wire(tag_bytes(ERR));
            assert(bytes =~= head + (text_wire(message) + rest));
            lemma_keyed_variant_round_trip(tag_bytes(ERR), text_wire(message) + rest);
            assert(bytes.skip(head.len() as int) =~= text_wire(message) + rest);
            lemma_text_round_trip(message, rest);
        },
    }
}

/// Decoding the bytes of a response gives the response back.
pub proof fn lemma_response_round_trip(response: PythonResponseView)
    requires
        response_fits(response),
    ensures
        decoded_response(response_wire(response)) == Ok::<PythonResponseView, DecodeError>(
            response,
        ),
{
    lemma_response_parse(response, Seq::empty());
}

/// The fields of a request are read from the bytes they take, and from no
/// fewer.
pub proof fn lemma_fields_cut(bytes: Seq<u8>, kept: int)
    requires
        0 <= kept <= bytes.len(),
    ensures
        cut_short(parse_fields(bytes), parse_fields(bytes.take(kept)), kept),
{
    let part = bytes.take(kept);
    lemma_text_cut(bytes, kept);
    lemma_text_within(bytes);
    if let Ok((_, a)) = parse_text(bytes) {
        let after_a = bytes.skip(a);
        lemma_text_within(after_a);
        if a <= kept {
            assert(part.skip(a) =~= after_a.take(kept - a));
            lemma_text_cut(after_a, kept - a);
        }
        if let Ok((_, b)) = parse_text(after_a) {
            let after_b = bytes.skip(a + b);
            lemma_text_within(after_b);
            if a + b <= kept {
                assert(part.skip(a + b) =~= after_b.take(kept - a - b));
                lemma_text_cut(after_b, kept - a - b);
            }
            if let Ok((_, c)) = parse_text(after_b) {
                let after_c = bytes.skip(a + b + c);
                lemma_text_within(after_c);
                if a + b + c <= kept {
                    assert(part.skip(a + b + c) =~= after_c.take(kept - a - b - c));
                    lemma_text_cut(after_c, kept - a - b - c);
                }
                if let Ok((_, d)) = parse_text(after_c) {
                    let after_d = bytes.skip(a + b + c + d);
                    lemma_text_array_within(after_d);
                    if a + b + c + d <= kept {
                        assert(part.skip(a + b + c + d) =~= after_d.take(kept - a - b - c - d));
                        lemma_text_array_cut(after_d, kept - a - b - c - d);
                    }
                }
            }
        }
    }
}

/// A request is read from the bytes it takes, and from no fewer: on fewer,
/// reading reports that the bytes end too early.
pub proof fn lemma_request_cut(bytes: Seq<u8>, kept: int)
    requires
        0 <= kept <= bytes.len(),
    ensures
        cut_short(parse_request(bytes), parse_request(bytes.take(kept)), kept),
{
    let part = bytes.take(kept);
    lemma_variant_cut(bytes, kept);
    lemma_variant_within(bytes);
    if let Ok(((tag, keyed), head)) = parse_variant(bytes) {
        if tag == tag_bytes(RUN_SCRIPT) && keyed {
            let after_head = bytes.skip(head);
            lemma_length_header_within(Container::Array, after_head);
            if head <= kept {
                assert(part.skip(head) =~= after_head.take(kept - head));
                lemma_length_header_cut(Container::Array, after_head, kept - head);
            }
            if let Ok((fields, header)) = parse_length_header(Container::Array, after_head) {
                if fields == REQUEST_FIELDS {
                    let body = bytes.skip(head + header);
                    if head + header <= kept {
                        assert(part.skip(head + header) =~= body.take(kept - head - header));
                        lemma_fields_cut(body, kept - head - header);
                    }
                    lemma_fields_within(body);
                }
            }
        }
    }
}

/// The fields of a request that were read lie within the input.
pub proof fn lemma_fields_within(bytes: Seq<u8>)
    ensures
        within(parse_fields(bytes), bytes.len()),
{
    lemma_text_within(bytes);
    if let Ok((_, a)) = parse_text(bytes) {
        lemma_text_within(bytes.skip(a));
        if let Ok((_, b)) = parse_text(bytes.skip(a)) {
            lemma_text_within(bytes.skip(a + b));
            if let Ok((_, c)) = parse_text(bytes.skip(a + b)) {
                lemma_text_within(bytes.skip(a + b + c));
                if let Ok((_, d)) = parse_text(bytes.skip(a + b + c)) {
                    lemma_text_array_within(bytes.skip(a + b + c + d));
                }
            }
        }
    }
}

/// A response is read from the bytes it takes, and from no fewer: on fewer,
/// reading reports that the bytes end too early.
pub proof fn lemma_response_cut(bytes: Seq<u8>, kept: int)
    requires
        0 <= kept <= bytes.len(),
    ensures
        cut_short(parse_response(bytes), parse_response(bytes.take(kept)), kept),
{
    let part = bytes.take(kept);
    lemma_variant_cut(bytes, kept);
    lemma_variant_within(bytes);
    if let Ok(((tag, keyed), head)) = parse_variant(bytes) {
        let after_head = bytes.skip(head);
        if head <= kept {
            assert(part.skip(head) =~= after_head.take(kept - head));
            lemma_unit_value_cut(after_head, keyed, kept - head);
            lemma_text_cut(after_head, kept - head);
        }
        lemma_text_within(after_head);
    }
}

/// Bytes that end before a written request does are rejected, as ending too
/// early.
pub proof fn lemma_truncated_request_is_rejected(request: PythonRequestView, kept: int)
    requires
        request_fits(request),
        0 <= kept < request_wire(request).len(),
    ensures
        decoded_request(request_wire(request).take(kept)) == Err::<PythonRequestView, DecodeError>(
            DecodeError::Truncated,
        ),
{
    let bytes = request_wire(request);
    lemma_request_parse(request, Seq::empty());
    lemma_request_cut(bytes, kept);
}

/// Bytes that end before a written response does are rejected, as ending too
/// early.
pub proof fn lemma_truncated_response_is_rejected(response: PythonResponseView, kept: int)
    requires
        response_fits(response),
        0 <= kept < response_wire(response).len(),
    ensures
        decoded_response(response_wire(response).take(kept)) == Err::<
            PythonResponseView,
            DecodeError,
        >(DecodeError::Truncated),
{
    let bytes = response_wire(response);
    lemma_response_parse(response, Seq::empty());
    lemma_response_cut(bytes, kept);
}

/// Bytes in which another name stands in the place of a request's tag are
/// rejected, as naming no variant, whatever follows the name.
pub proof fn lemma_unknown_request_tag_is_rejected(tag: Seq<u8>, rest: Seq<u8>)
    requires
        tag.len() <= MAX_LENGTH,
        tag != tag_bytes(RUN_SCRIPT),
    ensures
        decoded_request(keyed_variant_wire(tag) + rest) == Err::<PythonRequestView, DecodeError>(
            DecodeError::UnknownVariant,
        ),
        decoded_request(unit_variant_wire(tag) + rest) == Err::<PythonRequestView, DecodeError>(
            DecodeError::UnknownVariant,
        ),
{
    lemma_keyed_variant_round_trip(tag, rest);
    lemma_unit_variant_round_trip(tag, rest);
}

/// Bytes in which another name stands in the place of a response's tag are
/// rejected, as naming no variant, whatever follows the name.
pub proof fn lemma_unknown_response_tag_is_rejected(tag: Seq<u8>, rest: Seq<u8>)
    requires
        tag.len() <= MAX_LENGTH,
        tag != tag_bytes(RUN_SCRIPT),
        tag != tag_bytes(ERR),
    ensures
        decoded_response(keyed_variant_wire(tag) + rest) == Err::<PythonResponseView, DecodeError>(
            DecodeError::UnknownVariant,
        ),
        decoded_response(unit_variant_wire(tag) + rest) == Err::<PythonResponseView, DecodeError>(
            DecodeError::UnknownVariant,
        ),
{
    lemma_keyed_variant_round_trip(tag, rest);
    lemma_unit_variant_round_trip(tag, rest);
}

} // verus!
