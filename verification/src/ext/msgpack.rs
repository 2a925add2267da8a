//! The part of MessagePack that the envelope and the transport frame are
//! written in: unsigned integers, strings, and the lengths of strings, arrays
//! and maps.
//!
//! Every item has one canonical form, the shortest, which the writers
//! produce. The readers accept each width in which a length or an integer can
//! be written. Numbers wider than one byte are big-endian.

use vstd::prelude::*;
use vstd::slice::{slice_subrange, slice_to_vec};
use vstd::utf8::{
    decode_utf8, encode_utf8, encode_utf8_decode_utf8, encode_utf8_valid_utf8, valid_utf8,
};

verus! {

/// Why bytes could not be read as the expected value.
#[derive(Debug, Clone, Copy, PartialEq, Eq, Structural)]
pub enum DecodeError {
    /// The bytes end before the value is complete.
    Truncated,
    /// An item is of another type than the one expected in its place.
    TypeMismatch,
    /// A map or an array has another number of entries than the value has.
    LengthMismatch,
    /// The tag names no variant of the union.
    UnknownVariant,
    /// A string is not UTF-8.
    InvalidUtf8,
    /// An integer does not fit the field it stands for.
    OutOfRange,
}

/// The three kinds of item that begin with a length.
#[derive(Debug, Clone, Copy, PartialEq, Eq, Structural)]
pub enum Container {
    Str,
    Array,
    Mapping,
}

/// The greatest length that a header can hold.
pub const MAX_LENGTH: u32 = 0xffff_ffff;

/// The number that two bytes hold.
pub open spec fn be16(bytes: Seq<u8>) -> nat {
    bytes[0] as nat * 0x100 + bytes[1] as nat
}

/// The number that four bytes hold.
pub open spec fn be32(bytes: Seq<u8>) -> nat {
    bytes[0] as nat * 0x100_0000 + bytes[1] as nat * 0x1_0000 + bytes[2] as nat * 0x100
        + bytes[3] as nat
}

/// The number that eight bytes hold.
pub open spec fn be64(bytes: Seq<u8>) -> nat {
    be32(bytes.subrange(0, 4)) * 0x1_0000_0000 + be32(bytes.subrange(4, 8))
}

/// The two bytes that hold a number below 2^16.
pub open spec fn bytes16(value: nat) -> Seq<u8> {
    seq![(value / 0x100 % 0x100) as u8, (value % 0x100) as u8]
}

/// The four bytes that hold a number below 2^32.
pub open spec fn bytes32(value: nat) -> Seq<u8> {
    seq![
        (value / 0x100_0000 % 0x100) as u8,
        (value / 0x1_0000 % 0x100) as u8,
        (value / 0x100 % 0x100) as u8,
        (value % 0x100) as u8,
    ]
}

/// The eight bytes that hold a number below 2^64.
pub open spec fn bytes64(value: nat) -> Seq<u8> {
    bytes32(value / 0x1_0000_0000) + bytes32(value % 0x1_0000_0000)
}

/// The first marker of the short form, which holds the length in itself.
pub open spec fn fix_base(container: Container) -> u8 {
    match container {
        Container::Str => 0xa0,
        Container::Array => 0x90,
        Container::Mapping => 0x80,
    }
}

/// The lengths below this one have a short form.
pub open spec fn fix_limit(container: Container) -> nat {
    match container {
        Container::Str => 32,
        Container::Array => 16,
        Container::Mapping => 16,
    }
}

/// The marker before a length of two bytes.
pub open spec fn marker16(container: Container) -> u8 {
    match container {
        Container::Str => 0xda,
        Container::Array => 0xdc,
        Container::Mapping => 0xde,
    }
}

/// The marker before a length of four bytes.
pub open spec fn marker32(container: Container) -> u8 {
    match container {
        Container::Str => 0xdb,
        Container::Array => 0xdd,
        Container::Mapping => 0xdf,
    }
}

/// The marker before a length of one byte, which only strings have.
pub open spec fn marker8() -> u8 {
    0xd9
}

/// The canonical header of a container with `len` entries.
#[verifier::opaque]
pub open spec fn length_header(container: Container, len: nat) -> Seq<u8> {
    if len < fix_limit(container) {
        seq![(fix_base(container) + len) as u8]
    } else if container == Container::Str && len < 0x100 {
        seq![marker8(), len as u8]
    } else if len < 0x1_0000 {
        seq![marker16(container)] + bytes16(len)
    } else {
        seq![marker32(container)] + bytes32(len)
    }
}

/// Reads a header of `container` from the front of `bytes`: the length it
/// holds, and how many bytes the header takes.
#[verifier::opaque]
pub open spec fn parse_length_header(container: Container, bytes: Seq<u8>) -> Result<
    (nat, int),
    DecodeError,
> {
    if bytes.len() < 1 {
        Err(DecodeError::Truncated)
    } else if fix_base(container) <= bytes[0] < fix_base(container) + fix_limit(container) {
        Ok(((bytes[0] - fix_base(container)) as nat, 1))
    } else if container == Container::Str && bytes[0] == marker8() {
        if bytes.len() < 2 {
            Err(DecodeError::Truncated)
        } else {
            Ok((bytes[1] as nat, 2))
        }
    } else if bytes[0] == marker16(container) {
        if bytes.len() < 3 {
            Err(DecodeError::Truncated)
        } else {
            Ok((be16(bytes.subrange(1, 3)), 3))
        }
    } else if bytes[0] == marker32(container) {
        if bytes.len() < 5 {
            Err(DecodeError::Truncated)
        } else {
            Ok((be32(bytes.subrange(1, 5)), 5))
        }
    } else {
        Err(DecodeError::TypeMismatch)
    }
}

/// The canonical form of an unsigned integer.
#[verifier::opaque]
pub open spec fn uint_wire(value: nat) -> Seq<u8> {
    if value < 0x80 {
        seq![value as u8]
    } else if value < 0x100 {
        seq![0xccu8, value as u8]
    } else if value < 0x1_0000 {
        seq![0xcdu8] + bytes16(value)
    } else if value < 0x1_0000_0000 {
        seq![0xceu8] + bytes32(value)
    } else {
        seq![0xcfu8] + bytes64(value)
    }
}

/// Reads an unsigned integer from the front of `bytes`: its value, and how
/// many bytes it takes.
#[verifier::opaque]
pub open spec fn parse_uint(bytes: Seq<u8>) -> Result<(nat, int), DecodeError> {
    if bytes.len() < 1 {
        Err(DecodeError::Truncated)
    } else if bytes[0] < 0x80 {
        Ok((bytes[0] as nat, 1))
    } else if bytes[0] == 0xcc {
        if bytes.len() < 2 {
            Err(DecodeError::Truncated)
        } else {
            Ok((bytes[1] as nat, 2))
        }
    } else if bytes[0] == 0xcd {
        if bytes.len() < 3 {
            Err(DecodeError::Truncated)
        } else {
            Ok((be16(bytes.subrange(1, 3)), 3))
        }
    } else if bytes[0] == 0xce {
        if bytes.len() < 5 {
            Err(DecodeError::Truncated)
        } else {
            Ok((be32(bytes.subrange(1, 5)), 5))
        }
    } else if bytes[0] == 0xcf {
        if bytes.len() < 9 {
            Err(DecodeError::Truncated)
        } else {
            Ok((be64(bytes.subrange(1, 9)), 9))
        }
    } else {
        Err(DecodeError::TypeMismatch)
    }
}

/// Appends a number in two bytes.
fn push16(buf: &mut Vec<u8>, value: u16)
    ensures
        final(buf)@ == old(buf)@ + bytes16(value as nat),
{
    buf.push((value / 0x100) as u8);
    buf.push((value % 0x100) as u8);
}

/// Appends a number in four bytes.
fn push32(buf: &mut Vec<u8>, value: u32)
    ensures
        final(buf)@ == old(buf)@ + bytes32(value as nat),
{
    buf.push((value / 0x100_0000) as u8);
    buf.push((value / 0x1_0000 % 0x100) as u8);
    buf.push((value / 0x100 % 0x100) as u8);
    buf.push((value % 0x100) as u8);
}

/// The number in the two bytes at `pos`.
fn take16(input: &[u8], pos: usize) -> (value: u16)
    requires
        pos + 2 <= input.len(),
    ensures
        value == be16(input@.subrange(pos as int, pos + 2)),
{
    input[pos] as u16 * 0x100 + input[pos + 1] as u16
}

/// The number in the four bytes at `pos`.
fn take32(input: &[u8], pos: usize) -> (value: u32)
    requires
        pos + 4 <= input.len(),
    ensures
        value == be32(input@.subrange(pos as int, pos + 4)),
{
    input[pos] as u32 * 0x100_0000 + input[pos + 1] as u32 * 0x1_0000 + input[pos + 2] as u32
        * 0x100 + input[pos + 3] as u32
}

/// The first marker of the short form.
fn fix_base_of(container: Container) -> (base: u8)
    ensures
        base == fix_base(container),
{
    match container {
        Container::Str => 0xa0,
        Container::Array => 0x90,
        Container::Mapping => 0x80,
    }
}

/// The least length without a short form.
fn fix_limit_of(container: Container) -> (limit: u8)
    ensures
        limit == fix_limit(container),
{
    match container {
        Container::Str => 32,
        Container::Array => 16,
        Container::Mapping => 16,
    }
}

/// The marker before a length of two bytes.
fn marker16_of(container: Container) -> (marker: u8)
    ensures
        marker == marker16(container),
{
    match container {
        Container::Str => 0xda,
        Container::Array => 0xdc,
        Container::Mapping => 0xde,
    }
}

/// The marker before a length of four bytes.
fn marker32_of(container: Container) -> (marker: u8)
    ensures
        marker == marker32(container),
{
    match container {
        Container::Str => 0xdb,
        Container::Array => 0xdd,
        Container::Mapping => 0xdf,
    }
}

/// Whether the container is a string.
fn is_str(container: Container) -> (yes: bool)
    ensures
        yes == (container == Container::Str),
{
    match container {
        Container::Str => true,
        _ => false,
    }
}

/// Appends the canonical header of a container with `len` entries.
pub fn write_length(buf: &mut Vec<u8>, container: Container, len: u32)
    ensures
        final(buf)@ == old(buf)@ + length_header(container, len as nat),
{
    proof {
        reveal(length_header);
    }
    let limit: u8 = fix_limit_of(container);
    if len < limit as u32 {
        buf.push(fix_base_of(container) + len as u8);
    } else if is_str(container) && len < 0x100 {
        buf.push(0xd9);
        buf.push(len as u8);
    } else if len < 0x1_0000 {
        buf.push(marker16_of(container));
        push16(buf, len as u16);
    } else {
        buf.push(marker32_of(container));
        push32(buf, len);
    }
}

/// Reads the header of a container at `pos`: the length it holds, and the
/// position behind the header.
pub fn read_length(input: &[u8], pos: usize, container: Container) -> (result: Result<
    (u32, usize),
    DecodeError,
>)
    requires
        pos <= input.len(),
    ensures
        match result {
            Ok((len, next)) => pos <= next <= input.len() && parse_length_header(
                container,
                input@.skip(pos as int),
            ) == Ok::<(nat, int), DecodeError>((len as nat, next - pos)),
            Err(error) => parse_length_header(container, input@.skip(pos as int)) == Err::<
                (nat, int),
                DecodeError,
            >(error),
        },
{
    proof {
        reveal(parse_length_header);
    }
    let left: usize = input.len() - pos;
    if left < 1 {
        return Err(DecodeError::Truncated);
    }
    let marker: u8 = input[pos];
    let base: u8 = fix_base_of(container);
    let limit: u8 = fix_limit_of(container);
    if base <= marker && marker - base < limit {
        Ok(((marker - base) as u32, pos + 1))
    } else if is_str(container) && marker == 0xd9 {
        if left < 2 {
            Err(DecodeError::Truncated)
        } else {
            Ok((input[pos + 1] as u32, pos + 2))
        }
    } else if marker == marker16_of(container) {
        if left < 3 {
            Err(DecodeError::Truncated)
        } else {
            Ok((take16(input, pos + 1) as u32, pos + 3))
        }
    } else if marker == marker32_of(container) {
        if left < 5 {
            Err(DecodeError::Truncated)
        } else {
            Ok((take32(input, pos + 1), pos + 5))
        }
    } else {
        Err(DecodeError::TypeMismatch)
    }
}

/// Appends the canonical form of `value`.
pub fn write_uint(buf: &mut Vec<u8>, value: u64)
    ensures
        final(buf)@ == old(buf)@ + uint_wire(value as nat),
{
    proof {
        reveal(uint_wire);
    }
    if value < 0x80 {
        buf.push(value as u8);
    } else if value < 0x100 {
        buf.push(0xcc);
        buf.push(value as u8);
    } else if value < 0x1_0000 {
        buf.push(0xcd);
        push16(buf, value as u16);
    } else if value < 0x1_0000_0000 {
        buf.push(0xce);
        push32(buf, value as u32);
    } else {
        buf.push(0xcf);
        push32(buf, (value / 0x1_0000_0000) as u32);
        push32(buf, (value % 0x1_0000_0000) as u32);
    }
}

/// Reads an unsigned integer at `pos`: its value, and the position behind it.
pub fn read_uint(input: &[u8], pos: usize) -> (result: Result<(u64, usize), DecodeError>)
    requires
        pos <= input.len(),
    ensures
        match result {
            Ok((value, next)) => pos <= next <= input.len() && parse_uint(input@.skip(pos as int))
                == Ok::<(nat, int), DecodeError>((value as nat, next - pos)),
            Err(error) => parse_uint(input@.skip(pos as int)) == Err::<(nat, int), DecodeError>(
                error,
            ),
        },
{
    proof {
        reveal(parse_uint);
    }
    let left: usize = input.len() - pos;
    if left < 1 {
        return Err(DecodeError::Truncated);
    }
    let marker: u8 = input[pos];
    if marker < 0x80 {
        Ok((marker as u64, pos + 1))
    } else if marker == 0xcc {
        if left < 2 {
            Err(DecodeError::Truncated)
        } else {
            Ok((input[pos + 1] as u64, pos + 2))
        }
    } else if marker == 0xcd {
        if left < 3 {
            Err(DecodeError::Truncated)
        } else {
            Ok((take16(input, pos + 1) as u64, pos + 3))
        }
    } else if marker == 0xce {
        if left < 5 {
            Err(DecodeError::Truncated)
        } else {
            Ok((take32(input, pos + 1) as u64, pos + 5))
        }
    } else if marker == 0xcf {
        if left < 9 {
            Err(DecodeError::Truncated)
        } else {
            let ghost number = input@.skip(pos as int).subrange(1, 9);
            assert(input@.subrange(pos + 1, pos + 5) =~= number.subrange(0, 4));
            assert(input@.subrange(pos + 5, pos + 9) =~= number.subrange(4, 8));
            let high: u64 = take32(input, pos + 1) as u64;
            let low: u64 = take32(input, pos + 5) as u64;
            Ok((high * 0x1_0000_0000 + low, pos + 9))
        }
    } else {
        Err(DecodeError::TypeMismatch)
    }
}

/// The canonical form of a string whose content is `body`.
pub open spec fn str_wire(body: Seq<u8>) -> Seq<u8> {
    length_header(Container::Str, body.len()) + body
}

/// Reads a string from the front of `bytes` without looking into it: its
/// content, and how many bytes the item takes.
#[verifier::opaque]
pub open spec fn parse_str(bytes: Seq<u8>) -> Result<(Seq<u8>, int), DecodeError> {
    match parse_length_header(Container::Str, bytes) {
        Err(error) => Err(error),
        Ok((len, header)) => if bytes.len() < header + len {
            Err(DecodeError::Truncated)
        } else {
            Ok((bytes.subrange(header, header + len), header + len))
        },
    }
}

/// The canonical form of a text: a string that holds its UTF-8 encoding.
pub open spec fn text_wire(text: Seq<char>) -> Seq<u8> {
    str_wire(encode_utf8(text))
}

/// Reads a text from the front of `bytes`: the characters, and how many
/// bytes the item takes.
#[verifier::opaque]
pub open spec fn parse_text(bytes: Seq<u8>) -> Result<(Seq<char>, int), DecodeError> {
    match parse_str(bytes) {
        Err(error) => Err(error),
        Ok((body, taken)) => if valid_utf8(body) {
            Ok((decode_utf8(body), taken))
        } else {
            Err(DecodeError::InvalidUtf8)
        },
    }
}

/// Whether a text is short enough for the length of its encoding to fit a
/// header.
pub open spec fn text_fits(text: Seq<char>) -> bool {
    encode_utf8(text).len() <= MAX_LENGTH
}

/// `String::from_utf8` of std: the string whose UTF-8 encoding is `bytes`,
/// where they are UTF-8, and nothing where they are not.
#[verifier::external_body]
fn string_from_utf8(bytes: Vec<u8>) -> (text: Option<String>)
    ensures
        text is Some <==> valid_utf8(bytes@),
        text matches Some(t) ==> encode_utf8(t@) == bytes@,
{
    match String::from_utf8(bytes) {
        Ok(text) => Some(text),
        Err(_) => None,
    }
}

/// Appends `bytes` to `buf`.
pub fn append(buf: &mut Vec<u8>, bytes: &[u8])
    ensures
        final(buf)@ == old(buf)@ + bytes@,
{
    buf.extend_from_slice(bytes);
}

/// Whether the encoding of `text` is short enough for a header.
pub fn fits(text: &str) -> (yes: bool)
    ensures
        yes == text_fits(text@),
{
    text.as_bytes().len() <= MAX_LENGTH as usize
}

/// Appends the canonical form of a string whose content is `body`.
pub fn write_str(buf: &mut Vec<u8>, body: &[u8])
    requires
        body@.len() <= MAX_LENGTH,
    ensures
        final(buf)@ == old(buf)@ + str_wire(body@),
{
    write_length(buf, Container::Str, body.len() as u32);
    append(buf, body);
}

/// Appends the canonical form of `text`.
pub fn write_text(buf: &mut Vec<u8>, text: &str)
    requires
        text_fits(text@),
    ensures
        final(buf)@ == old(buf)@ + text_wire(text@),
{
    write_str(buf, text.as_bytes());
}

/// Reads a string at `pos` without looking into it: where its content
/// begins, and the position behind it, where the content ends.
pub fn read_str(input: &[u8], pos: usize) -> (result: Result<(usize, usize), DecodeError>)
    requires
        pos <= input.len(),
    ensures
        match result {
            Ok((start, next)) => pos <= start <= next <= input.len() && parse_str(
                input@.skip(pos as int),
            ) == Ok::<(Seq<u8>, int), DecodeError>(
                (input@.subrange(start as int, next as int), next - pos),
            ),
            Err(error) => parse_str(input@.skip(pos as int)) == Err::<(Seq<u8>, int), DecodeError>(
                error,
            ),
        },
{
    proof {
        reveal(parse_str);
    }
    let ghost rest = input@.skip(pos as int);
    match read_length(input, pos, Container::Str) {
        Err(error) => Err(error),
        Ok((len, start)) => {
            if input.len() - start < len as usize {
                Err(DecodeError::Truncated)
            } else {
                let next: usize = start + len as usize;
                assert(input@.subrange(start as int, next as int) =~= rest.subrange(
                    start - pos,
                    start - pos + len,
                ));
                Ok((start, next))
            }
        },
    }
}

/// Reads a text at `pos`: the text, and the position behind it.
pub fn read_text(input: &[u8], pos: usize) -> (result: Result<(String, usize), DecodeError>)
    requires
        pos <= input.len(),
    ensures
        match result {
            Ok((text, next)) => pos <= next <= input.len() && parse_text(input@.skip(pos as int))
                == Ok::<(Seq<char>, int), DecodeError>((text@, next - pos)),
            Err(error) => parse_text(input@.skip(pos as int)) == Err::<
                (Seq<char>, int),
                DecodeError,
            >(error),
        },
{
    proof {
        reveal(parse_text);
    }
    match read_str(input, pos) {
        Err(error) => Err(error),
        Ok((start, next)) => {
            let body: Vec<u8> = slice_to_vec(slice_subrange(input, start, next));
            match string_from_utf8(body) {
                None => Err(DecodeError::InvalidUtf8),
                Some(text) => {
                    proof {
                        encode_utf8_decode_utf8(text@);
                    }
                    Ok((text, next))
                },
            }
        },
    }
}

/// A header that was written is read back, whatever follows it.
pub proof fn lemma_length_header_round_trip(container: Container, len: nat, rest: Seq<u8>)
    requires
        len <= MAX_LENGTH,
    ensures
        parse_length_header(container, length_header(container, len) + rest) == Ok::<
            (nat, int),
            DecodeError,
        >((len, length_header(container, len).len() as int)),
{
    reveal(length_header);
    reveal(parse_length_header);
    if fix_limit(container) <= len && !(container == Container::Str && len < 0x100) {
        if len < 0x1_0000 {
            lemma_be16_of_bytes16(len);
        } else {
            lemma_be32_of_bytes32(len);
        }
    }
}

/// Two bytes hold every number below 2^16.
pub proof fn lemma_be16_of_bytes16(value: nat)
    requires
        value < 0x1_0000,
    ensures
        be16(bytes16(value)) == value,
{
}

/// Four bytes hold every number below 2^32.
pub proof fn lemma_be32_of_bytes32(value: nat)
    requires
        value < 0x1_0000_0000,
    ensures
        be32(bytes32(value)) == value,
{
}

/// Eight bytes hold every number below 2^64.
pub proof fn lemma_be64_of_bytes64(value: nat)
    requires
        value <= u64::MAX,
    ensures
        be64(bytes64(value)) == value,
{
    let high = value / 0x1_0000_0000;
    let low = value % 0x1_0000_0000;
    lemma_be32_of_bytes32(high);
    lemma_be32_of_bytes32(low);
}

/// An integer that was written is read back, whatever follows it.
pub proof fn lemma_uint_round_trip(value: nat, rest: Seq<u8>)
    requires
        value <= u64::MAX,
    ensures
        parse_uint(uint_wire(value) + rest) == Ok::<(nat, int), DecodeError>(
            (value, uint_wire(value).len() as int),
        ),
{
    reveal(uint_wire);
    reveal(parse_uint);
    if value < 0x100 {
        // one byte holds the value as it is
    } else if value < 0x1_0000 {
        lemma_be16_of_bytes16(value);
    } else if value < 0x1_0000_0000 {
        lemma_be32_of_bytes32(value);
    } else {
        lemma_be64_of_bytes64(value);
    }
}

/// A string that was written is read back, whatever follows it.
pub proof fn lemma_str_round_trip(body: Seq<u8>, rest: Seq<u8>)
    requires
        body.len() <= MAX_LENGTH,
    ensures
        parse_str(str_wire(body) + rest) == Ok::<(Seq<u8>, int), DecodeError>(
            (body, str_wire(body).len() as int),
        ),
{
    reveal(parse_str);
    let header = length_header(Container::Str, body.len());
    let bytes = str_wire(body) + rest;
    assert(bytes =~= header + (body + rest));
    lemma_length_header_round_trip(Container::Str, body.len(), body + rest);
    assert(bytes.subrange(header.len() as int, (header.len() + body.len()) as int) =~= body);
}

/// A text that was written is read back, whatever follows it.
pub proof fn lemma_text_round_trip(text: Seq<char>, rest: Seq<u8>)
    requires
        text_fits(text),
    ensures
        parse_text(text_wire(text) + rest) == Ok::<(Seq<char>, int), DecodeError>(
            (text, text_wire(text).len() as int),
        ),
{
    reveal(parse_text);
    lemma_str_round_trip(encode_utf8(text), rest);
    encode_utf8_valid_utf8(text);
    encode_utf8_decode_utf8(text);
}

/// What reading gives on the first `kept` bytes of an input, where reading
/// the whole input gives `whole`: the same where the value lies within those
/// bytes, and the report that the bytes end too early where it does not.
pub open spec fn cut_short<T>(
    whole: Result<(T, int), DecodeError>,
    part: Result<(T, int), DecodeError>,
    kept: int,
) -> bool {
    match whole {
        Ok((_, taken)) => if taken <= kept {
            part == whole
        } else {
            part == Err::<(T, int), DecodeError>(DecodeError::Truncated)
        },
        Err(_) => true,
    }
}

/// A header is read from the bytes it takes, and from no fewer.
pub proof fn lemma_length_header_cut(container: Container, bytes: Seq<u8>, kept: int)
    requires
        0 <= kept <= bytes.len(),
    ensures
        cut_short(
            parse_length_header(container, bytes),
            parse_length_header(container, bytes.take(kept)),
            kept,
        ),
{
    reveal(parse_length_header);
}

/// An integer is read from the bytes it takes, and from no fewer.
pub proof fn lemma_uint_cut(bytes: Seq<u8>, kept: int)
    requires
        0 <= kept <= bytes.len(),
    ensures
        cut_short(parse_uint(bytes), parse_uint(bytes.take(kept)), kept),
{
    reveal(parse_uint);
}

/// A string is read from the bytes it takes, and from no fewer.
pub proof fn lemma_str_cut(bytes: Seq<u8>, kept: int)
    requires
        0 <= kept <= bytes.len(),
    ensures
        cut_short(parse_str(bytes), parse_str(bytes.take(kept)), kept),
{
    reveal(parse_str);
    reveal(parse_length_header);
    lemma_length_header_cut(Container::Str, bytes, kept);
    match parse_length_header(Container::Str, bytes) {
        Ok((len, header)) => {
            if header + len <= kept && header + len <= bytes.len() {
                assert(bytes.take(kept).subrange(header, header + len) =~= bytes.subrange(
                    header,
                    header + len,
                ));
            }
        },
        Err(_) => {},
    }
}

/// A text is read from the bytes it takes, and from no fewer.
pub proof fn lemma_text_cut(bytes: Seq<u8>, kept: int)
    requires
        0 <= kept <= bytes.len(),
    ensures
        cut_short(parse_text(bytes), parse_text(bytes.take(kept)), kept),
{
    reveal(parse_text);
    lemma_str_cut(bytes, kept);
}

/// What was read lies within the input: this holds of `taken`, the number
/// of bytes read from an input of `len` bytes, where anything was read.
pub open spec fn within<T>(outcome: Result<(T, int), DecodeError>, len: nat) -> bool {
    match outcome {
        Ok((_, taken)) => 0 < taken <= len,
        Err(_) => true,
    }
}

/// A header that was read lies within the input.
pub proof fn lemma_length_header_within(container: Container, bytes: Seq<u8>)
    ensures
        within(parse_length_header(container, bytes), bytes.len()),
{
    reveal(parse_length_header);
}

/// An integer that was read lies within the input.
pub proof fn lemma_uint_within(bytes: Seq<u8>)
    ensures
        within(parse_uint(bytes), bytes.len()),
{
    reveal(parse_uint);
}

/// A string that was read lies within the input.
pub proof fn lemma_str_within(bytes: Seq<u8>)
    ensures
        within(parse_str(bytes), bytes.len()),
{
    reveal(parse_str);
    lemma_length_header_within(Container::Str, bytes);
}

/// A text that was read lies within the input.
pub proof fn lemma_text_within(bytes: Seq<u8>)
    ensures
        within(parse_text(bytes), bytes.len()),
{
    reveal(parse_text);
    lemma_str_within(bytes);
}

} // verus!
