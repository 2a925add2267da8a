//! How a variant of a tagged union begins on the wire.
//!
//! A variant without fields is written as its name, a string. A variant with
//! fields is written as a map of one entry: the key is its name, the value
//! holds the fields. A reader also accepts a variant without fields in the
//! second form, with nil as the value.

use vstd::prelude::*;
use vstd::utf8::{encode_utf8, is_ascii_chars, is_ascii_chars_encode_utf8};
use crate::ext::msgpack::{
    Container, DecodeError, MAX_LENGTH, length_header, parse_length_header, parse_str, str_wire,
    read_length, read_str, write_length, write_str, cut_short, within,
    lemma_length_header_cut, lemma_length_header_round_trip, lemma_length_header_within,
    lemma_str_cut, lemma_str_round_trip, lemma_str_within,
};

verus! {

/// The marker of nil.
pub const NIL: u8 = 0xc0;

/// A variant's name written alone.
pub open spec fn unit_variant_wire(tag: Seq<u8>) -> Seq<u8> {
    str_wire(tag)
}

/// A variant's name written as the key of a map of one entry.
pub open spec fn keyed_variant_wire(tag: Seq<u8>) -> Seq<u8> {
    length_header(Container::Mapping, 1) + str_wire(tag)
}

/// Reads the beginning of a variant from the front of `bytes`: its name,
/// whether the name is the key of a map, so that a value follows, and how
/// many bytes were read.
#[verifier::opaque]
pub open spec fn parse_variant(bytes: Seq<u8>) -> Result<((Seq<u8>, bool), int), DecodeError> {
    match parse_length_header(Container::Mapping, bytes) {
        Ok((entries, header)) => if entries != 1 {
            Err(DecodeError::LengthMismatch)
        } else {
            match parse_str(bytes.skip(header)) {
                Err(error) => Err(error),
                Ok((tag, taken)) => Ok(((tag, true), header + taken)),
            }
        },
        Err(DecodeError::TypeMismatch) => match parse_str(bytes) {
            Err(error) => Err(error),
            Ok((tag, taken)) => Ok(((tag, false), taken)),
        },
        Err(error) => Err(error),
    }
}

/// Reads what follows the name of a variant without fields: nothing where
/// the name stood alone, nil where it was a key. Gives the number of bytes
/// read.
pub open spec fn parse_unit_value(bytes: Seq<u8>, keyed: bool) -> Result<((), int), DecodeError> {
    if !keyed {
        Ok(((), 0))
    } else if bytes.len() < 1 {
        Err(DecodeError::Truncated)
    } else if bytes[0] == NIL {
        Ok(((), 1))
    } else {
        Err(DecodeError::TypeMismatch)
    }
}

/// The bytes of a name.
pub open spec fn tag_bytes(name: &str) -> Seq<u8> {
    encode_utf8(name@)
}

/// Whether the bytes of `input` from `start` to `end` are those of `name`.
pub fn tag_is(input: &[u8], start: usize, end: usize, name: &str) -> (yes: bool)
    requires
        start <= end <= input.len(),
    ensures
        yes == (input@.subrange(start as int, end as int) == tag_bytes(name)),
{
    let wanted: &[u8] = name.as_bytes();
    if end - start != wanted.len() {
        return false;
    }
    let ghost found = input@.subrange(start as int, end as int);
    let mut i: usize = 0;
    while i < wanted.len()
        invariant
            start <= end <= input.len(),
            end - start == wanted.len(),
            i <= wanted.len(),
            wanted@ == tag_bytes(name),
            found == input@.subrange(start as int, end as int),
            forall|j: int| 0 <= j < i ==> found[j] == wanted@[j],
        decreases wanted.len() - i,
    {
        if input[start + i] != wanted[i] {
            return false;
        }
        i += 1;
    }
    assert(found =~= wanted@);
    true
}

/// Appends the name of a variant, alone.
pub fn write_unit_variant(buf: &mut Vec<u8>, name: &str)
    requires
        tag_bytes(name).len() <= MAX_LENGTH,
    ensures
        final(buf)@ == old(buf)@ + unit_variant_wire(tag_bytes(name)),
{
    write_str(buf, name.as_bytes());
}

/// Appends the name of a variant as the key of a map of one entry.
pub fn write_keyed_variant(buf: &mut Vec<u8>, name: &str)
    requires
        tag_bytes(name).len() <= MAX_LENGTH,
    ensures
        final(buf)@ == old(buf)@ + keyed_variant_wire(tag_bytes(name)),
{
    write_length(buf, Container::Mapping, 1);
    write_str(buf, name.as_bytes());
}

/// Where the name of a variant stands, and what was read with it.
pub struct VariantHead {
    /// The name is `input[tag_start..tag_end]`.
    pub tag_start: usize,
    pub tag_end: usize,
    /// Whether the name was the key of a map, so that a value follows.
    pub keyed: bool,
}

/// Reads the beginning of a variant at `pos`. What follows the name begins
/// at `tag_end`.
pub fn read_variant(input: &[u8], pos: usize) -> (result: Result<VariantHead, DecodeError>)
    requires
        pos <= input.len(),
    ensures
        match result {
            Ok(head) => pos <= head.tag_start <= head.tag_end <= input.len() && parse_variant(
                input@.skip(pos as int),
            ) == Ok::<((Seq<u8>, bool), int), DecodeError>(
                (
                    (input@.subrange(head.tag_start as int, head.tag_end as int), head.keyed),
                    head.tag_end - pos,
                ),
            ),
            Err(error) => parse_variant(input@.skip(pos as int)) == Err::<
                ((Seq<u8>, bool), int),
                DecodeError,
            >(error),
        },
{
    proof {
        reveal(parse_variant);
    }
    let ghost whole = input@.skip(pos as int);
    match read_length(input, pos, Container::Mapping) {
        Ok((entries, key)) => {
            if entries != 1 {
                return Err(DecodeError::LengthMismatch);
            }
            assert(whole.skip(key - pos) =~= input@.skip(key as int));
            match read_str(input, key) {
                Err(error) => Err(error),
                Ok((tag_start, tag_end)) => Ok(VariantHead { tag_start, tag_end, keyed: true }),
            }
        },
        Err(DecodeError::TypeMismatch) => match read_str(input, pos) {
            Err(error) => Err(error),
            Ok((tag_start, tag_end)) => Ok(VariantHead { tag_start, tag_end, keyed: false }),
        },
        Err(error) => Err(error),
    }
}

/// Reads what follows the name of a variant without fields, at `pos`: the
/// position behind it.
pub fn read_unit_value(input: &[u8], pos: usize, keyed: bool) -> (result: Result<
    usize,
    DecodeError,
>)
    requires
        pos <= input.len(),
    ensures
        match result {
            Ok(next) => pos <= next <= input.len() && parse_unit_value(
                input@.skip(pos as int),
                keyed,
            ) == Ok::<((), int), DecodeError>(((), next - pos)),
            Err(error) => parse_unit_value(input@.skip(pos as int), keyed) == Err::<
                ((), int),
                DecodeError,
            >(error),
        },
{
    if !keyed {
        Ok(pos)
    } else if input.len() - pos < 1 {
        Err(DecodeError::Truncated)
    } else if input[pos] == NIL {
        Ok(pos + 1)
    } else {
        Err(DecodeError::TypeMismatch)
    }
}

/// A name that was written alone is read back as such, whatever follows it.
pub proof fn lemma_unit_variant_round_trip(tag: Seq<u8>, rest: Seq<u8>)
    requires
        tag.len() <= MAX_LENGTH,
    ensures
        parse_variant(unit_variant_wire(tag) + rest) == Ok::<((Seq<u8>, bool), int), DecodeError>(
            ((tag, false), unit_variant_wire(tag).len() as int),
        ),
{
    reveal(parse_variant);
    reveal(length_header);
    reveal(parse_length_header);
    lemma_str_round_trip(tag, rest);
}

/// A name that was written as a key is read back as such, whatever follows
/// it.
pub proof fn lemma_keyed_variant_round_trip(tag: Seq<u8>, rest: Seq<u8>)
    requires
        tag.len() <= MAX_LENGTH,
    ensures
        parse_variant(keyed_variant_wire(tag) + rest) == Ok::<((Seq<u8>, bool), int), DecodeError>(
            ((tag, true), keyed_variant_wire(tag).len() as int),
        ),
{
    reveal(parse_variant);
    let header = length_header(Container::Mapping, 1);
    let bytes = keyed_variant_wire(tag) + rest;
    let tail = str_wire(tag) + rest;
    assert(bytes =~= header + tail);
    lemma_length_header_round_trip(Container::Mapping, 1, tail);
    assert(bytes.skip(header.len() as int) =~= tail);
    lemma_str_round_trip(tag, rest);
}

/// The bytes of a name made of ASCII characters are its characters.
pub proof fn lemma_ascii_tag(name: &str)
    requires
        is_ascii_chars(name@),
    ensures
        tag_bytes(name).len() == name@.len(),
        forall|i: int| 0 <= i < name@.len() ==> tag_bytes(name)[i] == name@[i] as u8,
{
    is_ascii_chars_encode_utf8(name@);
}

/// The beginning of a variant that was read lies within the input.
pub proof fn lemma_variant_within(bytes: Seq<u8>)
    ensures
        within(parse_variant(bytes), bytes.len()),
{
    reveal(parse_variant);
    lemma_length_header_within(Container::Mapping, bytes);
    lemma_str_within(bytes);
    match parse_length_header(Container::Mapping, bytes) {
        Ok((_, header)) => {
            lemma_str_within(bytes.skip(header));
        },
        Err(_) => {},
    }
}

/// The beginning of a variant is read from the bytes it takes, and from no
/// fewer.
pub proof fn lemma_variant_cut(bytes: Seq<u8>, kept: int)
    requires
        0 <= kept <= bytes.len(),
    ensures
        cut_short(parse_variant(bytes), parse_variant(bytes.take(kept)), kept),
{
    reveal(parse_variant);
    lemma_length_header_cut(Container::Mapping, bytes, kept);
    lemma_length_header_within(Container::Mapping, bytes);
    match parse_length_header(Container::Mapping, bytes) {
        Ok((_, header)) => {
            let rest = bytes.skip(header);
            lemma_str_within(rest);
            if header <= kept {
                assert(bytes.take(kept).skip(header) =~= rest.take(kept - header));
                lemma_str_cut(rest, kept - header);
            }
        },
        Err(DecodeError::TypeMismatch) => {
            // The first byte tells that no map begins here, so the name is
            // read from the same place in both.
            reveal(parse_length_header);
            lemma_str_cut(bytes, kept);
            lemma_str_within(bytes);
        },
        Err(_) => {},
    }
}

/// What follows the name of a variant without fields is read from the bytes
/// it takes, and from no fewer.
pub proof fn lemma_unit_value_cut(bytes: Seq<u8>, keyed: bool, kept: int)
    requires
        0 <= kept <= bytes.len(),
    ensures
        cut_short(parse_unit_value(bytes, keyed), parse_unit_value(bytes.take(kept), keyed), kept),
{
}

} // verus!
