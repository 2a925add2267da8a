//! Arrays on the wire: an array of texts, as the arguments of a call are
//! written, and an array of small integers, as a blob is written.

use vstd::prelude::*;
use crate::ext::msgpack::{
    Container, DecodeError, MAX_LENGTH, length_header, parse_length_header, parse_text,
    parse_uint, text_fits, text_wire, uint_wire, read_length, read_text, read_uint,
    write_length, write_text, write_uint, cut_short, within, lemma_length_header_cut,
    lemma_length_header_round_trip, lemma_length_header_within, lemma_text_cut,
    lemma_text_round_trip, lemma_text_within, lemma_uint_cut, lemma_uint_round_trip,
    lemma_uint_within,
};

verus! {

/// What was read so far, followed by what the rest gives.
pub open spec fn followed_by<T>(
    items: Seq<T>,
    taken: int,
    rest: Result<(Seq<T>, int), DecodeError>,
) -> Result<(Seq<T>, int), DecodeError> {
    match rest {
        Err(error) => Err(error),
        Ok((more, further)) => Ok((items + more, taken + further)),
    }
}

/// The texts of `items`, one after the other.
pub open spec fn texts_wire(items: Seq<Seq<char>>) -> Seq<u8>
    decreases items.len(),
{
    if items.len() == 0 {
        Seq::empty()
    } else {
        text_wire(items.first()) + texts_wire(items.drop_first())
    }
}

/// Reads `count` texts from the front of `bytes`.
pub open spec fn parse_texts(bytes: Seq<u8>, count: nat) -> Result<
    (Seq<Seq<char>>, int),
    DecodeError,
>
    decreases count,
{
    if count == 0 {
        Ok((Seq::empty(), 0))
    } else {
        match parse_text(bytes) {
            Err(error) => Err(error),
            Ok((first, taken)) => followed_by(
                seq![first],
                taken,
                parse_texts(bytes.skip(taken), (count - 1) as nat),
            ),
        }
    }
}

/// The canonical form of an array of texts.
pub open spec fn text_array_wire(items: Seq<Seq<char>>) -> Seq<u8> {
    length_header(Container::Array, items.len()) + texts_wire(items)
}

/// Reads an array of texts from the front of `bytes`.
#[verifier::opaque]
pub open spec fn parse_text_array(bytes: Seq<u8>) -> Result<(Seq<Seq<char>>, int), DecodeError> {
    match parse_length_header(Container::Array, bytes) {
        Err(error) => Err(error),
        Ok((count, header)) => followed_by(
            Seq::empty(),
            header,
            parse_texts(bytes.skip(header), count),
        ),
    }
}

/// Whether an array of texts can be written: it has no more entries than a
/// header can count, and each text fits.
pub open spec fn texts_fit(items: Seq<Seq<char>>) -> bool {
    &&& items.len() <= MAX_LENGTH
    &&& forall|i: int| 0 <= i < items.len() ==> text_fits(#[trigger] items[i])
}

/// The bytes of `bytes`, each written as an integer, one after the other.
pub open spec fn octets_wire(bytes: Seq<u8>) -> Seq<u8>
    decreases bytes.len(),
{
    if bytes.len() == 0 {
        Seq::empty()
    } else {
        uint_wire(bytes.first() as nat) + octets_wire(bytes.drop_first())
    }
}

/// Reads `count` integers below 256 from the front of `bytes`.
pub open spec fn parse_octets(bytes: Seq<u8>, count: nat) -> Result<(Seq<u8>, int), DecodeError>
    decreases count,
{
    if count == 0 {
        Ok((Seq::empty(), 0))
    } else {
        match parse_uint(bytes) {
            Err(error) => Err(error),
            Ok((value, taken)) => if value > 0xff {
                Err(DecodeError::OutOfRange)
            } else {
                followed_by(
                    seq![value as u8],
                    taken,
                    parse_octets(bytes.skip(taken), (count - 1) as nat),
                )
            },
        }
    }
}

/// The canonical form of a blob: an array of its bytes.
pub open spec fn byte_array_wire(bytes: Seq<u8>) -> Seq<u8> {
    length_header(Container::Array, bytes.len()) + octets_wire(bytes)
}

/// Reads a blob from the front of `bytes`.
#[verifier::opaque]
pub open spec fn parse_byte_array(bytes: Seq<u8>) -> Result<(Seq<u8>, int), DecodeError> {
    match parse_length_header(Container::Array, bytes) {
        Err(error) => Err(error),
        Ok((count, header)) => followed_by(
            Seq::empty(),
            header,
            parse_octets(bytes.skip(header), count),
        ),
    }
}

/// Writing one more text at the end appends its form.
pub proof fn lemma_texts_wire_push(items: Seq<Seq<char>>, last: Seq<char>)
    ensures
        texts_wire(items.push(last)) == texts_wire(items) + text_wire(last),
    decreases items.len(),
{
    if items.len() == 0 {
        assert(items.push(last).drop_first() =~= Seq::<Seq<char>>::empty());
        assert(texts_wire(Seq::<Seq<char>>::empty()) =~= Seq::<u8>::empty());
    } else {
        lemma_texts_wire_push(items.drop_first(), last);
        assert(items.push(last).drop_first() =~= items.drop_first().push(last));
    }
}

/// Writing one more byte at the end appends its form.
pub proof fn lemma_octets_wire_push(bytes: Seq<u8>, last: u8)
    ensures
        octets_wire(bytes.push(last)) == octets_wire(bytes) + uint_wire(last as nat),
    decreases bytes.len(),
{
    if bytes.len() == 0 {
        assert(bytes.push(last).drop_first() =~= Seq::<u8>::empty());
        assert(octets_wire(Seq::<u8>::empty()) =~= Seq::<u8>::empty());
    } else {
        lemma_octets_wire_push(bytes.drop_first(), last);
        assert(bytes.push(last).drop_first() =~= bytes.drop_first().push(last));
    }
}

/// Whether an array of texts can be written.
pub fn texts_fit_wire(items: &Vec<String>) -> (yes: bool)
    ensures
        yes == texts_fit(items.deep_view()),
{
    if items.len() > MAX_LENGTH as usize {
        return false;
    }
    let mut i: usize = 0;
    while i < items.len()
        invariant
            i <= items.len(),
            items.len() <= MAX_LENGTH,
            forall|j: int| 0 <= j < i ==> text_fits(#[trigger] items.deep_view()[j]),
        decreases items.len() - i,
    {
        if !crate::ext::msgpack::fits(items[i].as_str()) {
            assert(!text_fits(items.deep_view()[i as int]));
            return false;
        }
        i += 1;
    }
    true
}

/// Appends the canonical form of an array of texts.
pub fn write_text_array(buf: &mut Vec<u8>, items: &Vec<String>)
    requires
        texts_fit(items.deep_view()),
    ensures
        final(buf)@ == old(buf)@ + text_array_wire(items.deep_view()),
{
    let ghost texts = items.deep_view();
    write_length(buf, Container::Array, items.len() as u32);
    let ghost base = buf@;
    let mut i: usize = 0;
    while i < items.len()
        invariant
            i <= items.len(),
            texts == items.deep_view(),
            texts_fit(texts),
            buf@ == base + texts_wire(texts.take(i as int)),
        decreases items.len() - i,
    {
        assert(text_fits(texts[i as int]));
        write_text(buf, items[i].as_str());
        proof {
            lemma_texts_wire_push(texts.take(i as int), texts[i as int]);
            assert(texts.take(i + 1) =~= texts.take(i as int).push(texts[i as int]));
        }
        i += 1;
    }
    assert(texts.take(i as int) =~= texts);
}

/// Reads an array of texts at `pos`: the texts, and the position behind the
/// array.
pub fn read_text_array(input: &[u8], pos: usize) -> (result: Result<
    (Vec<String>, usize),
    DecodeError,
>)
    requires
        pos <= input.len(),
    ensures
        match result {
            Ok((items, next)) => pos <= next <= input.len() && parse_text_array(
                input@.skip(pos as int),
            ) == Ok::<(Seq<Seq<char>>, int), DecodeError>((items.deep_view(), next - pos)),
            Err(error) => parse_text_array(input@.skip(pos as int)) == Err::<
                (Seq<Seq<char>>, int),
                DecodeError,
            >(error),
        },
{
    proof {
        reveal(parse_text_array);
    }
    let ghost whole = input@.skip(pos as int);
    let (count, start) = match read_length(input, pos, Container::Array) {
        Err(error) => {
            return Err(error);
        },
        Ok(header) => header,
    };
    let ghost body = whole.skip(start - pos);
    assert(body =~= input@.skip(start as int));
    let mut items: Vec<String> = Vec::new();
    let mut at: usize = start;
    let mut left: u32 = count;
    proof {
        // Nothing was read so far, so what the rest gives is the whole.
        if let Ok((more, _)) = parse_texts(body, count as nat) {
            assert(items.deep_view() + more =~= more);
        }
    }
    while left > 0
        invariant
            pos <= start <= at <= input.len(),
            body == input@.skip(start as int),
            parse_text_array(input@.skip(pos as int)) == followed_by(
                Seq::empty(),
                start - pos,
                parse_texts(body, count as nat),
            ),
            parse_texts(body, count as nat) == followed_by(
                items.deep_view(),
                at - start,
                parse_texts(input@.skip(at as int), left as nat),
            ),
        decreases left,
    {
        let ghost before = items.deep_view();
        let ghost here = input@.skip(at as int);
        match read_text(input, at) {
            Err(error) => {
                return Err(error);
            },
            Ok((text, next)) => {
                proof {
                    let tail = parse_texts(input@.skip(next as int), (left - 1) as nat);
                    assert(here.skip(next - at) =~= input@.skip(next as int));
                    if let Ok((more, _)) = tail {
                        assert(before + (seq![text@] + more) =~= before.push(text@) + more);
                    }
                }
                items.push(text);
                assert(items.deep_view() =~= before.push(text@));
                at = next;
                left = left - 1;
            },
        }
    }
    Ok((items, at))
}

/// Whether a blob can be written: it has no more bytes than a header can
/// count.
pub fn blob_fits_wire(bytes: &[u8]) -> (yes: bool)
    ensures
        yes == (bytes@.len() <= MAX_LENGTH),
{
    bytes.len() <= MAX_LENGTH as usize
}

/// Appends the canonical form of a blob.
pub fn write_byte_array(buf: &mut Vec<u8>, bytes: &[u8])
    requires
        bytes@.len() <= MAX_LENGTH,
    ensures
        final(buf)@ == old(buf)@ + byte_array_wire(bytes@),
{
    write_length(buf, Container::Array, bytes.len() as u32);
    let ghost base = buf@;
    let mut i: usize = 0;
    while i < bytes.len()
        invariant
            i <= bytes.len(),
            buf@ == base + octets_wire(bytes@.take(i as int)),
        decreases bytes.len() - i,
    {
        write_uint(buf, bytes[i] as u64);
        proof {
            lemma_octets_wire_push(bytes@.take(i as int), bytes@[i as int]);
            assert(bytes@.take(i + 1) =~= bytes@.take(i as int).push(bytes@[i as int]));
        }
        i += 1;
    }
    assert(bytes@.take(i as int) =~= bytes@);
}

/// Reads a blob at `pos`: its bytes, and the position behind the array.
pub fn read_byte_array(input: &[u8], pos: usize) -> (result: Result<(Vec<u8>, usize), DecodeError>)
    requires
        pos <= input.len(),
    ensures
        match result {
            Ok((bytes, next)) => pos <= next <= input.len() && parse_byte_array(
                input@.skip(pos as int),
            ) == Ok::<(Seq<u8>, int), DecodeError>((bytes@, next - pos)),
            Err(error) => parse_byte_array(input@.skip(pos as int)) == Err::<
                (Seq<u8>, int),
                DecodeError,
            >(error),
        },
{
    proof {
        reveal(parse_byte_array);
    }
    let ghost whole = input@.skip(pos as int);
    let (count, start) = match read_length(input, pos, Container::Array) {
        Err(error) => {
            return Err(error);
        },
        Ok(header) => header,
    };
    let ghost body = whole.skip(start - pos);
    assert(body =~= input@.skip(start as int));
    let mut bytes: Vec<u8> = Vec::new();
    let mut at: usize = start;
    let mut left: u32 = count;
    proof {
        // Nothing was read so far, so what the rest gives is the whole.
        if let Ok((more, _)) = parse_octets(body, count as nat) {
            assert(bytes@ + more =~= more);
        }
    }
    while left > 0
        invariant
            pos <= start <= at <= input.len(),
            body == input@.skip(start as int),
            parse_byte_array(input@.skip(pos as int)) == followed_by(
                Seq::empty(),
                start - pos,
                parse_octets(body, count as nat),
            ),
            parse_octets(body, count as nat) == followed_by(
                bytes@,
                at - start,
                parse_octets(input@.skip(at as int), left as nat),
            ),
        decreases left,
    {
        let ghost before = bytes@;
        let ghost here = input@.skip(at as int);
        match read_uint(input, at) {
            Err(error) => {
                return Err(error);
            },
            Ok((value, next)) => {
                if value > 0xff {
                    return Err(DecodeError::OutOfRange);
                }
                let byte: u8 = value as u8;
                proof {
                    let tail = parse_octets(input@.skip(next as int), (left - 1) as nat);
                    assert(here.skip(next - at) =~= input@.skip(next as int));
                    if let Ok((more, _)) = tail {
                        assert(before + (seq![byte] + more) =~= before.push(byte) + more);
                    }
                }
                bytes.push(byte);
                at = next;
                left = left - 1;
            },
        }
    }
    Ok((bytes, at))
}

/// Texts that were written one after the other are read back, whatever
/// follows them.
pub proof fn lemma_texts_round_trip(items: Seq<Seq<char>>, rest: Seq<u8>)
    requires
        forall|i: int| 0 <= i < items.len() ==> text_fits(#[trigger] items[i]),
    ensures
        parse_texts(texts_wire(items) + rest, items.len()) == Ok::<
            (Seq<Seq<char>>, int),
            DecodeError,
        >((items, texts_wire(items).len() as int)),
    decreases items.len(),
{
    if items.len() == 0 {
        assert(items =~= Seq::<Seq<char>>::empty());
    } else {
        let first = items.first();
        let others = items.drop_first();
        let bytes = texts_wire(items) + rest;
        let tail = texts_wire(others) + rest;
        assert(bytes =~= text_wire(first) + tail);
        lemma_text_round_trip(first, tail);
        assert(bytes.skip(text_wire(first).len() as int) =~= tail);
        assert forall|i: int| 0 <= i < others.len() implies text_fits(#[trigger] others[i]) by {
            assert(others[i] == items[i + 1]);
        }
        lemma_texts_round_trip(others, rest);
        assert(seq![first] + others =~= items);
    }
}

/// An array of texts that was written is read back, whatever follows it.
pub proof fn lemma_text_array_round_trip(items: Seq<Seq<char>>, rest: Seq<u8>)
    requires
        texts_fit(items),
    ensures
        parse_text_array(text_array_wire(items) + rest) == Ok::<(Seq<Seq<char>>, int), DecodeError>(
            (items, text_array_wire(items).len() as int),
        ),
{
    reveal(parse_text_array);
    let header = length_header(Container::Array, items.len());
    let bytes = text_array_wire(items) + rest;
    let tail = texts_wire(items) + rest;
    assert(bytes =~= header + tail);
    lemma_length_header_round_trip(Container::Array, items.len(), tail);
    assert(bytes.skip(header.len() as int) =~= tail);
    lemma_texts_round_trip(items, rest);
}

/// Bytes that were written one after the other are read back, whatever
/// follows them.
pub proof fn lemma_octets_round_trip(bytes: Seq<u8>, rest: Seq<u8>)
    ensures
        parse_octets(octets_wire(bytes) + rest, bytes.len()) == Ok::<(Seq<u8>, int), DecodeError>(
            (bytes, octets_wire(bytes).len() as int),
        ),
    decreases bytes.len(),
{
    if bytes.len() == 0 {
        assert(bytes =~= Seq::<u8>::empty());
    } else {
        let first = bytes.first();
        let others = bytes.drop_first();
        let wire = octets_wire(bytes) + rest;
        let tail = octets_wire(others) + rest;
        assert(wire =~= uint_wire(first as nat) + tail);
        lemma_uint_round_trip(first as nat, tail);
        assert(wire.skip(uint_wire(first as nat).len() as int) =~= tail);
        lemma_octets_round_trip(others, rest);
        assert(seq![first] + others =~= bytes);
    }
}

/// A blob that was written is read back, whatever follows it.
pub proof fn lemma_byte_array_round_trip(bytes: Seq<u8>, rest: Seq<u8>)
    requires
        bytes.len() <= MAX_LENGTH,
    ensures
        parse_byte_array(byte_array_wire(bytes) + rest) == Ok::<(Seq<u8>, int), DecodeError>(
            (bytes, byte_array_wire(bytes).len() as int),
        ),
{
    reveal(parse_byte_array);
    let header = length_header(Container::Array, bytes.len());
    let wire = byte_array_wire(bytes) + rest;
    let tail = octets_wire(bytes) + rest;
    assert(wire =~= header + tail);
    lemma_length_header_round_trip(Container::Array, bytes.len(), tail);
    assert(wire.skip(header.len() as int) =~= tail);
    lemma_octets_round_trip(bytes, rest);
}

/// Texts that were read one after the other lie within the input, and are
/// as many as were asked for.
pub proof fn lemma_texts_within(bytes: Seq<u8>, count: nat)
    ensures
        match parse_texts(bytes, count) {
            Ok((items, taken)) => 0 <= taken <= bytes.len() && items.len() == count,
            Err(_) => true,
        },
    decreases count,
{
    if count > 0 {
        lemma_text_within(bytes);
        match parse_text(bytes) {
            Ok((_, taken)) => {
                lemma_texts_within(bytes.skip(taken), (count - 1) as nat);
            },
            Err(_) => {},
        }
    }
}

/// Bytes that were read one after the other lie within the input, and are as
/// many as were asked for.
pub proof fn lemma_octets_within(bytes: Seq<u8>, count: nat)
    ensures
        match parse_octets(bytes, count) {
            Ok((items, taken)) => 0 <= taken <= bytes.len() && items.len() == count,
            Err(_) => true,
        },
    decreases count,
{
    if count > 0 {
        lemma_uint_within(bytes);
        match parse_uint(bytes) {
            Ok((_, taken)) => {
                lemma_octets_within(bytes.skip(taken), (count - 1) as nat);
            },
            Err(_) => {},
        }
    }
}

/// An array of texts that was read lies within the input.
pub proof fn lemma_text_array_within(bytes: Seq<u8>)
    ensures
        within(parse_text_array(bytes), bytes.len()),
{
    reveal(parse_text_array);
    lemma_length_header_within(Container::Array, bytes);
    match parse_length_header(Container::Array, bytes) {
        Ok((count, header)) => {
            lemma_texts_within(bytes.skip(header), count);
        },
        Err(_) => {},
    }
}

/// A blob that was read lies within the input.
pub proof fn lemma_byte_array_within(bytes: Seq<u8>)
    ensures
        within(parse_byte_array(bytes), bytes.len()),
{
    reveal(parse_byte_array);
    lemma_length_header_within(Container::Array, bytes);
    match parse_length_header(Container::Array, bytes) {
        Ok((count, header)) => {
            lemma_octets_within(bytes.skip(header), count);
        },
        Err(_) => {},
    }
}

/// Texts are read from the bytes they take, and from no fewer.
pub proof fn lemma_texts_cut(bytes: Seq<u8>, count: nat, kept: int)
    requires
        0 <= kept <= bytes.len(),
    ensures
        cut_short(parse_texts(bytes, count), parse_texts(bytes.take(kept), count), kept),
    decreases count,
{
    if count > 0 {
        lemma_text_cut(bytes, kept);
        lemma_text_within(bytes);
        match parse_text(bytes) {
            Ok((_, taken)) => {
                let rest = bytes.skip(taken);
                lemma_texts_within(rest, (count - 1) as nat);
                if taken <= kept {
                    assert(bytes.take(kept).skip(taken) =~= rest.take(kept - taken));
                    lemma_texts_cut(rest, (count - 1) as nat, kept - taken);
                }
            },
            Err(_) => {},
        }
    }
}

/// Bytes are read from the bytes they take on the wire, and from no fewer.
pub proof fn lemma_octets_cut(bytes: Seq<u8>, count: nat, kept: int)
    requires
        0 <= kept <= bytes.len(),
    ensures
        cut_short(parse_octets(bytes, count), parse_octets(bytes.take(kept), count), kept),
    decreases count,
{
    if count > 0 {
        lemma_uint_cut(bytes, kept);
        lemma_uint_within(bytes);
        match parse_uint(bytes) {
            Ok((_, taken)) => {
                let rest = bytes.skip(taken);
                lemma_octets_within(rest, (count - 1) as nat);
                if taken <= kept {
                    assert(bytes.take(kept).skip(taken) =~= rest.take(kept - taken));
                    lemma_octets_cut(rest, (count - 1) as nat, kept - taken);
                }
            },
            Err(_) => {},
        }
    }
}

/// An array of texts is read from the bytes it takes, and from no fewer.
pub proof fn lemma_text_array_cut(bytes: Seq<u8>, kept: int)
    requires
        0 <= kept <= bytes.len(),
    ensures
        cut_short(parse_text_array(bytes), parse_text_array(bytes.take(kept)), kept),
{
    reveal(parse_text_array);
    lemma_length_header_cut(Container::Array, bytes, kept);
    lemma_length_header_within(Container::Array, bytes);
    match parse_length_header(Container::Array, bytes) {
        Ok((count, header)) => {
            let rest = bytes.skip(header);
            lemma_texts_within(rest, count);
            if header <= kept {
                assert(bytes.take(kept).skip(header) =~= rest.take(kept - header));
                lemma_texts_cut(rest, count, kept - header);
            }
        },
        Err(_) => {},
    }
}

/// A blob is read from the bytes it takes on the wire, and from no fewer.
pub proof fn lemma_byte_array_cut(bytes: Seq<u8>, kept: int)
    requires
        0 <= kept <= bytes.len(),
    ensures
        cut_short(parse_byte_array(bytes), parse_byte_array(bytes.take(kept)), kept),
{
    reveal(parse_byte_array);
    lemma_length_header_cut(Container::Array, bytes, kept);
    lemma_length_header_within(Container::Array, bytes);
    match parse_length_header(Container::Array, bytes) {
        Ok((count, header)) => {
            let rest = bytes.skip(header);
            lemma_octets_within(rest, count);
            if header <= kept {
                assert(bytes.take(kept).skip(header) =~= rest.take(kept - header));
                lemma_octets_cut(rest, count, kept - header);
            }
        },
        Err(_) => {},
    }
}

} // verus!
