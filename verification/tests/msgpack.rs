use python_ext::ext::arrays::{
    blob_fits_wire, read_byte_array, read_text_array, texts_fit_wire, write_byte_array,
    write_text_array,
};
use python_ext::ext::msgpack::{
    append, fits, read_length, read_str, read_text, read_uint, write_length, write_str,
    write_text, write_uint, Container, DecodeError,
};
use python_ext::ext::tagged::{
    read_unit_value, read_variant, tag_is, write_keyed_variant, write_unit_variant,
};
use python_ext::ext::text::{chars_of, string_of};

fn length(container: Container, len: u32) -> Vec<u8> {
    let mut buf = vec![0xee];
    write_length(&mut buf, container, len);
    assert_eq!(buf[0], 0xee);
    buf[1..].to_vec()
}

#[test]
fn lengths_are_written_in_their_shortest_form() {
    assert_eq!(length(Container::Str, 0), vec![0xa0]);
    assert_eq!(length(Container::Str, 31), vec![0xbf]);
    assert_eq!(length(Container::Str, 32), vec![0xd9, 32]);
    assert_eq!(length(Container::Str, 255), vec![0xd9, 255]);
    assert_eq!(length(Container::Str, 256), vec![0xda, 1, 0]);
    assert_eq!(length(Container::Str, 65_535), vec![0xda, 255, 255]);
    assert_eq!(length(Container::Str, 65_536), vec![0xdb, 0, 1, 0, 0]);
    assert_eq!(length(Container::Str, u32::MAX), vec![0xdb, 255, 255, 255, 255]);
    assert_eq!(length(Container::Array, 0), vec![0x90]);
    assert_eq!(length(Container::Array, 15), vec![0x9f]);
    assert_eq!(length(Container::Array, 16), vec![0xdc, 0, 16]);
    assert_eq!(length(Container::Array, 65_535), vec![0xdc, 255, 255]);
    assert_eq!(length(Container::Array, 65_536), vec![0xdd, 0, 1, 0, 0]);
    assert_eq!(length(Container::Array, 0x0102_0304), vec![0xdd, 1, 2, 3, 4]);
    assert_eq!(length(Container::Mapping, 1), vec![0x81]);
    assert_eq!(length(Container::Mapping, 15), vec![0x8f]);
    assert_eq!(length(Container::Mapping, 16), vec![0xde, 0, 16]);
    assert_eq!(length(Container::Mapping, 65_536), vec![0xdf, 0, 1, 0, 0]);
}

#[test]
fn lengths_are_read_back_from_any_position() {
    for container in [Container::Str, Container::Array, Container::Mapping] {
        for len in [0u32, 1, 15, 16, 31, 32, 255, 256, 65_535, 65_536, 0x0102_0304, u32::MAX] {
            let mut buf = vec![0xee, 0xee];
            write_length(&mut buf, container, len);
            let end = buf.len();
            buf.push(0xee);
            assert_eq!(read_length(&buf, 2, container), Ok((len, end)));
            assert_eq!(read_length(&buf[..end - 1], 2, container), Err(DecodeError::Truncated));
        }
    }
    assert_eq!(read_length(&[0x91], 1, Container::Array), Err(DecodeError::Truncated));
}

#[test]
fn a_length_of_another_kind_is_a_type_mismatch() {
    assert_eq!(read_length(&[0x91], 0, Container::Str), Err(DecodeError::TypeMismatch));
    assert_eq!(read_length(&[0x91], 0, Container::Mapping), Err(DecodeError::TypeMismatch));
    assert_eq!(read_length(&[0xa1], 0, Container::Array), Err(DecodeError::TypeMismatch));
    assert_eq!(read_length(&[0xd9, 1], 0, Container::Array), Err(DecodeError::TypeMismatch));
    assert_eq!(read_length(&[0xdc, 0, 1], 0, Container::Mapping), Err(DecodeError::TypeMismatch));
    assert_eq!(read_length(&[0xc0], 0, Container::Str), Err(DecodeError::TypeMismatch));
}

#[test]
fn integers_are_read_in_every_width() {
    assert_eq!(read_uint(&[0x05], 0), Ok((5, 1)));
    assert_eq!(read_uint(&[0xcc, 0x05], 0), Ok((5, 2)));
    assert_eq!(read_uint(&[0xcd, 0x00, 0x05], 0), Ok((5, 3)));
    assert_eq!(read_uint(&[0xce, 0, 0, 0, 5], 0), Ok((5, 5)));
    assert_eq!(read_uint(&[0xcf, 0, 0, 0, 0, 0, 0, 0, 5], 0), Ok((5, 9)));
    assert_eq!(read_uint(&[0xcf, 1, 2, 3, 4, 5, 6, 7, 8], 0), Ok((0x0102_0304_0506_0708, 9)));
    assert_eq!(read_uint(&[0xcf, 255, 255, 255, 255, 255, 255, 255, 255], 0), Ok((u64::MAX, 9)));
    assert_eq!(read_uint(&[0xcf, 1, 2, 3, 4, 5, 6, 7], 0), Err(DecodeError::Truncated));
    assert_eq!(read_uint(&[0xd0, 0x01], 0), Err(DecodeError::TypeMismatch));
    assert_eq!(read_uint(&[0xe0], 0), Err(DecodeError::TypeMismatch));
    assert_eq!(read_uint(&[], 0), Err(DecodeError::Truncated));
}

#[test]
fn integers_round_trip() {
    for value in [0u64, 1, 127, 128, 255, 256, 65_535, 65_536, u32::MAX as u64, 1 << 32, u64::MAX] {
        let mut buf = vec![0xee];
        write_uint(&mut buf, value);
        assert_eq!(read_uint(&buf, 1), Ok((value, buf.len())));
    }
}

#[test]
fn texts_round_trip() {
    for text in ["", "a", "héllo", "日本語", &"x".repeat(31), &"x".repeat(32), &"é".repeat(200), &"z".repeat(70_000)] {
        assert!(fits(text));
        let mut buf = vec![0xee];
        write_text(&mut buf, text);
        let end = buf.len();
        buf.push(0xee);
        assert_eq!(read_text(&buf, 1), Ok((text.to_string(), end)));
        if !text.is_empty() {
            assert_eq!(read_text(&buf[..end - 1], 1), Err(DecodeError::Truncated));
        }
    }
}

#[test]
fn a_string_is_found_without_being_read() {
    let mut buf = vec![0xee];
    write_str(&mut buf, &[0xff, 0xfe]);
    assert_eq!(buf, vec![0xee, 0xa2, 0xff, 0xfe]);
    assert_eq!(read_str(&buf, 1), Ok((2, 4)));
    assert_eq!(read_text(&buf, 1), Err(DecodeError::InvalidUtf8));
    let mut more = vec![1u8];
    append(&mut more, &buf);
    assert_eq!(more, vec![1, 0xee, 0xa2, 0xff, 0xfe]);
}

#[test]
fn arrays_of_texts_round_trip() {
    let empty: Vec<String> = Vec::new();
    let few: Vec<String> = vec!["a".to_string(), "".to_string(), "héllo".to_string()];
    let many: Vec<String> = (0..70_000).map(|i| format!("{}", i % 10)).collect();
    for items in [empty, few, many] {
        assert!(texts_fit_wire(&items));
        let mut buf = vec![0xee];
        write_text_array(&mut buf, &items);
        let end = buf.len();
        buf.push(0xee);
        assert_eq!(read_text_array(&buf, 1), Ok((items, end)));
    }
    assert_eq!(read_text_array(&[0x92, 0xa1, b'a'], 0), Err(DecodeError::Truncated));
    assert_eq!(read_text_array(&[0x92, 0xa1, b'a', 0x01], 0), Err(DecodeError::TypeMismatch));
    assert_eq!(read_text_array(&[0x81], 0), Err(DecodeError::TypeMismatch));
}

#[test]
fn blobs_round_trip() {
    let every_byte: Vec<u8> = (0..=255).collect();
    for bytes in [Vec::new(), vec![0u8], vec![127, 128], every_byte] {
        assert!(blob_fits_wire(&bytes));
        let mut buf = vec![0xee];
        write_byte_array(&mut buf, &bytes);
        let end = buf.len();
        buf.push(0xee);
        assert_eq!(read_byte_array(&buf, 1), Ok((bytes, end)));
    }
    let mut buf = Vec::new();
    write_byte_array(&mut buf, &[1, 127, 128, 255]);
    assert_eq!(buf, vec![0x94, 0x01, 0x7f, 0xcc, 0x80, 0xcc, 0xff]);
    assert_eq!(read_byte_array(&[0x91, 0xcd, 0x01, 0x00], 0), Err(DecodeError::OutOfRange));
    assert_eq!(read_byte_array(&[0x92, 0x01], 0), Err(DecodeError::Truncated));
}

#[test]
fn a_variant_begins_with_its_name() {
    let mut buf = vec![0xee];
    write_unit_variant(&mut buf, "Run");
    assert_eq!(buf, b"\xee\xa3Run".to_vec());
    let head = read_variant(&buf, 1).unwrap();
    assert_eq!((head.tag_start, head.tag_end, head.keyed), (2, 5, false));
    assert!(tag_is(&buf, head.tag_start, head.tag_end, "Run"));
    assert!(!tag_is(&buf, head.tag_start, head.tag_end, "Ran"));
    assert!(!tag_is(&buf, head.tag_start, head.tag_end, "Ru"));
    assert!(!tag_is(&buf, head.tag_start, head.tag_end, "Runs"));
    assert_eq!(read_unit_value(&buf, head.tag_end, head.keyed), Ok(5));

    let mut buf = vec![0xee];
    write_keyed_variant(&mut buf, "Run");
    assert_eq!(buf, b"\xee\x81\xa3Run".to_vec());
    let head = read_variant(&buf, 1).unwrap();
    assert_eq!((head.tag_start, head.tag_end, head.keyed), (3, 6, true));
    assert_eq!(read_unit_value(&buf, head.tag_end, head.keyed), Err(DecodeError::Truncated));
    buf.push(0xc0);
    assert_eq!(read_unit_value(&buf, head.tag_end, head.keyed), Ok(7));
    buf[6] = 0xc2;
    assert_eq!(read_unit_value(&buf, head.tag_end, head.keyed), Err(DecodeError::TypeMismatch));
}

#[test]
fn a_variant_is_a_name_or_a_map_of_one_entry() {
    assert_eq!(read_variant(&[0x82, 0xa1, b'a'], 0).err(), Some(DecodeError::LengthMismatch));
    assert_eq!(read_variant(&[0x80], 0).err(), Some(DecodeError::LengthMismatch));
    assert_eq!(read_variant(&[0x81, 0x01], 0).err(), Some(DecodeError::TypeMismatch));
    assert_eq!(read_variant(&[0x01], 0).err(), Some(DecodeError::TypeMismatch));
    assert_eq!(read_variant(&[0x81], 0).err(), Some(DecodeError::Truncated));
    assert_eq!(read_variant(&[0xde, 0x00], 0).err(), Some(DecodeError::Truncated));
    assert_eq!(read_variant(&[], 0).err(), Some(DecodeError::Truncated));
}

#[test]
fn a_text_is_its_characters() {
    for text in ["", "abc", "héllo", "日本語\n\u{1F600}"] {
        let chars: Vec<char> = text.chars().collect();
        assert_eq!(chars_of(text), chars);
        assert_eq!(string_of(&chars, 0, chars.len()), text);
    }
    let chars = chars_of("héllo");
    assert_eq!(string_of(&chars, 1, 3), "él");
    assert_eq!(string_of(&chars, 5, 5), "");
}
