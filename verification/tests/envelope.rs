use std::collections::BTreeMap;

use python_ext::ext::msgpack::DecodeError;
use python_ext::ext::python_types::{PythonRequest, PythonResponse};
use serde::ser::{Serialize, SerializeStructVariant, Serializer};

/// The request as a derived serde impl writes it: a struct variant with
/// five fields.
struct RequestMirror {
    package_id: String,
    requirements: String,
    script: String,
    func: String,
    args: Vec<String>,
}

impl Serialize for RequestMirror {
    fn serialize<S: Serializer>(&self, serializer: S) -> Result<S::Ok, S::Error> {
        let mut state = serializer.serialize_struct_variant("PythonRequest", 0, "RunScript", 5)?;
        state.serialize_field("package_id", &self.package_id)?;
        state.serialize_field("requirements", &self.requirements)?;
        state.serialize_field("script", &self.script)?;
        state.serialize_field("func", &self.func)?;
        state.serialize_field("args", &self.args)?;
        state.end()
    }
}

/// The response as a derived serde impl writes it: a unit variant, or a
/// newtype variant named `Err`.
enum ResponseMirror {
    RunScript,
    Failed(String),
}

impl Serialize for ResponseMirror {
    fn serialize<S: Serializer>(&self, serializer: S) -> Result<S::Ok, S::Error> {
        match self {
            ResponseMirror::RunScript => {
                serializer.serialize_unit_variant("PythonResponse", 0, "RunScript")
            }
            ResponseMirror::Failed(message) => {
                serializer.serialize_newtype_variant("PythonResponse", 1, "Err", message)
            }
        }
    }
}

fn request(package_id: &str, requirements: &str, script: &str, func: &str, args: &[&str]) -> PythonRequest {
    PythonRequest::RunScript {
        package_id: package_id.to_string(),
        requirements: requirements.to_string(),
        script: script.to_string(),
        func: func.to_string(),
        args: args.iter().map(|arg| arg.to_string()).collect(),
    }
}

fn mirror(request: &PythonRequest) -> RequestMirror {
    match request {
        PythonRequest::RunScript { package_id, requirements, script, func, args } => RequestMirror {
            package_id: package_id.clone(),
            requirements: requirements.clone(),
            script: script.clone(),
            func: func.clone(),
            args: args.clone(),
        },
    }
}

fn greet_request() -> PythonRequest {
    request("greeter:holium.os", "requirements.txt", "greet.py", "greet", &["world"])
}

fn samples() -> Vec<PythonRequest> {
    let long = "x".repeat(300);
    let longer = "y".repeat(70_000);
    let many: Vec<String> = (0..20).map(|i| format!("arg{}", i)).collect();
    let many_refs: Vec<&str> = many.iter().map(|arg| arg.as_str()).collect();
    vec![
        greet_request(),
        request("", "", "", "", &[]),
        request("p", "r", "s", "f", &["", "a", ""]),
        request("päckchen", "требования.txt", "脚本.py", "f\u{1F600}", &["\u{0}", "\n", "é"]),
        request(&"a".repeat(31), &"b".repeat(32), &"c".repeat(255), &"d".repeat(256), &[&long]),
        request("p", "r", "s", "f", &[&longer, &long]),
        request("p", "r", "s", "f", &many_refs),
    ]
}

#[test]
fn success_response_is_its_name() {
    let bytes = PythonResponse::RunScript.encode();
    assert_eq!(bytes, b"\xa9RunScript".to_vec());
}

#[test]
fn failure_response_is_a_map_of_one_entry() {
    let bytes = PythonResponse::Failure("boom".to_string()).encode();
    assert_eq!(bytes, b"\x81\xa3Err\xa4boom".to_vec());
}

#[test]
fn request_bytes_are_exact() {
    let mut expected: Vec<u8> = vec![0x81, 0xa9];
    expected.extend_from_slice(b"RunScript");
    expected.push(0x95);
    expected.push(0xb1);
    expected.extend_from_slice(b"greeter:holium.os");
    expected.push(0xb0);
    expected.extend_from_slice(b"requirements.txt");
    expected.push(0xa8);
    expected.extend_from_slice(b"greet.py");
    expected.push(0xa5);
    expected.extend_from_slice(b"greet");
    expected.push(0x91);
    expected.push(0xa5);
    expected.extend_from_slice(b"world");
    assert_eq!(greet_request().encode(), expected);
}

#[test]
fn requests_round_trip() {
    for request in samples() {
        assert!(request.fits_wire());
        let bytes = request.encode();
        assert_eq!(PythonRequest::decode(&bytes), Ok(request));
    }
}

#[test]
fn responses_round_trip() {
    let responses = vec![
        PythonResponse::RunScript,
        PythonResponse::Failure(String::new()),
        PythonResponse::Failure("NameError: name 'greet' is not defined".to_string()),
        PythonResponse::Failure("é".repeat(40_000)),
    ];
    for response in responses {
        assert!(response.fits_wire());
        let bytes = response.encode();
        assert_eq!(PythonResponse::decode(&bytes), Ok(response));
    }
}

#[test]
fn requests_are_written_as_rmp_serde_writes_them() {
    for request in samples() {
        let theirs = rmp_serde::to_vec(&mirror(&request)).unwrap();
        assert_eq!(request.encode(), theirs);
        assert_eq!(PythonRequest::decode(&theirs), Ok(request));
    }
}

#[test]
fn responses_are_written_as_rmp_serde_writes_them() {
    let success = rmp_serde::to_vec(&ResponseMirror::RunScript).unwrap();
    assert_eq!(PythonResponse::RunScript.encode(), success);
    assert_eq!(PythonResponse::decode(&success), Ok(PythonResponse::RunScript));

    let text = "Traceback (most recent call last): ...".to_string();
    let failure = rmp_serde::to_vec(&ResponseMirror::Failed(text.clone())).unwrap();
    assert_eq!(PythonResponse::Failure(text.clone()).encode(), failure);
    assert_eq!(PythonResponse::decode(&failure), Ok(PythonResponse::Failure(text)));
}

#[test]
fn rmp_serde_reads_what_was_written() {
    let bytes = greet_request().encode();
    let read: BTreeMap<String, (String, String, String, String, Vec<String>)> =
        rmp_serde::from_slice(&bytes).unwrap();
    let fields = read.get("RunScript").unwrap();
    assert_eq!(read.len(), 1);
    assert_eq!(fields.0, "greeter:holium.os");
    assert_eq!(fields.1, "requirements.txt");
    assert_eq!(fields.2, "greet.py");
    assert_eq!(fields.3, "greet");
    assert_eq!(fields.4, vec!["world".to_string()]);

    let name: String = rmp_serde::from_slice(&PythonResponse::RunScript.encode()).unwrap();
    assert_eq!(name, "RunScript");

    let failure = PythonResponse::Failure("boom".to_string()).encode();
    let read: BTreeMap<String, String> = rmp_serde::from_slice(&failure).unwrap();
    assert_eq!(read.get("Err"), Some(&"boom".to_string()));
}

#[test]
fn every_truncation_of_a_request_is_rejected() {
    for request in samples().into_iter().take(5) {
        let bytes = request.encode();
        for kept in 0..bytes.len() {
            assert_eq!(PythonRequest::decode(&bytes[..kept]), Err(DecodeError::Truncated));
        }
    }
}

#[test]
fn every_truncation_of_a_response_is_rejected() {
    for response in [PythonResponse::RunScript, PythonResponse::Failure("no such function".to_string())] {
        let bytes = response.encode();
        for kept in 0..bytes.len() {
            assert_eq!(PythonResponse::decode(&bytes[..kept]), Err(DecodeError::Truncated));
        }
    }
}

#[test]
fn what_follows_a_value_is_left_unread() {
    let mut bytes = greet_request().encode();
    bytes.extend_from_slice(&[0xc1, 0xff, 0x00]);
    assert_eq!(PythonRequest::decode(&bytes), Ok(greet_request()));

    let mut bytes = PythonResponse::RunScript.encode();
    bytes.push(0xc1);
    assert_eq!(PythonResponse::decode(&bytes), Ok(PythonResponse::RunScript));
}

#[test]
fn a_corrupted_tag_is_rejected() {
    let mut bytes = greet_request().encode();
    assert_eq!(bytes[2], b'R');
    bytes[2] = b'r';
    assert_eq!(PythonRequest::decode(&bytes), Err(DecodeError::UnknownVariant));

    let mut bytes = PythonResponse::Failure("boom".to_string()).encode();
    bytes[4] = b'R';
    assert_eq!(PythonResponse::decode(&bytes), Err(DecodeError::UnknownVariant));

    assert_eq!(PythonResponse::decode(b"\xa3Run"), Err(DecodeError::UnknownVariant));
    assert_eq!(PythonRequest::decode(b"\xa3Run"), Err(DecodeError::UnknownVariant));
}

#[test]
fn a_variant_in_the_wrong_form_is_a_type_mismatch() {
    // A request needs its fields, a failure its diagnostic.
    assert_eq!(PythonRequest::decode(b"\xa9RunScript"), Err(DecodeError::TypeMismatch));
    assert_eq!(PythonResponse::decode(b"\xa3Err"), Err(DecodeError::TypeMismatch));
    // Neither a name nor a map.
    assert_eq!(PythonRequest::decode(&[0x00]), Err(DecodeError::TypeMismatch));
    assert_eq!(PythonResponse::decode(&[0xc0]), Err(DecodeError::TypeMismatch));
    // The fields are not an array.
    assert_eq!(PythonRequest::decode(b"\x81\xa9RunScript\xa1x"), Err(DecodeError::TypeMismatch));
    // A field is not a string.
    assert_eq!(PythonRequest::decode(b"\x81\xa9RunScript\x95\x01"), Err(DecodeError::TypeMismatch));
    // The diagnostic is not a string.
    assert_eq!(PythonResponse::decode(b"\x81\xa3Err\x01"), Err(DecodeError::TypeMismatch));
    // A success written as a key has nil as its value.
    assert_eq!(PythonResponse::decode(b"\x81\xa9RunScript\x01"), Err(DecodeError::TypeMismatch));
}

#[test]
fn a_success_written_as_a_key_is_accepted() {
    assert_eq!(PythonResponse::decode(b"\x81\xa9RunScript\xc0"), Ok(PythonResponse::RunScript));
    assert_eq!(PythonResponse::decode(b"\x81\xa9RunScript"), Err(DecodeError::Truncated));
}

#[test]
fn a_wrong_number_of_entries_is_a_length_mismatch() {
    assert_eq!(PythonRequest::decode(b"\x82\xa9RunScript"), Err(DecodeError::LengthMismatch));
    assert_eq!(PythonRequest::decode(b"\x80"), Err(DecodeError::LengthMismatch));
    assert_eq!(PythonRequest::decode(b"\x81\xa9RunScript\x94"), Err(DecodeError::LengthMismatch));
    assert_eq!(PythonRequest::decode(b"\x81\xa9RunScript\x96"), Err(DecodeError::LengthMismatch));
    assert_eq!(PythonResponse::decode(b"\x82\xa3Err\xa1x"), Err(DecodeError::LengthMismatch));
}

#[test]
fn a_string_that_is_not_utf8_is_rejected() {
    assert_eq!(PythonResponse::decode(b"\x81\xa3Err\xa2\xc3\x28"), Err(DecodeError::InvalidUtf8));
    assert_eq!(PythonResponse::decode(b"\x81\xa3Err\xa1\xff"), Err(DecodeError::InvalidUtf8));
    assert_eq!(
        PythonRequest::decode(b"\x81\xa9RunScript\x95\xa1\x80"),
        Err(DecodeError::InvalidUtf8)
    );
    // A well-formed two-byte character is read as one character.
    assert_eq!(
        PythonResponse::decode(b"\x81\xa3Err\xa2\xc3\xa9"),
        Ok(PythonResponse::Failure("é".to_string()))
    );
}

#[test]
fn every_width_of_a_length_is_read() {
    let expected = Ok(PythonResponse::Failure("boom".to_string()));
    assert_eq!(PythonResponse::decode(b"\x81\xa3Err\xd9\x04boom"), expected);
    assert_eq!(PythonResponse::decode(b"\x81\xa3Err\xda\x00\x04boom"), expected);
    assert_eq!(PythonResponse::decode(b"\x81\xa3Err\xdb\x00\x00\x00\x04boom"), expected);
    assert_eq!(PythonResponse::decode(b"\xde\x00\x01\xa3Err\xa4boom"), expected);
    assert_eq!(PythonResponse::decode(b"\xdf\x00\x00\x00\x01\xd9\x03Err\xa4boom"), expected);

    let mut bytes: Vec<u8> = b"\x81\xa9RunScript\xdc\x00\x05\xa1p\xa1r\xa1s\xa1f".to_vec();
    bytes.extend_from_slice(b"\xdd\x00\x00\x00\x02\xa1a\xd9\x01b");
    assert_eq!(PythonRequest::decode(&bytes), Ok(request("p", "r", "s", "f", &["a", "b"])));
}

#[test]
fn an_array_that_claims_more_than_it_holds_is_truncated() {
    let bytes: Vec<u8> = b"\x81\xa9RunScript\x95\xa1p\xa1r\xa1s\xa1f\xdd\xff\xff\xff\xff\xa1a".to_vec();
    assert_eq!(PythonRequest::decode(&bytes), Err(DecodeError::Truncated));
    assert_eq!(PythonResponse::decode(b"\x81\xa3Err\xdb\xff\xff\xff\xffboom"), Err(DecodeError::Truncated));
}
