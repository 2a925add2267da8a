use python_ext::ext::executor::{native_outcome, reply, Outcome};
use python_ext::ext::sandbox::{guest_setup, sandbox_outcome, GuestExit, GuestRun, GuestSetup};
use python_ext::ext::frame::{Frame, MessageType};
use python_ext::ext::python_types::PythonResponse;

fn guest(exit: GuestExit, stdout: &[u8], stderr: &[u8]) -> GuestRun {
    GuestRun { exit, stdout: stdout.to_vec(), stderr: stderr.to_vec() }
}

#[test]
fn a_result_of_the_interpreter_is_the_payload() {
    let outcome = native_outcome(Ok("Hello, world!".to_string()));
    assert_eq!(outcome, Outcome::Success(b"Hello, world!".to_vec()));
    assert_eq!(outcome.response(), PythonResponse::RunScript);
    assert!(outcome.fits_wire());
    assert_eq!(outcome.payload(), b"Hello, world!".to_vec());
}

#[test]
fn a_result_is_handed_on_in_utf8() {
    let outcome = native_outcome(Ok("héllo 世界".to_string()));
    assert_eq!(outcome.payload(), "héllo 世界".as_bytes().to_vec());
}

#[test]
fn an_error_of_the_interpreter_is_a_failure() {
    let text = "AttributeError: module 'script_7' has no attribute 'greeet'";
    let outcome = native_outcome(Err(text.to_string()));
    assert_eq!(outcome, Outcome::Failure(text.to_string()));
    assert_eq!(outcome.response(), PythonResponse::Failure(text.to_string()));
    assert!(outcome.fits_wire());
    let payload = outcome.payload();
    assert_eq!(PythonResponse::decode(&payload), Ok(PythonResponse::Failure(text.to_string())));
    assert_eq!(payload, PythonResponse::Failure(text.to_string()).encode());
}

#[test]
fn a_clean_guest_gives_its_standard_output() {
    let outcome = sandbox_outcome(Ok(guest(GuestExit::Clean, b"hello", b"warning")));
    assert_eq!(outcome, Outcome::Success(b"hello".to_vec()));
    assert_eq!(outcome.payload(), b"hello".to_vec());
}

#[test]
fn a_failed_guest_gives_its_standard_error() {
    let outcome = sandbox_outcome(Ok(guest(GuestExit::Failed, b"partial", b"ZeroDivisionError")));
    assert_eq!(outcome, Outcome::Success(b"ZeroDivisionError".to_vec()));
    assert_eq!(outcome.response(), PythonResponse::RunScript);
    assert_eq!(outcome.payload(), b"ZeroDivisionError".to_vec());
}

#[test]
fn a_guest_that_could_not_start_is_a_failure() {
    let outcome = sandbox_outcome(Err("bad image".to_string()));
    assert_eq!(outcome, Outcome::Failure("bad image".to_string()));
    assert_eq!(outcome.response(), PythonResponse::Failure("bad image".to_string()));
}

#[test]
fn a_later_run_is_not_touched_by_an_earlier_failure() {
    let failed = sandbox_outcome(Ok(guest(GuestExit::Failed, b"", b"trap")));
    let later = sandbox_outcome(Ok(guest(GuestExit::Clean, b"hello", b"")));
    assert_eq!(failed.payload(), b"trap".to_vec());
    assert_eq!(later.payload(), b"hello".to_vec());
}

#[test]
fn a_reply_carries_the_id_and_the_kind_it_was_asked_under() {
    let frame = reply(42, MessageType::Response, Outcome::Success(b"hello".to_vec()));
    assert_eq!(frame, Frame { id: 42, message_type: MessageType::Response, blob: b"hello".to_vec() });
    assert!(frame.fits_wire());
    assert_eq!(Frame::decode(&frame.encode()), Ok(frame));

    let frame = reply(u64::MAX, MessageType::Request, Outcome::Failure("boom".to_string()));
    assert_eq!(frame.id, u64::MAX);
    assert_eq!(frame.message_type, MessageType::Request);
    assert_eq!(frame.blob, b"\x81\xa3Err\xa4boom".to_vec());
}

#[test]
fn a_guest_gets_the_source_and_nothing_else() {
    assert_eq!(
        guest_setup(b"print('hello')".to_vec()),
        GuestSetup {
            stdin: b"print('hello')".to_vec(),
            stdout: Vec::new(),
            stderr: Vec::new(),
            filesystem: false,
            network: false,
            environment: false,
        }
    );
}
