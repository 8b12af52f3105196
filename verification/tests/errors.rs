use std::io;
use webrtc_sctp::error::{SctpError, SctpResult};

#[test]
fn descriptions_of_the_fixed_kinds() {
    assert_eq!(SctpError::ReadUnderrun.to_string(), "read underrun");
    assert_eq!(SctpError::InvalidPacket.to_string(), "invalid packet");
    assert_eq!(SctpError::BadChecksum.to_string(), "bad checksum");
    assert_eq!(SctpError::BadState.to_string(), "bad state");
    assert_eq!(
        SctpError::ExpectedBeginningFragment.to_string(),
        "expected beginning fragment"
    );
    assert_eq!(
        SctpError::UnexpectedBeginningFragment.to_string(),
        "unexpected beginning fragment"
    );
    assert_eq!(SctpError::UnexpectedSSN.to_string(), "unexpected ssn");
    assert_eq!(SctpError::SendQueueFull.to_string(), "send queue full");
    assert_eq!(SctpError::CommandQueueFull.to_string(), "command queue full");
    assert_eq!(SctpError::Closed.to_string(), "resource is closed");
    assert_eq!(SctpError::Timeout.to_string(), "timeout");
}

#[test]
fn description_of_an_io_error_carries_its_text() {
    let e = SctpError::Io(io::Error::new(io::ErrorKind::Other, "boom"));
    assert_eq!(e.to_string(), "IO error: boom");
}

#[test]
fn only_io_errors_have_a_source() {
    let e = SctpError::Io(io::Error::new(io::ErrorKind::BrokenPipe, "pipe"));
    let source = e.source().expect("an I/O error has a source");
    assert_eq!(source.kind(), io::ErrorKind::BrokenPipe);
    assert!(SctpError::InvalidPacket.source().is_none());
    assert!(SctpError::Closed.source().is_none());
    assert!(SctpError::Timeout.source().is_none());
}

#[test]
fn io_errors_convert_into_the_io_kind() {
    let e = SctpError::from(io::Error::new(io::ErrorKind::NotFound, "gone"));
    match e {
        SctpError::Io(inner) => assert_eq!(inner.kind(), io::ErrorKind::NotFound),
        other => panic!("unexpected kind: {:?}", other),
    }
}

#[test]
fn question_mark_converts_io_errors() {
    fn fails() -> SctpResult<u8> {
        let r: Result<u8, io::Error> = Err(io::Error::new(io::ErrorKind::Other, "x"));
        Ok(r?)
    }
    assert!(matches!(fails(), Err(SctpError::Io(_))));
}

#[test]
fn back_pressure_and_timeout_are_retryable() {
    assert!(SctpError::SendQueueFull.is_retryable());
    assert!(SctpError::CommandQueueFull.is_retryable());
    assert!(SctpError::Timeout.is_retryable());
    assert!(!SctpError::Closed.is_retryable());
    assert!(!SctpError::InvalidPacket.is_retryable());
    assert!(!SctpError::BadChecksum.is_retryable());
    assert!(!SctpError::BadState.is_retryable());
    assert!(!SctpError::UnexpectedSSN.is_retryable());
    assert!(!SctpError::Io(io::Error::new(io::ErrorKind::Other, "x")).is_retryable());
}
