use inquirynet::net::sock_suppl::{is_would_block_errno, nonblocking_flag, poll_outcome, PollError, EWOULDBLOCK};
use inquirynet::net::SocketEventType;

#[test]
fn event_bits_match_poll() {
    assert_eq!(SocketEventType::Read.bits(), 0x01);
    assert_eq!(SocketEventType::Write.bits(), 0x04);
    assert_eq!(SocketEventType::Error.bits(), 0x08);
    assert_eq!(SocketEventType::HangUp.bits(), 0x10);
    assert_eq!(SocketEventType::Priority.bits(), 0x02);
}

#[test]
fn event_bits_read_back() {
    for e in [
        SocketEventType::Read,
        SocketEventType::Write,
        SocketEventType::Error,
        SocketEventType::HangUp,
        SocketEventType::Priority,
    ] {
        assert_eq!(SocketEventType::from_bits(e.bits()), Some(e));
    }
    assert_eq!(SocketEventType::from_bits(0), None);
    assert_eq!(SocketEventType::from_bits(0x05), None);
}

#[test]
fn poll_results() {
    assert_eq!(poll_outcome(0, 0), Err(PollError::TimedOut));
    assert_eq!(poll_outcome(1, 0x04), Ok(SocketEventType::Write));
    assert_eq!(poll_outcome(1, 0x05), Err(PollError::UnknownEvents(0x05)));
    assert_eq!(poll_outcome(-1, 0x01), Err(PollError::Os));
}

#[test]
fn would_block_and_blocking_flag() {
    assert!(is_would_block_errno(Some(EWOULDBLOCK)));
    assert!(is_would_block_errno(Some(11)));
    assert!(!is_would_block_errno(Some(4)));
    assert!(!is_would_block_errno(None));
    assert_eq!(nonblocking_flag(true), 0);
    assert_eq!(nonblocking_flag(false), 1);
}
