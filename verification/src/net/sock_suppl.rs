use vstd::prelude::*;

verus! {

/// The socket states that a poll looks for and reports.
#[derive(Debug, Clone, Copy, PartialEq, Eq, Structural)]
pub enum SocketEventType {
    /// Data can be read (POLLIN).
    Read,
    /// Data can be written (POLLOUT).
    Write,
    /// An error is pending (POLLERR).
    Error,
    /// The peer hung up (POLLHUP).
    HangUp,
    /// Urgent data can be read (POLLPRI).
    Priority,
}

/// The poll(2) event bit of each state.
pub open spec fn event_bits(e: SocketEventType) -> i16 {
    match e {
        SocketEventType::Read => 0x01,
        SocketEventType::Write => 0x04,
        SocketEventType::Error => 0x08,
        SocketEventType::HangUp => 0x10,
        SocketEventType::Priority => 0x02,
    }
}

/// Why a poll did not report a socket state.
#[derive(Debug, Clone, Copy, PartialEq, Eq, Structural)]
pub enum PollError {
    /// The timeout passed with no event.
    TimedOut,
    /// poll(2) failed; the reason is in `errno`.
    Os,
    /// The socket reported events that are not exactly one known state.
    UnknownEvents(i16),
}

/// The errno of a call that would have blocked on a non-blocking socket
/// (EAGAIN, equal to EWOULDBLOCK on Linux).
pub const EWOULDBLOCK: i32 = 11;

/// The FIONBIO request of ioctl(2), which switches a socket between blocking
/// and non-blocking mode.
pub const FIONBIO: i32 = 0x5421;

impl SocketEventType {
    /// The poll(2) event bit of this state.
    pub fn bits(&self) -> (b: i16)
        ensures
            b == event_bits(*self),
    {
        match self {
            SocketEventType::Read => 0x01,
            SocketEventType::Write => 0x04,
            SocketEventType::Error => 0x08,
            SocketEventType::HangUp => 0x10,
            SocketEventType::Priority => 0x02,
        }
    }

    /// The state whose event bit is exactly `bits`, if there is one.
    pub fn from_bits(bits: i16) -> (e: Option<SocketEventType>)
        ensures
            match e {
                Some(s) => event_bits(s) == bits,
                None => forall|s: SocketEventType| event_bits(s) != bits,
            },
    {
        if bits == 0x01 {
            Some(SocketEventType::Read)
        } else if bits == 0x04 {
            Some(SocketEventType::Write)
        } else if bits == 0x08 {
            Some(SocketEventType::Error)
        } else if bits == 0x10 {
            Some(SocketEventType::HangUp)
        } else if bits == 0x02 {
            Some(SocketEventType::Priority)
        } else {
            None
        }
    }
}

/// What a poll(2) call on one socket means, from its return value `ret` and
/// the events `revents` it reported: 0 is a timeout, 1 reports the state in
/// `revents`, anything else is a failure.
pub fn poll_outcome(ret: i32, revents: i16) -> (r: Result<SocketEventType, PollError>)
    ensures
        ret == 0 ==> r == Err::<SocketEventType, PollError>(PollError::TimedOut),
        ret == 1 ==> match r {
            Ok(e) => event_bits(e) == revents,
            Err(err) => err == PollError::UnknownEvents(revents) && forall|s: SocketEventType|
                event_bits(s) != revents,
        },
        ret != 0 && ret != 1 ==> r == Err::<SocketEventType, PollError>(PollError::Os),
{
    if ret == 0 {
        Err(PollError::TimedOut)
    } else if ret == 1 {
        match SocketEventType::from_bits(revents) {
            Some(e) => Ok(e),
            None => Err(PollError::UnknownEvents(revents)),
        }
    } else {
        Err(PollError::Os)
    }
}

/// Whether a failed send or receive only reports that a non-blocking socket
/// had no data or no room (errno EAGAIN/EWOULDBLOCK).
pub fn is_would_block_errno(errno: Option<i32>) -> (b: bool)
    ensures
        b == (errno == Some(EWOULDBLOCK)),
{
    match errno {
        Some(e) => e == EWOULDBLOCK,
        None => false,
    }
}

/// The FIONBIO argument that puts a socket in blocking (0) or non-blocking
/// (1) mode.
pub fn nonblocking_flag(blocking: bool) -> (v: i32)
    ensures
        v == if blocking { 0i32 } else { 1i32 },
{
    if blocking {
        0
    } else {
        1
    }
}

/// Each state has its own event bit, and reading a state's bit back gives
/// the state.
pub proof fn lemma_event_bits_roundtrip(a: SocketEventType, b: SocketEventType)
    ensures
        event_bits(a) == event_bits(b) <==> a == b,
{
}

} // verus!
