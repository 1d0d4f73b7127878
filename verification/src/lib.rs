//! Building blocks of a datagram request/response transport: an in-memory
//! byte stream, an RFC 6298 retransmission-timeout estimator, the wire
//! framing of requests and responses, socket-event bookkeeping and a
//! timer-task scheduler.

pub mod cron;
pub mod io;
pub mod net;
