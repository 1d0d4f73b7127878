pub mod frame;
pub mod inquiry;
pub mod rfc6298;
pub mod sock_suppl;

pub use self::rfc6298::{RFC6298BasedRTO, RetransmissionTimerAlgorithm};
pub use self::sock_suppl::SocketEventType;
