pub mod memory_stream;

pub use self::memory_stream::{MemoryStream, SeekFrom, StreamError};
