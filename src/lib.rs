//! A fixed-capacity byte buffer with a cursor and a limit, for reading and
//! writing fixed-width integers, varints, length-prefixed strings and raw
//! bytes, at the cursor or at an absolute offset.
pub mod buf;
pub mod codec;
pub mod error;
pub mod laws;

pub use buf::{ByteBuffer, Storage};
pub use codec::varint_len;
pub use error::{IOError, IOErrorCode, IOResult};
