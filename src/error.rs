use vstd::prelude::*;

verus! {

/// The two kinds of failure that a buffer operation can report.
#[derive(Debug, Clone, Copy, PartialEq, Eq, Structural)]
pub enum IOErrorCode {
    /// An access would reach past the limit or the capacity of the buffer.
    BufferOverFlow,
    /// A string payload is not valid UTF-8.
    Utf8Error,
}

/// A recoverable error: its kind and a human-readable message.
#[derive(Debug)]
pub struct IOError {
    err_code: IOErrorCode,
    err_msg: String,
}

pub type IOResult<T> = Result<T, IOError>;

impl IOError {
    /// The kind of this error.
    pub closed spec fn spec_code(&self) -> IOErrorCode {
        self.err_code
    }

    /// The message of this error.
    pub closed spec fn spec_message(&self) -> Seq<char> {
        self.err_msg@
    }

    pub fn new(err_code: IOErrorCode, err_msg: &str) -> (r: Self)
        ensures
            r.spec_code() == err_code,
            r.spec_message() == err_msg@,
    {
        IOError { err_code, err_msg: err_msg.to_owned() }
    }

    pub fn create_buffer_overflow_err() -> (r: Self)
        ensures
            r.spec_code() == IOErrorCode::BufferOverFlow,
    {
        Self::new(IOErrorCode::BufferOverFlow, "buffer overflow")
    }

    pub fn create_utf8_err() -> (r: Self)
        ensures
            r.spec_code() == IOErrorCode::Utf8Error,
    {
        Self::new(IOErrorCode::Utf8Error, "invalid utf-8: corrupt contents")
    }

    pub fn code(&self) -> (r: IOErrorCode)
        ensures
            r == self.spec_code(),
    {
        self.err_code
    }

    pub fn message(&self) -> (r: &str)
        ensures
            r@ == self.spec_message(),
    {
        self.err_msg.as_str()
    }
}

} // verus!
