//! The failure reasons produced anywhere in the codec.
use vstd::prelude::*;

verus! {

/// Why generating or parsing a frame failed.
#[derive(Clone, Copy, Debug, PartialEq, Eq, Structural)]
pub enum ErrorKind {
    /// The output container or an operation's size limit is exhausted.
    OOB,
    /// The frame is too short, malformed, or does not match the request.
    FrameBroken,
    /// The CRC or LRC of the frame does not match its contents.
    FrameCRCError,
    /// The text payload is not valid UTF-8.
    Utf8Error,
    /// The device answered with an error frame carrying this fault code.
    DeviceFault(u8),
}

impl ErrorKind {
    /// Maps the fault code of a device error frame into the taxonomy.
    pub fn from_modbus_error(code: u8) -> (r: ErrorKind)
        ensures
            r == ErrorKind::DeviceFault(code),
    {
        ErrorKind::DeviceFault(code)
    }
}

} // verus!
