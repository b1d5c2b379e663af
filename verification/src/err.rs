use vstd::prelude::*;

verus! {

/// The error kinds that the protocol logic can report.
///
/// `Io` stands for a truncated input: a read that ran past the end of the
/// bytes at hand. The variants that carry numbers keep the offending value
/// (and, for `StringTooLong`, the limit that was exceeded).
#[derive(Clone, Copy, Debug, PartialEq, Eq, Structural)]
pub enum ProtocolError {
    Io,
    VarIntTooLong,
    InvalidUtf8,
    StringTooLong(i32, i32),
    InvalidEnumValue(i32),
    MissingHandshake,
    MissingRequest,
    InvalidPacketId(i32),
    NoPacket,
}

} // verus!
