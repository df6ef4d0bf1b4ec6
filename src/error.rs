use vstd::prelude::*;

verus! {

/// Why a buffer could not be decoded or a value could not be encoded.
#[derive(Debug, Clone, Copy, PartialEq, Eq, Structural)]
pub enum CodecError {
    /// Fewer bytes are available than a field or a packet requires.
    BufferTooShort,
    /// A recognised packet's header carries a version other than 2.
    InvalidVersion,
    /// A declared length disagrees with the bytes that hold it, or a value
    /// is too large for the length field that must describe it.
    LengthMismatch,
    /// A count does not fit in the 5-bit count field of the header.
    InvalidCount,
    /// A text field is not valid ASCII, or the padding after text is not zero.
    TextDecodeError,
    /// A packet type code that this codec does not interpret.
    UnknownPacketType,
}

} // verus!
