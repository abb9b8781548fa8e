//! The error taxonomy of the codec: protocol violations and byte-stream
//! exhaustion.

use vstd::prelude::*;

verus! {

/// The precise wire-format violation behind a `Protocol` error.
#[derive(Clone, Copy, Debug, PartialEq, Eq, Structural)]
pub enum ProtocolErrorKind {
    /// A frame did not end with the `0xCE` sentinel octet.
    FrameEndMarker,
    /// The frame-type octet was none of METHOD, HEADERS, BODY, HEARTBEAT.
    UnknownFrameType,
    /// A declared payload size exceeded the maximum frame size.
    FrameTooLarge,
    /// A method-frame operation was applied to a frame of another type.
    NotMethodFrame,
    /// A method was decoded from a frame carrying different class/method ids.
    UnexpectedClassMethodId,
    /// A short string longer than 255 bytes was given to the encoder.
    ShortStrOverflow,
    /// A long string longer than `u32::MAX` bytes was given to the encoder.
    LongStrOverflow,
    /// A field table or array whose encoding exceeds `u32::MAX` bytes.
    TableOverflow,
    /// A field-table entry carried a type tag outside the known set.
    UnknownTableTag,
    /// A field table's entries did not fill its declared length exactly.
    TableLengthMismatch,
    /// A property list declared more properties than the flag word has bits.
    PropertiesFlagsExhausted,
}

/// Everything a codec operation can fail with: a wire-format violation, or
/// running out of bytes mid-field.
#[derive(Clone, Copy, Debug, PartialEq, Eq, Structural)]
pub enum AmqpError {
    /// A violation of the wire format; the connection should be torn down.
    Protocol(ProtocolErrorKind),
    /// The underlying byte stream ended before the field was complete.
    Io,
}

impl AmqpError {
    /// Whether this error is a wire-format violation rather than stream
    /// exhaustion.
    pub fn is_protocol(&self) -> (r: bool)
        ensures
            r == (self is Protocol),
    {
        match self {
            AmqpError::Protocol(_) => true,
            AmqpError::Io => false,
        }
    }
}

} // verus!
