use vstd::prelude::*;

verus! {

/// Every way a decode session can fail.
#[derive(Clone, Copy, Debug, PartialEq, Eq, Structural)]
pub enum DecodeError {
    /// A read asked for more bytes than the buffer has left.
    OutOfBounds,
    /// A chunk's four-byte type tag is not one the registry knows.
    UnknownChunkType,
    /// A one-byte code (color type, interlace method, rendering intent) is outside its set.
    InvalidEnumeratedValue,
    /// A chunk's declared length does not fit the layout of its fields.
    MalformedLength,
    /// A background chunk came before any header chunk.
    MissingDependency,
    /// Bytes that must hold text are not valid UTF-8.
    TextDecodingError,
}

} // verus!
