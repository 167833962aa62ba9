use vstd::prelude::*;

verus! {

/// Everything that can go wrong while decoding a message from the wire or
/// encoding a response onto it.
///
/// Decode and encode steps return a `Result` with this error; a single
/// failure aborts the whole operation, and no partial message is ever
/// handed back.
#[derive(Copy, Clone, Debug, PartialEq, Eq, Structural)]
pub enum Error {
    /// The buffer ends before a fixed-width field or the 12-byte header.
    TooShort,
    /// Bytes remain after the declared additional-records section.
    TrailingData,
    /// A label length byte or a compression pointer reaches past the end of
    /// the buffer.
    LabelOutOfBounds,
    /// Resolving a name followed more compression pointers than the hop
    /// limit allows.
    CompressionLoop,
    /// A label length byte has the form of neither a literal segment, a
    /// terminator, nor a compression pointer.
    MalformedLabel,
    /// A record declares more payload bytes than remain in the buffer.
    RdataTruncated,
    /// A name segment handed to the builder is longer than 63 bytes.
    SegmentTooLong,
    /// A name handed to the builder does not end in a dot, so its encoding
    /// would lack the root terminator.
    UnterminatedName,
    /// A record handed to the builder carries more than 65535 payload
    /// bytes.
    RdataTooLong,
    /// A section handed to the builder holds more than 65535 entries.
    TooManyRecords,
}

} // verus!
