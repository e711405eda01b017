use vstd::prelude::*;

verus! {

/// What is wrong with a cache artifact whose integrity check could not even start
/// or whose header is not this format's.
#[derive(Clone, Copy, Debug, PartialEq, Eq, Structural)]
pub enum AcsvDefect {
    /// Fewer bytes than a header and a checksum take; the length found.
    TooSmall(usize),
    /// The first four bytes are not the format's tag.
    BadMagic,
}

/// The failures that the library reports.
#[derive(Clone, Copy, Debug, PartialEq, Eq, Structural)]
pub enum AppError {
    /// A cache artifact that is not in this format.
    InvalidAcsv(AcsvDefect),
    /// The frames could not be serialised.
    CacheWrite,
    /// The payload of an intact artifact is not a frame sequence.
    CacheRead,
    /// The stored checksum does not match the artifact's contents.
    AcsvIntegrity,
    /// The artifact was written by another version of the format; the version found.
    UnsupportedAcsvVersion(u8),
    /// The compressor failed.
    Compression,
    /// The artifact is not a compressed stream.
    Decompression,
    /// There are no frames to play, or a batch of frames failed.
    FrameProcessing,
    /// The user or a signal asked to stop.
    Interrupted,
}

} // verus!
