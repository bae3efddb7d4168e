use vstd::prelude::*;

verus! {

/// A chunk that a well-formed container must hold.
#[derive(Debug, Clone, Copy, PartialEq, Eq, Structural)]
pub enum ChunkId {
    Comm,
    Ssnd,
}

/// Every way in which decoding or analysis can fail.
#[derive(Debug, Clone, Copy, PartialEq, Eq, Structural)]
pub enum AiffError {
    /// The buffer does not start with the `FORM` tag, or its declared
    /// size cannot be a container size.
    MalformedContainer,
    /// The form type is not `AIFF`.
    UnsupportedFormat,
    /// An expected chunk is not where it must stand.
    MissingChunk(ChunkId),
    /// The common chunk does not declare its fixed size of 18 bytes.
    UnexpectedChunkSize,
    /// The buffer ends inside a header field.
    UnexpectedEnd,
    /// The sample rate decodes to 0 Hz.
    InvalidSampleRate,
    /// The bit depth is not one of 8, 16, 24 and 32.
    UnsupportedBitDepth,
    /// The channel count is neither 1 nor 2.
    UnsupportedChannelLayout,
    /// The signal is empty or silent, so energies cannot be normalised.
    EmptyOrDegenerateSignal,
    /// Fewer than two peaks were found, so there is no gap to average.
    InsufficientPeaks,
}

} // verus!
