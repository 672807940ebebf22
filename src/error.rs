//! Errors of a stream session.
use vstd::prelude::*;

verus! {

/// Why a session stopped. Every one of these is final for its session.
#[derive(Debug, Clone, Copy, PartialEq, Eq, Structural)]
pub enum StreamError {
    /// The key is not exactly `KEY_LEN` bytes.
    KeyFormatError,
    /// The chunk size is zero or larger than `MAX_CHUNK_SIZE`.
    InvalidChunkSize,
    /// The stream needs more chunks than the 32-bit counter can number.
    CounterExhausted,
    /// A chunk's tag does not verify: tampering, or the wrong key.
    AuthenticationFailed,
    /// The ciphertext ends before its last chunk, or in the middle of one.
    UnexpectedEndOfStream,
    /// The session has already finished or failed.
    SessionClosed,
    /// The operating system's random source failed.
    RandomSourceFailed,
}

} // verus!
