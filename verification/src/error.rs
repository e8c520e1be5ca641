use vstd::prelude::*;

verus! {

/// Failure taxonomy of the capture pipeline.
///
/// `Timeout` is expected and retryable; `SessionLost` and `DeviceLost` are
/// fatal to the current session and ask the caller for a full rebuild;
/// `BufferTooSmall` reports the required shape-buffer size so a single retry
/// suffices; `MapFailed` is transient; `ProtocolViolation` marks a caller
/// breaking the one-outstanding-frame rule; `Unavailable` covers any other
/// driver failure.
#[derive(Clone, Copy, Debug, PartialEq, Eq, Structural)]
pub enum CaptureError {
    Timeout,
    SessionLost,
    DeviceLost,
    BufferTooSmall { required: u32 },
    MapFailed,
    ProtocolViolation,
    Unavailable,
}

} // verus!
