use vstd::prelude::*;

use crate::error::CaptureError;

verus! {

/// Cursor state and shape bookkeeping reported with each successfully
/// acquired frame. Produced fresh on every acquire and read-only afterwards.
#[derive(Clone, Copy, Debug, PartialEq, Eq, Structural)]
pub struct FrameMetadata {
    /// Screen-space cursor position; may be negative when the cursor shape
    /// hangs off the top or left edge.
    pub cursor_x: i32,
    pub cursor_y: i32,
    /// Whether the cursor must be composited onto the raster at all.
    pub cursor_visible: bool,
    /// Size in bytes of the pointer-shape payload waiting to be fetched;
    /// zero when the shape did not change since the previous frame.
    pub shape_buffer_size: u32,
    /// How many compositor updates the driver folded into this frame.
    pub accumulated_frames: u32,
}

/// Outcome of one attempt of the duplication driver to deliver a frame,
/// as the platform layer reports it to the session.
#[derive(Clone, Copy, Debug, PartialEq, Eq, Structural)]
pub enum AcquireEvent {
    /// The compositor delivered an updated frame with its metadata.
    FrameReady(FrameMetadata),
    /// No update arrived within the configured timeout.
    TimedOut,
    /// The duplication session became invalid (mode change, session stolen).
    SessionInvalid,
    /// Any other driver failure.
    DriverFailure,
}

/// The acquire/release lifecycle of one output-duplication stream.
///
/// At most one frame may be outstanding per session: `acquire` on a session
/// that already holds a frame fails with `ProtocolViolation` and changes
/// nothing, and `release` without an outstanding frame does the same. The
/// session itself enforces the rule; it is not left to caller discipline.
pub struct DuplicationSession {
    /// The bound, in milliseconds, that one acquire may block for.
    pub timeout_ms: u32,
    /// Whether a frame is currently acquired and not yet released.
    pub frame_outstanding: bool,
}

impl DuplicationSession {
    /// Opens the bookkeeping for a fresh duplication stream: no frame is
    /// outstanding yet.
    pub fn new(timeout_ms: u32) -> (s: Self)
        ensures
            s.timeout_ms == timeout_ms,
            !s.frame_outstanding,
    {
        DuplicationSession { timeout_ms, frame_outstanding: false }
    }

    /// Records one acquire attempt. A second acquire before `release` is a
    /// protocol violation and leaves the session untouched; otherwise the
    /// driver's outcome decides: a ready frame hands its metadata out and
    /// marks the frame outstanding, while a timeout, an invalidated session
    /// or any other driver failure surfaces as the matching error with the
    /// session still idle.
    pub fn acquire(&mut self, event: AcquireEvent) -> (r: Result<FrameMetadata, CaptureError>)
        ensures
            final(self).timeout_ms == old(self).timeout_ms,
            old(self).frame_outstanding ==> {
                &&& r == Err::<FrameMetadata, CaptureError>(CaptureError::ProtocolViolation)
                &&& final(self).frame_outstanding
            },
            !old(self).frame_outstanding ==> (match event {
                AcquireEvent::FrameReady(m) => {
                    &&& r == Ok::<FrameMetadata, CaptureError>(m)
                    &&& final(self).frame_outstanding
                },
                AcquireEvent::TimedOut => {
                    &&& r == Err::<FrameMetadata, CaptureError>(CaptureError::Timeout)
                    &&& !final(self).frame_outstanding
                },
                AcquireEvent::SessionInvalid => {
                    &&& r == Err::<FrameMetadata, CaptureError>(CaptureError::SessionLost)
                    &&& !final(self).frame_outstanding
                },
                AcquireEvent::DriverFailure => {
                    &&& r == Err::<FrameMetadata, CaptureError>(CaptureError::Unavailable)
                    &&& !final(self).frame_outstanding
                },
            }),
    {
        if self.frame_outstanding {
            return Err(CaptureError::ProtocolViolation);
        }
        match event {
            AcquireEvent::FrameReady(m) => {
                self.frame_outstanding = true;
                Ok(m)
            },
            AcquireEvent::TimedOut => Err(CaptureError::Timeout),
            AcquireEvent::SessionInvalid => Err(CaptureError::SessionLost),
            AcquireEvent::DriverFailure => Err(CaptureError::Unavailable),
        }
    }

    /// Releases the outstanding frame, exactly once per successful acquire.
    /// A release with no frame outstanding is a protocol violation.
    pub fn release(&mut self) -> (r: Result<(), CaptureError>)
        ensures
            final(self).timeout_ms == old(self).timeout_ms,
            !final(self).frame_outstanding,
            old(self).frame_outstanding ==> r == Ok::<(), CaptureError>(()),
            !old(self).frame_outstanding ==> r == Err::<(), CaptureError>(
                CaptureError::ProtocolViolation,
            ),
    {
        if self.frame_outstanding {
            self.frame_outstanding = false;
            Ok(())
        } else {
            Err(CaptureError::ProtocolViolation)
        }
    }
}

/// Whether the metadata of a freshly acquired frame announces a changed
/// pointer shape that must be fetched before compositing.
pub fn needs_shape_fetch(meta: &FrameMetadata) -> (b: bool)
    ensures
        b == (meta.shape_buffer_size > 0),
{
    meta.shape_buffer_size > 0
}

/// Checks a shape buffer against the size the driver asks for before the
/// fetch is attempted: too small a buffer fails with `BufferTooSmall`
/// carrying the required size, so one retry after growing suffices.
pub fn validate_shape_buffer(buffer_len: usize, required: u32) -> (r: Result<(), CaptureError>)
    ensures
        buffer_len >= required ==> r == Ok::<(), CaptureError>(()),
        buffer_len < required ==> (r == Err::<(), CaptureError>(
            CaptureError::BufferTooSmall { required },
        )),
{
    if buffer_len >= required as usize {
        Ok(())
    } else {
        Err(CaptureError::BufferTooSmall { required })
    }
}

/// Grows a shape buffer to the size the driver reported, keeping what it
/// already holds and zero-filling the tail; a buffer that is already large
/// enough is left as it is.
pub fn prepare_shape_buffer(buffer: &mut Vec<u8>, required: u32)
    ensures
        final(buffer)@.len() >= required,
        old(buffer)@.len() >= required ==> final(buffer)@ == old(buffer)@,
        old(buffer)@.len() < required ==> {
            &&& final(buffer)@.len() == required
            &&& forall|i: int| 0 <= i < old(buffer)@.len() ==> final(buffer)@[i] == old(buffer)@[i]
            &&& forall|i: int|
                old(buffer)@.len() <= i < required ==> final(buffer)@[i] == 0u8
        },
{
    while buffer.len() < required as usize
        invariant
            old(buffer)@.len() < required ==> {
                &&& old(buffer)@.len() <= buffer@.len() <= required
                &&& forall|i: int| 0 <= i < old(buffer)@.len() ==> buffer@[i] == old(buffer)@[i]
                &&& forall|i: int| old(buffer)@.len() <= i < buffer@.len() ==> buffer@[i] == 0u8
            },
            old(buffer)@.len() >= required ==> buffer@ == old(buffer)@,
        decreases required - buffer@.len(),
    {
        let ghost pre = buffer@;
        buffer.push(0u8);
        proof {
            assert(buffer@ == pre.push(0u8));
            assert(forall|i: int| 0 <= i < pre.len() ==> buffer@[i] == pre[i]);
        }
    }
}

} // verus!
