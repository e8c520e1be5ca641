use dxgi_capture::error::CaptureError;
use dxgi_capture::session::AcquireEvent;
use dxgi_capture::session::DuplicationSession;
use dxgi_capture::session::FrameMetadata;
use dxgi_capture::session::needs_shape_fetch;
use dxgi_capture::session::prepare_shape_buffer;
use dxgi_capture::session::validate_shape_buffer;

fn ready_meta() -> FrameMetadata {
    FrameMetadata {
        cursor_x: 10,
        cursor_y: 20,
        cursor_visible: true,
        shape_buffer_size: 128,
        accumulated_frames: 1,
    }
}

#[test]
fn second_acquire_before_release_is_protocol_violation() {
    let mut s = DuplicationSession::new(1000);
    let first = s.acquire(AcquireEvent::FrameReady(ready_meta()));
    assert_eq!(first, Ok(ready_meta()));
    let second = s.acquire(AcquireEvent::FrameReady(ready_meta()));
    assert_eq!(second, Err(CaptureError::ProtocolViolation));
    assert_eq!(s.release(), Ok(()));
    let third = s.acquire(AcquireEvent::FrameReady(ready_meta()));
    assert_eq!(third, Ok(ready_meta()));
}

#[test]
fn release_without_outstanding_frame_is_protocol_violation() {
    let mut s = DuplicationSession::new(1000);
    assert_eq!(s.release(), Err(CaptureError::ProtocolViolation));
}

#[test]
fn acquire_outcomes_map_to_error_taxonomy() {
    let mut s = DuplicationSession::new(16);
    assert_eq!(s.acquire(AcquireEvent::TimedOut), Err(CaptureError::Timeout));
    assert_eq!(s.acquire(AcquireEvent::SessionInvalid), Err(CaptureError::SessionLost));
    assert_eq!(s.acquire(AcquireEvent::DriverFailure), Err(CaptureError::Unavailable));
    let ok = s.acquire(AcquireEvent::FrameReady(ready_meta()));
    assert_eq!(ok, Ok(ready_meta()));
}

#[test]
fn failed_acquire_leaves_session_usable() {
    let mut s = DuplicationSession::new(16);
    assert_eq!(s.acquire(AcquireEvent::TimedOut), Err(CaptureError::Timeout));
    assert_eq!(s.acquire(AcquireEvent::FrameReady(ready_meta())), Ok(ready_meta()));
    assert_eq!(s.release(), Ok(()));
}

#[test]
fn shape_fetch_needed_only_when_size_reported() {
    let with_shape = ready_meta();
    let without_shape = FrameMetadata { shape_buffer_size: 0, ..ready_meta() };
    assert!(needs_shape_fetch(&with_shape));
    assert!(!needs_shape_fetch(&without_shape));
}

#[test]
fn undersized_shape_buffer_reports_required_size() {
    assert_eq!(
        validate_shape_buffer(16, 128),
        Err(CaptureError::BufferTooSmall { required: 128 })
    );
    assert_eq!(validate_shape_buffer(128, 128), Ok(()));
    assert_eq!(validate_shape_buffer(256, 128), Ok(()));
}

#[test]
fn prepare_shape_buffer_grows_and_keeps_prefix() {
    let mut buffer = vec![7u8, 8u8];
    prepare_shape_buffer(&mut buffer, 5);
    assert_eq!(buffer, vec![7u8, 8u8, 0u8, 0u8, 0u8]);
    prepare_shape_buffer(&mut buffer, 3);
    assert_eq!(buffer.len(), 5);
    assert_eq!(validate_shape_buffer(buffer.len(), 5), Ok(()));
}

#[test]
fn remaining_error_variants_are_distinct() {
    let all = [
        CaptureError::Timeout,
        CaptureError::SessionLost,
        CaptureError::DeviceLost,
        CaptureError::BufferTooSmall { required: 1 },
        CaptureError::MapFailed,
        CaptureError::ProtocolViolation,
        CaptureError::Unavailable,
    ];
    for (i, a) in all.iter().enumerate() {
        for (j, b) in all.iter().enumerate() {
            assert_eq!(i == j, a == b);
        }
    }
}
