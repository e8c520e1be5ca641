use dxgi_capture::cursor::CursorShapeInfo;
use dxgi_capture::cursor::CursorShapeKind;
use dxgi_capture::cursor::classify_shape;
use dxgi_capture::cursor::cursor_placement;
use dxgi_capture::cursor::decode_context;
use dxgi_capture::cursor::SHAPE_TYPE_COLOR;
use dxgi_capture::cursor::SHAPE_TYPE_MASKED_COLOR;
use dxgi_capture::cursor::SHAPE_TYPE_MONOCHROME;

#[test]
fn placement_clamps_negative_position_and_records_skip() {
    let p = cursor_placement(-3, -7);
    assert_eq!(p.left, 0);
    assert_eq!(p.top, 0);
    assert_eq!(p.skip_x, 3);
    assert_eq!(p.skip_y, 7);
}

#[test]
fn placement_keeps_nonnegative_position_with_no_skip() {
    let p = cursor_placement(11, 0);
    assert_eq!(p.left, 11);
    assert_eq!(p.top, 0);
    assert_eq!(p.skip_x, 0);
    assert_eq!(p.skip_y, 0);
}

#[test]
fn placement_handles_extreme_negative_position() {
    let p = cursor_placement(i32::MIN, i32::MIN);
    assert_eq!(p.left, 0);
    assert_eq!(p.skip_x, 2147483648u32);
    assert_eq!(p.skip_y, 2147483648u32);
}

#[test]
fn shape_type_tags_classify_to_their_kinds() {
    assert_eq!(classify_shape(SHAPE_TYPE_MONOCHROME), Some(CursorShapeKind::Monochrome));
    assert_eq!(classify_shape(SHAPE_TYPE_COLOR), Some(CursorShapeKind::Color));
    assert_eq!(classify_shape(SHAPE_TYPE_MASKED_COLOR), Some(CursorShapeKind::MaskedColor));
    assert_eq!(classify_shape(0), None);
    assert_eq!(classify_shape(3), None);
    assert_eq!(classify_shape(0xFFFF), None);
}

#[test]
fn monochrome_context_halves_height_and_keeps_byte_pitch() {
    let info = CursorShapeInfo {
        shape_type: SHAPE_TYPE_MONOCHROME,
        width: 32,
        height: 64,
        pitch: 4,
    };
    let p = cursor_placement(5, -2);
    let (kind, ctx) = decode_context(&info, &p).expect("known type");
    assert_eq!(kind, CursorShapeKind::Monochrome);
    assert_eq!(ctx.cursor_w, 32);
    assert_eq!(ctx.cursor_h, 32);
    assert_eq!(ctx.stride, 4);
    assert_eq!(ctx.left, 5);
    assert_eq!(ctx.top, 0);
    assert_eq!(ctx.skip_x, 0);
    assert_eq!(ctx.skip_y, 2);
}

#[test]
fn color_context_keeps_height_and_uses_pixel_pitch() {
    let info = CursorShapeInfo {
        shape_type: SHAPE_TYPE_COLOR,
        width: 32,
        height: 32,
        pitch: 128,
    };
    let p = cursor_placement(0, 0);
    let (kind, ctx) = decode_context(&info, &p).expect("known type");
    assert_eq!(kind, CursorShapeKind::Color);
    assert_eq!(ctx.cursor_w, 32);
    assert_eq!(ctx.cursor_h, 32);
    assert_eq!(ctx.stride, 32);
}

#[test]
fn unrecognized_tag_yields_no_context() {
    let info = CursorShapeInfo { shape_type: 9, width: 8, height: 8, pitch: 32 };
    let p = cursor_placement(0, 0);
    assert!(decode_context(&info, &p).is_none());
}
