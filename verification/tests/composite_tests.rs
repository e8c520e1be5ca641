use dxgi_capture::composite::composite_color;
use dxgi_capture::composite::composite_masked_color;
use dxgi_capture::composite::composite_monochrome;
use dxgi_capture::composite::draw_mouse;
use dxgi_capture::cursor::CursorShapeInfo;
use dxgi_capture::cursor::DecodeContext;
use dxgi_capture::cursor::SHAPE_TYPE_COLOR;
use dxgi_capture::pixel::vec32_to_vec8;
use dxgi_capture::pixel::vec8_to_vec32;
use dxgi_capture::session::FrameMetadata;

fn origin_ctx(cursor_w: usize, cursor_h: usize, stride: usize) -> DecodeContext {
    DecodeContext { cursor_w, cursor_h, stride, left: 0, top: 0, skip_x: 0, skip_y: 0 }
}

#[test]
fn monochrome_all_one_and_zero_xor_is_identity() {
    let desktop = vec![0xFF102030u32, 0xFF405060, 0xFF708090, 0xFFA0B0C0];
    let mut buf = desktop.clone();
    let shape = vec![0xFFu8, 0xFF, 0x00, 0x00];
    composite_monochrome(&mut buf, 2, 2, &shape, &origin_ctx(2, 2, 1));
    assert_eq!(buf, desktop);
}

#[test]
fn monochrome_all_one_and_all_one_xor_inverts_rgb_and_stays_opaque() {
    let mut buf = vec![0xFF102030u32, 0xFF405060, 0xFF708090, 0xFFA0B0C0];
    let shape = vec![0xFFu8, 0xFF, 0xFF, 0xFF];
    composite_monochrome(&mut buf, 2, 2, &shape, &origin_ctx(2, 2, 1));
    assert_eq!(buf, vec![0xFFEFDFCFu32, 0xFFBFAF9F, 0xFF8F7F6F, 0xFF5F4F3F]);
    assert!(buf.iter().all(|&px| px & 0xFF000000 == 0xFF000000));
}

#[test]
fn monochrome_zero_and_mask_blacks_out_to_opaque() {
    let mut buf = vec![0xFF102030u32, 0xFF405060, 0xFF708090, 0xFFA0B0C0];
    let shape = vec![0x00u8, 0x00, 0x00, 0x00];
    composite_monochrome(&mut buf, 2, 2, &shape, &origin_ctx(2, 2, 1));
    assert_eq!(buf, vec![0xFF000000u32; 4]);
}

#[test]
fn color_overwrites_only_nonzero_shape_pixels() {
    let mut buf = vec![0xFF111111u32, 0xFF222222];
    let shape = vec![0xFFFFFFFFu32, 0x00000000];
    composite_color(&mut buf, 2, 1, &shape, &origin_ctx(2, 1, 2));
    assert_eq!(buf, vec![0xFFFFFFFFu32, 0xFF222222]);
}

#[test]
fn masked_color_mask_byte_selects_blend() {
    let mut buf = vec![0x00ABCDEFu32, 0xFF000001];
    let shape = vec![0x00123456u32, 0xFF0000FF];
    composite_masked_color(&mut buf, 2, 1, &shape, &origin_ctx(2, 1, 2));
    assert_eq!(buf[0], 0xFF123456);
    assert_eq!(buf[1], (0xFF000001u32 ^ 0xFF0000FF) | 0xFF000000);
    assert_eq!(buf[1], 0xFF0000FE);
}

#[test]
fn masked_color_unmasked_pixel_ignores_desktop() {
    let shape = vec![0x00123456u32];
    for desktop in [0u32, 0xFFFFFFFF, 0x7F123456] {
        let mut buf = vec![desktop];
        composite_masked_color(&mut buf, 1, 1, &shape, &origin_ctx(1, 1, 1));
        assert_eq!(buf, vec![0xFF123456u32]);
    }
}

#[test]
fn skip_x_sources_shape_three_columns_in() {
    let mut buf = vec![1u32, 2, 3, 4];
    let shape = vec![0u32, 0, 0, 0xFF000033, 0xFF000044, 0, 0xFF000066];
    let ctx = DecodeContext {
        cursor_w: 4,
        cursor_h: 1,
        stride: 7,
        left: 0,
        top: 0,
        skip_x: 3,
        skip_y: 0,
    };
    composite_color(&mut buf, 4, 1, &shape, &ctx);
    assert_eq!(buf, vec![0xFF000033u32, 0xFF000044, 3, 0xFF000066]);
}

#[test]
fn bottom_right_overhang_is_clipped_without_wrapping() {
    let mut buf = vec![0xFF000000u32; 16];
    let shape = vec![0xFFFFFFFFu32; 4];
    let ctx = DecodeContext {
        cursor_w: 2,
        cursor_h: 2,
        stride: 2,
        left: 3,
        top: 3,
        skip_x: 0,
        skip_y: 0,
    };
    composite_color(&mut buf, 4, 4, &shape, &ctx);
    for (i, &px) in buf.iter().enumerate() {
        if i == 15 {
            assert_eq!(px, 0xFFFFFFFF);
        } else {
            assert_eq!(px, 0xFF000000);
        }
    }
}

#[test]
fn end_to_end_color_cursor_on_black_desktop() {
    let desktop = vec![0xFF000000u32; 16];
    let buf_bytes = vec32_to_vec8(&desktop);
    let shape_bytes = vec32_to_vec8(&vec![0xFFFFFFFFu32; 4]);
    let meta = FrameMetadata {
        cursor_x: 1,
        cursor_y: 1,
        cursor_visible: true,
        shape_buffer_size: 16,
        accumulated_frames: 1,
    };
    let info = CursorShapeInfo { shape_type: SHAPE_TYPE_COLOR, width: 2, height: 2, pitch: 8 };
    let out = draw_mouse(&shape_bytes, &meta, &info, 4, 4, buf_bytes);
    let out32 = vec8_to_vec32(&out);
    for row in 0..4usize {
        for col in 0..4usize {
            let expected = if (1..=2).contains(&row) && (1..=2).contains(&col) {
                0xFFFFFFFFu32
            } else {
                0xFF000000u32
            };
            assert_eq!(out32[row * 4 + col], expected);
        }
    }
}

#[test]
fn unrecognized_shape_type_leaves_raster_untouched() {
    let desktop = vec![0xFF123456u32; 4];
    let buf_bytes = vec32_to_vec8(&desktop);
    let shape_bytes = vec![0u8; 16];
    let meta = FrameMetadata {
        cursor_x: 0,
        cursor_y: 0,
        cursor_visible: true,
        shape_buffer_size: 16,
        accumulated_frames: 1,
    };
    let info = CursorShapeInfo { shape_type: 7, width: 2, height: 2, pitch: 8 };
    let out = draw_mouse(&shape_bytes, &meta, &info, 2, 2, buf_bytes.clone());
    assert_eq!(out, buf_bytes);
}

#[test]
fn undersized_shape_payload_leaves_raster_untouched() {
    let desktop = vec![0xFF123456u32; 4];
    let buf_bytes = vec32_to_vec8(&desktop);
    let shape_bytes = vec![0xFFu8; 8];
    let meta = FrameMetadata {
        cursor_x: 0,
        cursor_y: 0,
        cursor_visible: true,
        shape_buffer_size: 8,
        accumulated_frames: 1,
    };
    let info = CursorShapeInfo { shape_type: SHAPE_TYPE_COLOR, width: 2, height: 2, pitch: 8 };
    let out = draw_mouse(&shape_bytes, &meta, &info, 2, 2, buf_bytes.clone());
    assert_eq!(out, buf_bytes);
}

#[test]
fn negative_cursor_position_through_draw_mouse() {
    let desktop = vec![1u32, 2, 3, 4];
    let buf_bytes = vec32_to_vec8(&desktop);
    let shape32 = vec![0u32, 0, 0, 0xFF000033, 0xFF000044, 0, 0xFF000066];
    let shape_bytes = vec32_to_vec8(&shape32);
    let meta = FrameMetadata {
        cursor_x: -3,
        cursor_y: 0,
        cursor_visible: true,
        shape_buffer_size: 28,
        accumulated_frames: 1,
    };
    let info = CursorShapeInfo { shape_type: SHAPE_TYPE_COLOR, width: 4, height: 1, pitch: 28 };
    let out = draw_mouse(&shape_bytes, &meta, &info, 4, 1, buf_bytes);
    let out32 = vec8_to_vec32(&out);
    assert_eq!(out32, vec![0xFF000033u32, 0xFF000044, 3, 0xFF000066]);
}
