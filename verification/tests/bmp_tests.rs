use dxgi_capture::bmp::bmp_file_headers;
use dxgi_capture::bmp::BMP_HEADER_BYTES;

#[test]
fn header_layout_matches_bitmap_container() {
    let headers = bmp_file_headers(16, 2, 2);
    let expected: Vec<u8> = vec![
        0x42, 0x4D, // magic "BM"
        0x46, 0x00, 0x00, 0x00, // total size: 54 + 16
        0x00, 0x00, // reserved
        0x00, 0x00, // reserved
        0x36, 0x00, 0x00, 0x00, // pixel data offset: 54
        0x28, 0x00, 0x00, 0x00, // info header size: 40
        0x02, 0x00, 0x00, 0x00, // width: 2
        0xFE, 0xFF, 0xFF, 0xFF, // height: -2, top-down rows
        0x01, 0x00, // planes
        0x20, 0x00, // 32 bits per pixel
        0x00, 0x00, 0x00, 0x00, // uncompressed
        0x10, 0x00, 0x00, 0x00, // image size: 16
        0x00, 0x00, 0x00, 0x00, // x pixels per meter
        0x00, 0x00, 0x00, 0x00, // y pixels per meter
        0x00, 0x00, 0x00, 0x00, // colors used
        0x00, 0x00, 0x00, 0x00, // important colors
    ];
    assert_eq!(headers.len(), BMP_HEADER_BYTES as usize);
    assert_eq!(headers, expected);
}

#[test]
fn header_size_field_tracks_image_size() {
    let headers = bmp_file_headers(0x01020304, 1920, 1080);
    let total = 54u32 + 0x01020304;
    assert_eq!(
        &headers[2..6],
        &total.to_le_bytes()[..]
    );
    assert_eq!(&headers[34..38], &0x01020304u32.to_le_bytes()[..]);
    assert_eq!(&headers[18..22], &1920i32.to_le_bytes()[..]);
    assert_eq!(&headers[22..26], &(-1080i32).to_le_bytes()[..]);
}
