use dxgi_capture::pixel::vec32_to_vec8;
use dxgi_capture::pixel::vec8_to_vec32;

#[test]
fn bytes_become_pixels_least_significant_first() {
    let bytes = vec![0x78u8, 0x56, 0x34, 0x12, 0x00, 0x00, 0x00, 0xFF];
    let pixels = vec8_to_vec32(&bytes);
    assert_eq!(pixels, vec![0x12345678u32, 0xFF000000u32]);
}

#[test]
fn pixels_become_bytes_least_significant_first() {
    let pixels = vec![0xAABBCCDDu32];
    let bytes = vec32_to_vec8(&pixels);
    assert_eq!(bytes, vec![0xDDu8, 0xCC, 0xBB, 0xAA]);
}

#[test]
fn byte_pixel_round_trip_is_identity() {
    let bytes: Vec<u8> = (0u8..32u8).collect();
    let there = vec8_to_vec32(&bytes);
    let back = vec32_to_vec8(&there);
    assert_eq!(back, bytes);

    let pixels = vec![0u32, 1, 0xFFFFFFFF, 0x80000000, 0x12345678];
    let round = vec8_to_vec32(&vec32_to_vec8(&pixels));
    assert_eq!(round, pixels);
}
