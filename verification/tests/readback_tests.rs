use dxgi_capture::readback::read_surface;

#[test]
fn raster_length_is_width_height_four_with_padded_pitch() {
    let width = 2u32;
    let height = 3u32;
    let pitch = 12u32;
    let mapped = vec![0u8; (height * pitch) as usize];
    let raster = read_surface(&mapped, width, height, pitch);
    assert_eq!(raster.len(), (width * height * 4) as usize);
}

#[test]
fn raster_length_is_width_height_four_with_tight_pitch() {
    let width = 3u32;
    let height = 2u32;
    let pitch = 12u32;
    let mapped: Vec<u8> = (0u8..24u8).collect();
    let raster = read_surface(&mapped, width, height, pitch);
    assert_eq!(raster.len(), (width * height * 4) as usize);
    assert_eq!(raster, mapped);
}

#[test]
fn pitch_correction_keeps_row_markers_and_drops_padding() {
    let width = 2u32;
    let height = 3u32;
    let pitch = 12u32;
    let row_bytes = (width * 4) as usize;
    let mut mapped = vec![0u8; (height * pitch) as usize];
    for row in 0..height as usize {
        let base = row * pitch as usize;
        mapped[base] = 0xA0 + row as u8;
        for j in 1..row_bytes {
            mapped[base + j] = (row * 16 + j) as u8;
        }
        for j in row_bytes..pitch as usize {
            mapped[base + j] = 0xEE;
        }
    }
    let raster = read_surface(&mapped, width, height, pitch);
    assert_eq!(raster.len(), row_bytes * height as usize);
    for row in 0..height as usize {
        assert_eq!(raster[row * row_bytes], 0xA0 + row as u8);
        for j in 1..row_bytes {
            assert_eq!(raster[row * row_bytes + j], (row * 16 + j) as u8);
        }
    }
    assert!(raster.iter().all(|&b| b != 0xEE));
}

#[test]
fn contiguous_and_row_by_row_copies_agree() {
    let width = 2u32;
    let height = 2u32;
    let tight: Vec<u8> = (0u8..16u8).collect();
    let mut padded = Vec::new();
    for row in 0..height as usize {
        padded.extend_from_slice(&tight[row * 8..row * 8 + 8]);
        padded.extend_from_slice(&[0xEE, 0xEE, 0xEE, 0xEE]);
    }
    let from_tight = read_surface(&tight, width, height, 8);
    let from_padded = read_surface(&padded, width, height, 12);
    assert_eq!(from_tight, from_padded);
}
