use vstd::prelude::*;

verus! {

/// The two bytes of a 16-bit value, least significant first.
pub open spec fn le16(v: u16) -> Seq<u8> {
    seq![(v & 0xFF) as u8, ((v >> 8u16) & 0xFF) as u8]
}

/// The four bytes of a 32-bit value, least significant first.
pub open spec fn le32(v: u32) -> Seq<u8> {
    seq![
        (v & 0xFF) as u8,
        ((v >> 8u32) & 0xFF) as u8,
        ((v >> 16u32) & 0xFF) as u8,
        ((v >> 24u32) & 0xFF) as u8,
    ]
}

/// The four bytes of a signed 32-bit value, least significant first, in
/// two's complement.
pub open spec fn le32_signed(v: i32) -> Seq<u8> {
    le32(v as u32)
}

/// The number of header bytes that precede the pixel data in the bitmap
/// container: a 14-byte file header followed by a 40-byte info header.
pub const BMP_HEADER_BYTES: u32 = 54;

/// The 14-byte bitmap file header: the magic, the total file size, two
/// reserved words, and the offset of the pixel data.
pub open spec fn file_header_bytes(image_size: u32) -> Seq<u8> {
    le16(0x4D42u16) + le32((BMP_HEADER_BYTES + image_size) as u32) + le16(0u16) + le16(0u16)
        + le32(BMP_HEADER_BYTES)
}

/// The 40-byte bitmap info header for a packed top-down 32-bit
/// uncompressed raster: the negative height encodes top-down row order.
pub open spec fn info_header_bytes(image_size: u32, width: u32, height: u32) -> Seq<u8> {
    le32(40u32) + le32_signed(width as i32) + le32_signed(-(height as int) as i32) + le16(1u16)
        + le16(32u16) + le32(0u32) + le32(image_size) + le32(0u32) + le32(0u32) + le32(0u32)
        + le32(0u32)
}

/// Appends the two little-endian bytes of a 16-bit value.
fn push_u16_le(out: &mut Vec<u8>, v: u16)
    ensures
        final(out)@ == old(out)@ + le16(v),
{
    out.push((v & 0xFF) as u8);
    out.push(((v >> 8u16) & 0xFF) as u8);
    proof {
        assert(out@ =~= old(out)@ + le16(v));
    }
}

/// Appends the four little-endian bytes of a 32-bit value.
fn push_u32_le(out: &mut Vec<u8>, v: u32)
    ensures
        final(out)@ == old(out)@ + le32(v),
{
    out.push((v & 0xFF) as u8);
    out.push(((v >> 8u32) & 0xFF) as u8);
    out.push(((v >> 16u32) & 0xFF) as u8);
    out.push(((v >> 24u32) & 0xFF) as u8);
    proof {
        assert(out@ =~= old(out)@ + le32(v));
    }
}

/// Builds the 54 header bytes that turn a packed top-down 32-bit raster of
/// `image_size` bytes and the given pixel dimensions into a complete
/// bitmap file once the raster bytes follow them: magic, total size,
/// pixel-data offset, dimensions with the height negated for top-down row
/// order, one plane of 32 bits per pixel, uncompressed.
pub fn bmp_file_headers(image_size: u32, width: u32, height: u32) -> (r: Vec<u8>)
    requires
        image_size <= u32::MAX - BMP_HEADER_BYTES,
        width <= i32::MAX,
        height <= i32::MAX,
    ensures
        r@.len() == BMP_HEADER_BYTES,
        r@ == file_header_bytes(image_size) + info_header_bytes(image_size, width, height),
{
    let mut r: Vec<u8> = Vec::new();
    push_u16_le(&mut r, 0x4D42u16);
    push_u32_le(&mut r, BMP_HEADER_BYTES + image_size);
    push_u16_le(&mut r, 0u16);
    push_u16_le(&mut r, 0u16);
    push_u32_le(&mut r, BMP_HEADER_BYTES);
    push_u32_le(&mut r, 40u32);
    push_u32_le(&mut r, width as u32);
    let neg_height: i32 = -(height as i32);
    push_u32_le(&mut r, neg_height as u32);
    push_u16_le(&mut r, 1u16);
    push_u16_le(&mut r, 32u16);
    push_u32_le(&mut r, 0u32);
    push_u32_le(&mut r, image_size);
    push_u32_le(&mut r, 0u32);
    push_u32_le(&mut r, 0u32);
    push_u32_le(&mut r, 0u32);
    push_u32_le(&mut r, 0u32);
    proof {
        assert(width as i32 as u32 == width);
        assert(neg_height as u32 == (-(height as int)) as i32 as u32);
        assert(r@ =~= file_header_bytes(image_size) + info_header_bytes(image_size, width, height));
    }
    r
}

} // verus!
