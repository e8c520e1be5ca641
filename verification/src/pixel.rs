use vstd::prelude::*;

verus! {

/// The 32-bit pixel that four raster bytes form, least-significant byte
/// first: the layout a little-endian machine sees when a packed BGRA byte
/// raster is read as a pixel array.
pub open spec fn pixel_of_bytes(b0: u8, b1: u8, b2: u8, b3: u8) -> u32 {
    (b0 as u32) | ((b1 as u32) << 8) | ((b2 as u32) << 16) | ((b3 as u32) << 24)
}

/// One byte of a pixel, `k` counting from the least significant.
pub open spec fn byte_of_pixel(p: u32, k: int) -> u8 {
    if k == 0 {
        (p & 0xFF) as u8
    } else if k == 1 {
        ((p >> 8) & 0xFF) as u8
    } else if k == 2 {
        ((p >> 16) & 0xFF) as u8
    } else {
        ((p >> 24) & 0xFF) as u8
    }
}

/// A byte raster viewed as a pixel array, four bytes per pixel.
pub open spec fn pixels_of(bytes: Seq<u8>) -> Seq<u32> {
    Seq::new(
        (bytes.len() / 4) as nat,
        |i: int| pixel_of_bytes(bytes[4 * i], bytes[4 * i + 1], bytes[4 * i + 2], bytes[4 * i + 3]),
    )
}

/// A pixel array viewed as a byte raster, four bytes per pixel.
pub open spec fn bytes_of(pixels: Seq<u32>) -> Seq<u8> {
    Seq::new((pixels.len() * 4) as nat, |i: int| byte_of_pixel(pixels[i / 4], i % 4))
}

/// Packing four bytes into a pixel and picking them out again is the
/// identity, byte by byte.
proof fn lemma_pixel_byte_inverse(b0: u8, b1: u8, b2: u8, b3: u8)
    ensures
        byte_of_pixel(pixel_of_bytes(b0, b1, b2, b3), 0) == b0,
        byte_of_pixel(pixel_of_bytes(b0, b1, b2, b3), 1) == b1,
        byte_of_pixel(pixel_of_bytes(b0, b1, b2, b3), 2) == b2,
        byte_of_pixel(pixel_of_bytes(b0, b1, b2, b3), 3) == b3,
{
    assert((((b0 as u32) | ((b1 as u32) << 8) | ((b2 as u32) << 16) | ((b3 as u32) << 24)) & 0xFF)
        as u8 == b0) by (bit_vector);
    assert(((((b0 as u32) | ((b1 as u32) << 8) | ((b2 as u32) << 16) | ((b3 as u32) << 24)) >> 8)
        & 0xFF) as u8 == b1) by (bit_vector);
    assert(((((b0 as u32) | ((b1 as u32) << 8) | ((b2 as u32) << 16) | ((b3 as u32) << 24)) >> 16)
        & 0xFF) as u8 == b2) by (bit_vector);
    assert(((((b0 as u32) | ((b1 as u32) << 8) | ((b2 as u32) << 16) | ((b3 as u32) << 24)) >> 24)
        & 0xFF) as u8 == b3) by (bit_vector);
}

/// A pixel split into its four bytes and packed again is unchanged.
proof fn lemma_byte_pixel_inverse(p: u32)
    ensures
        pixel_of_bytes(
            byte_of_pixel(p, 0),
            byte_of_pixel(p, 1),
            byte_of_pixel(p, 2),
            byte_of_pixel(p, 3),
        ) == p,
{
    assert((((p & 0xFF) as u8) as u32) | (((((p >> 8) & 0xFF) as u8) as u32) << 8)
        | (((((p >> 16) & 0xFF) as u8) as u32) << 16) | (((((p >> 24) & 0xFF) as u8) as u32) << 24)
        == p) by (bit_vector);
}

/// Viewing a pixel array as bytes and the bytes as pixels again gives the
/// original array back: the two reinterpretations are mutually inverse.
pub proof fn lemma_pixels_of_bytes_of(pixels: Seq<u32>)
    ensures
        pixels_of(bytes_of(pixels)) == pixels,
{
    let b = bytes_of(pixels);
    assert forall|i: int| 0 <= i < pixels.len() implies pixels_of(b)[i] == pixels[i] by {
        assert(b[4 * i] == byte_of_pixel(pixels[(4 * i) / 4], (4 * i) % 4));
        assert((4 * i) / 4 == i && (4 * i) % 4 == 0) by (nonlinear_arith);
        assert((4 * i + 1) / 4 == i && (4 * i + 1) % 4 == 1) by (nonlinear_arith);
        assert((4 * i + 2) / 4 == i && (4 * i + 2) % 4 == 2) by (nonlinear_arith);
        assert((4 * i + 3) / 4 == i && (4 * i + 3) % 4 == 3) by (nonlinear_arith);
        lemma_byte_pixel_inverse(pixels[i]);
    }
    assert(pixels_of(b) =~= pixels);
}

/// Viewing a byte raster of whole pixels as pixels and back as bytes gives
/// the original raster back.
pub proof fn lemma_bytes_of_pixels_of(bytes: Seq<u8>)
    requires
        bytes.len() % 4 == 0,
    ensures
        bytes_of(pixels_of(bytes)) == bytes,
{
    let p = pixels_of(bytes);
    assert(p.len() * 4 == bytes.len());
    assert forall|i: int| 0 <= i < bytes.len() implies bytes_of(p)[i] == bytes[i] by {
        let q = i / 4;
        let k = i % 4;
        vstd::arithmetic::div_mod::lemma_fundamental_div_mod(i, 4);
        assert(0 <= k < 4 && 0 <= q < p.len());
        assert(p[q] == pixel_of_bytes(bytes[4 * q], bytes[4 * q + 1], bytes[4 * q + 2], bytes[4 * q
            + 3]));
        lemma_pixel_byte_inverse(bytes[4 * q], bytes[4 * q + 1], bytes[4 * q + 2], bytes[4 * q + 3]);
    }
    assert(bytes_of(p) =~= bytes);
}

/// Reads a packed byte raster as an array of 32-bit pixels, four bytes per
/// pixel, least-significant byte first. Replaces an in-place buffer
/// reinterpretation with an explicit, bounds-checked copy.
pub fn vec8_to_vec32(src: &Vec<u8>) -> (r: Vec<u32>)
    requires
        src@.len() % 4 == 0,
    ensures
        r@ == pixels_of(src@),
{
    let n: usize = src.len() / 4;
    let mut r: Vec<u32> = Vec::new();
    let mut i: usize = 0;
    while i < n
        invariant
            n == src@.len() / 4,
            src@.len() % 4 == 0,
            src@.len() <= usize::MAX,
            i <= n,
            r@.len() == i,
            forall|j: int| 0 <= j < i ==> r@[j] == pixels_of(src@)[j],
        decreases n - i,
    {
        proof {
            assert(4 * (i as int) + 3 < src@.len()) by (nonlinear_arith)
                requires
                    (i as int) < src@.len() / 4,
                    src@.len() % 4 == 0,
            ;
        }
        let b0 = src[4 * i];
        let b1 = src[4 * i + 1];
        let b2 = src[4 * i + 2];
        let b3 = src[4 * i + 3];
        let px: u32 = (b0 as u32) | ((b1 as u32) << 8u32) | ((b2 as u32) << 16u32) | ((b3 as u32)
            << 24u32);
        r.push(px);
        i = i + 1;
    }
    proof {
        assert(r@ =~= pixels_of(src@));
    }
    r
}

/// Writes an array of 32-bit pixels back out as a packed byte raster,
/// least-significant byte first.
pub fn vec32_to_vec8(src: &Vec<u32>) -> (r: Vec<u8>)
    ensures
        r@ == bytes_of(src@),
{
    let n: usize = src.len();
    let mut r: Vec<u8> = Vec::new();
    let mut i: usize = 0;
    while i < n
        invariant
            n == src@.len(),
            i <= n,
            r@.len() == 4 * i,
            forall|j: int| 0 <= j < 4 * i ==> r@[j] == bytes_of(src@)[j],
        decreases n - i,
    {
        let px = src[i];
        r.push((px & 0xFF) as u8);
        r.push(((px >> 8u32) & 0xFF) as u8);
        r.push(((px >> 16u32) & 0xFF) as u8);
        r.push(((px >> 24u32) & 0xFF) as u8);
        proof {
            assert forall|j: int| 4 * (i as int) <= j < 4 * (i as int) + 4 implies r@[j]
                == bytes_of(src@)[j] by {
                assert(j / 4 == i as int && j % 4 == j - 4 * (i as int)) by (nonlinear_arith)
                    requires
                        4 * (i as int) <= j < 4 * (i as int) + 4,
                ;
            }
        }
        i = i + 1;
    }
    proof {
        assert(r@ =~= bytes_of(src@));
    }
    r
}

} // verus!
