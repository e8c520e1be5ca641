use vstd::prelude::*;

use vstd::arithmetic::mul::lemma_mul_inequality;

verus! {

/// Byte `j` of logical row `row` in a packed raster whose rows are
/// `4 * width` bytes long with no padding.
pub open spec fn packed_byte(s: Seq<u8>, width: int, row: int, j: int) -> u8 {
    s[row * (4 * width) + j]
}

/// Byte `j` of row `row` in a mapped surface whose rows start `pitch`
/// bytes apart.
pub open spec fn mapped_byte(s: Seq<u8>, pitch: int, row: int, j: int) -> u8 {
    s[row * pitch + j]
}

/// Copies a mapped surface into a packed top-down raster of
/// `width * height` 32-bit BGRA pixels with no row padding.
///
/// The mapped surface stores each logical row of `width * 4` bytes at a
/// stride of `pitch` bytes; hardware alignment may make `pitch` exceed
/// `width * 4`, and the padding bytes at the end of each mapped row carry no
/// pixel data. The result holds, row after row, exactly the first
/// `width * 4` bytes of each mapped row, so its length is always
/// `width * height * 4` whatever the pitch was, and no padding byte is
/// carried over. A single contiguous copy serves when the pitch equals the
/// logical row width; otherwise the copy walks row by row, which keeps the
/// rows from shearing.
pub fn read_surface(mapped: &Vec<u8>, width: u32, height: u32, pitch: u32) -> (raster: Vec<u8>)
    requires
        4 * width <= pitch,
        height * pitch <= mapped@.len(),
    ensures
        raster@.len() == 4 * width * height,
        forall|row: int, j: int|
            0 <= row < height && 0 <= j < 4 * width ==> packed_byte(raster@, width as int, row, j)
                == mapped_byte(mapped@, pitch as int, row, j),
{
    let row_bytes: usize = 4 * (width as usize);
    let h: usize = height as usize;
    let p: usize = pitch as usize;
    // Reading the length tells the prover the surface fits the machine's
    // index range, which the row arithmetic below leans on.
    let _mapped_len: usize = mapped.len();
    if p == row_bytes {
        let raster = read_contiguous(mapped, width, height);
        proof {
            assert forall|row: int, j: int| 0 <= row < height && 0 <= j < 4 * width implies
                packed_byte(raster@, width as int, row, j) == mapped_byte(
                mapped@,
                pitch as int,
                row,
                j,
            ) by {
                assert(0 <= row * (4 * width) + j && row * (4 * width) + j < 4 * width * height
                    && row * (4 * width) + j < height * (4 * width)) by (nonlinear_arith)
                    requires
                        0 <= row < height,
                        0 <= j < 4 * width,
                ;
            }
        }
        return raster;
    }
    let mut raster: Vec<u8> = Vec::new();
    let mut row: usize = 0;
    while row < h
        invariant
            row <= h,
            h == height,
            p == pitch,
            row_bytes == 4 * width,
            4 * width <= pitch,
            height * pitch <= mapped@.len(),
            mapped@.len() <= usize::MAX,
            raster@.len() == row * row_bytes,
            forall|r: int, j: int|
                0 <= r < row && 0 <= j < row_bytes ==> packed_byte(raster@, width as int, r, j)
                    == mapped_byte(mapped@, p as int, r, j),
        decreases h - row,
    {
        proof {
            lemma_mul_inequality(row as int + 1, h as int, p as int);
            assert((row as int + 1) * (p as int) == row * (p as int) + p) by (nonlinear_arith);
        }
        let base: usize = row * p;
        let mut j: usize = 0;
        while j < row_bytes
            invariant
                j <= row_bytes,
                row < h,
                h == height,
                p == pitch,
                row_bytes == 4 * width,
                4 * width <= pitch,
                height * pitch <= mapped@.len(),
                mapped@.len() <= usize::MAX,
                base == row * p,
                (row + 1) * p <= mapped@.len(),
                raster@.len() == row * row_bytes + j,
                forall|r: int, jj: int|
                    0 <= r < row && 0 <= jj < row_bytes ==> packed_byte(raster@, width as int, r, jj)
                        == mapped_byte(mapped@, p as int, r, jj),
                forall|jj: int|
                    0 <= jj < j ==> packed_byte(raster@, width as int, row as int, jj)
                        == mapped_byte(mapped@, p as int, row as int, jj),
            decreases row_bytes - j,
        {
            proof {
                assert(row * p + j < (row + 1) * p) by (nonlinear_arith)
                    requires
                        j < row_bytes,
                        row_bytes <= p,
                        0 <= row,
                ;
            }
            let ghost pre = raster@;
            raster.push(mapped[base + j]);
            proof {
                assert forall|r: int, jj: int|
                    0 <= r < row && 0 <= jj < row_bytes implies packed_byte(
                    raster@,
                    width as int,
                    r,
                    jj,
                ) == mapped_byte(mapped@, p as int, r, jj) by {
                    assert(0 <= r * (4 * width) + jj < pre.len()) by (nonlinear_arith)
                        requires
                            0 <= r < row,
                            0 <= jj < row_bytes,
                            row_bytes == 4 * width,
                            pre.len() == row * row_bytes + j,
                            0 <= j,
                    ;
                    assert(packed_byte(pre, width as int, r, jj) == mapped_byte(
                        mapped@,
                        p as int,
                        r,
                        jj,
                    ));
                }
            }
            j = j + 1;
        }
        row = row + 1;
        proof {
            assert(row * row_bytes == (row - 1) * row_bytes + row_bytes) by (nonlinear_arith);
        }
    }
    proof {
        assert(raster@.len() == height * (4 * width));
        assert(height * (4 * width) == 4 * width * height) by (nonlinear_arith);
    }
    raster
}

/// The contiguous fast path of `read_surface`: when the mapped stride is
/// exactly the logical row width, the raster is the plain prefix of the
/// mapped bytes, one copy with no row bookkeeping.
fn read_contiguous(mapped: &Vec<u8>, width: u32, height: u32) -> (raster: Vec<u8>)
    requires
        4 * width <= usize::MAX,
        height * (4 * width) <= mapped@.len(),
    ensures
        raster@.len() == 4 * width * height,
        forall|i: int| 0 <= i < raster@.len() ==> raster@[i] == mapped@[i],
{
    let row_bytes: usize = 4 * (width as usize);
    let h: usize = height as usize;
    // As in read_surface: the binding bounds the surface length.
    let _mapped_len: usize = mapped.len();
    let total: usize = h * row_bytes;
    let mut raster: Vec<u8> = Vec::new();
    let mut i: usize = 0;
    while i < total
        invariant
            i <= total,
            total == height * (4 * width),
            total <= mapped@.len(),
            raster@.len() == i,
            forall|k: int| 0 <= k < i ==> raster@[k] == mapped@[k],
        decreases total - i,
    {
        raster.push(mapped[i]);
        i = i + 1;
    }
    proof {
        assert(height * (4 * width) == 4 * width * height) by (nonlinear_arith);
    }
    raster
}

} // verus!
