use vstd::prelude::*;

use crate::cursor::CursorShapeInfo;
use crate::cursor::CursorShapeKind;
use crate::cursor::DecodeContext;
use crate::cursor::classify_of;
use crate::cursor::color_ctx_of;
use crate::cursor::cursor_placement;
use crate::cursor::decode_context;
use crate::cursor::mono_ctx_of;
use crate::cursor::placement_of;
use crate::pixel::lemma_pixels_of_bytes_of;
use crate::pixel::pixels_of;
use crate::pixel::vec32_to_vec8;
use crate::pixel::vec8_to_vec32;
use crate::session::FrameMetadata;
use vstd::arithmetic::div_mod::lemma_div_is_ordered;
use vstd::arithmetic::div_mod::lemma_div_multiples_vanish;
use vstd::arithmetic::div_mod::lemma_fundamental_div_mod;
use vstd::arithmetic::div_mod::lemma_fundamental_div_mod_converse;
use vstd::arithmetic::div_mod::lemma_mod_bound;
use vstd::arithmetic::div_mod::lemma_multiply_divide_lt;
use vstd::arithmetic::mul::lemma_mul_inequality;

verus! {

/// The color-cursor blend rule: a shape pixel of exactly zero is the
/// fully-transparent sentinel and leaves the desktop pixel untouched; any
/// other shape pixel overwrites it.
pub open spec fn color_blend(desktop: u32, cursor: u32) -> u32 {
    if cursor == 0u32 {
        desktop
    } else {
        cursor
    }
}

/// The masked-color blend rule: the top byte of the shape pixel is an
/// alpha-like mask. A non-zero mask byte inverts the underlying desktop
/// content and forces it opaque; a zero mask byte overwrites with the shape
/// pixel forced opaque.
pub open spec fn masked_blend(desktop: u32, cursor: u32) -> u32 {
    if cursor & 0xFF000000u32 != 0u32 {
        (desktop ^ cursor) | 0xFF000000u32
    } else {
        cursor | 0xFF000000u32
    }
}

/// The monochrome blend rule, the classic AND/XOR cursor convention lifted
/// to 32-bit pixels: a set AND bit keeps the desktop pixel (all-ones mask),
/// a clear one blacks it out to opaque black; a set XOR bit then inverts
/// the RGB channels and leaves the alpha channel alone.
pub open spec fn mono_blend(desktop: u32, and_bit: bool, xor_bit: bool) -> u32 {
    (desktop & (if and_bit {
        0xFFFFFFFFu32
    } else {
        0xFF000000u32
    })) ^ (if xor_bit {
        0x00FFFFFFu32
    } else {
        0x00000000u32
    })
}

/// Whether raster pixel `i` of a `width`-pixel-wide raster lies under the
/// clipped cursor rectangle of `ctx`.
pub open spec fn under_cursor(i: int, width: int, ctx: DecodeContext) -> bool {
    &&& ctx.top <= i / width < ctx.top + ctx.cursor_h
    &&& ctx.left <= i % width < ctx.left + ctx.cursor_w
}

/// The index into a packed shape-pixel payload that sources raster pixel
/// `i`: the cursor-local column and row, shifted by the skip of the
/// clipped placement, addressed at the payload row stride.
pub open spec fn shape_index(ctx: DecodeContext, width: int, i: int) -> int {
    (i % width - ctx.left + ctx.skip_x) + (i / width - ctx.top + ctx.skip_y) * ctx.stride
}

/// Raster pixel `i` after one color-cursor composite pass.
pub open spec fn color_pixel_at(
    desktop: Seq<u32>,
    shape: Seq<u32>,
    width: int,
    ctx: DecodeContext,
    i: int,
) -> u32 {
    if under_cursor(i, width, ctx) {
        color_blend(desktop[i], shape[shape_index(ctx, width, i)])
    } else {
        desktop[i]
    }
}

/// Raster pixel `i` after one masked-color composite pass.
pub open spec fn masked_pixel_at(
    desktop: Seq<u32>,
    shape: Seq<u32>,
    width: int,
    ctx: DecodeContext,
    i: int,
) -> u32 {
    if under_cursor(i, width, ctx) {
        masked_blend(desktop[i], shape[shape_index(ctx, width, i)])
    } else {
        desktop[i]
    }
}

/// The AND-mask bit of the monochrome payload that covers raster pixel
/// `i`: bit `col % 8` (most significant first) of byte `col / 8` in mask
/// row `row`, rows being `ctx.stride` bytes apart.
pub open spec fn mono_and_bit(shape: Seq<u8>, width: int, ctx: DecodeContext, i: int) -> bool {
    let col = i % width - ctx.left + ctx.skip_x;
    let row = i / width - ctx.top + ctx.skip_y;
    shape[col / 8 + row * ctx.stride] & (0x80u8 >> ((col % 8) as u32)) != 0
}

/// The XOR-mask bit covering raster pixel `i`; the XOR mask is stacked
/// `ctx.cursor_h` rows below the AND mask in the same payload.
pub open spec fn mono_xor_bit(shape: Seq<u8>, width: int, ctx: DecodeContext, i: int) -> bool {
    let col = i % width - ctx.left + ctx.skip_x;
    let row = i / width - ctx.top + ctx.skip_y + ctx.cursor_h;
    shape[col / 8 + row * ctx.stride] & (0x80u8 >> ((col % 8) as u32)) != 0
}

/// Raster pixel `i` after one monochrome composite pass.
pub open spec fn mono_pixel_at(
    desktop: Seq<u32>,
    shape: Seq<u8>,
    width: int,
    ctx: DecodeContext,
    i: int,
) -> u32 {
    if under_cursor(i, width, ctx) {
        mono_blend(
            desktop[i],
            mono_and_bit(shape, width, ctx, i),
            mono_xor_bit(shape, width, ctx, i),
        )
    } else {
        desktop[i]
    }
}

/// Whether a packed shape-pixel payload of `shape_len` pixels is large
/// enough for every read the color or masked-color pass makes under `ctx`.
pub open spec fn color_shape_fits(ctx: DecodeContext, shape_len: int) -> bool {
    &&& ctx.skip_x + ctx.cursor_w <= ctx.stride
    &&& (ctx.skip_y + ctx.cursor_h) * ctx.stride <= shape_len
}

/// Whether a monochrome mask payload of `shape_len` bytes is large enough
/// for every read the monochrome pass makes under `ctx`: each mask row
/// holds one bit per pixel, and the two masks sit stacked one below the
/// other.
pub open spec fn mono_shape_fits(ctx: DecodeContext, shape_len: int) -> bool {
    &&& ctx.skip_x + ctx.cursor_w <= 8 * ctx.stride
    &&& (ctx.skip_y + 2 * ctx.cursor_h) * ctx.stride <= shape_len
}

/// One raster pixel while a color composite pass is underway: pixels the
/// pass has reached, walking the cursor rectangle row by row and column by
/// column up to (but not including) cursor row `row`, column `col`, already
/// carry their blended value; all others still carry the desktop value.
pub open spec fn color_partial(
    d0: Seq<u32>,
    shape: Seq<u32>,
    width: int,
    ctx: DecodeContext,
    row: int,
    col: int,
    i: int,
) -> u32 {
    if under_cursor(i, width, ctx) && (i / width - ctx.top < row || (i / width - ctx.top == row
        && i % width - ctx.left < col)) {
        color_pixel_at(d0, shape, width, ctx, i)
    } else {
        d0[i]
    }
}

/// Blends a color cursor shape into the desktop raster in place. Every
/// pixel under the clipped cursor rectangle takes the color blend of the
/// matching shape pixel; every other pixel keeps its value, and writes
/// past the right or bottom raster edge are clipped pixel by pixel.
pub fn composite_color(
    buf: &mut Vec<u32>,
    width: usize,
    height: usize,
    shape: &Vec<u32>,
    ctx: &DecodeContext,
)
    requires
        old(buf)@.len() == width * height,
        color_shape_fits(*ctx, shape@.len() as int),
    ensures
        final(buf)@.len() == old(buf)@.len(),
        forall|i: int|
            0 <= i < old(buf)@.len() ==> final(buf)@[i] == color_pixel_at(
                old(buf)@,
                shape@,
                width as int,
                *ctx,
                i,
            ),
{
    let ghost d0 = old(buf)@;
    // Reading the lengths tells the prover both buffers fit the machine's
    // index range, which the loops below lean on.
    let _buf_len: usize = buf.len();
    let _shape_len: usize = shape.len();
    let rend: usize = row_span(ctx.top, ctx.cursor_h, height);
    let cend: usize = row_span(ctx.left, ctx.cursor_w, width);
    let mut row: usize = 0;
    while row < rend
        invariant
            row <= rend,
            d0.len() <= usize::MAX,
            rend == spec_span(ctx.top as int, ctx.cursor_h as int, height as int),
            cend == spec_span(ctx.left as int, ctx.cursor_w as int, width as int),
            d0.len() == width * height,
            buf@.len() == d0.len(),
            d0 == old(buf)@,
            color_shape_fits(*ctx, shape@.len() as int),
            shape@.len() <= usize::MAX,
            forall|i: int|
                0 <= i < d0.len() ==> buf@[i] == color_partial(
                    d0,
                    shape@,
                    width as int,
                    *ctx,
                    row as int,
                    0,
                    i,
                ),
        decreases rend - row,
    {
        let mut col: usize = 0;
        while col < cend
            invariant
                col <= cend,
                row < rend,
                d0.len() <= usize::MAX,
                rend == spec_span(ctx.top as int, ctx.cursor_h as int, height as int),
                cend == spec_span(ctx.left as int, ctx.cursor_w as int, width as int),
                d0.len() == width * height,
                buf@.len() == d0.len(),
                d0 == old(buf)@,
                color_shape_fits(*ctx, shape@.len() as int),
                shape@.len() <= usize::MAX,
                forall|i: int|
                    0 <= i < d0.len() ==> buf@[i] == color_partial(
                        d0,
                        shape@,
                        width as int,
                        *ctx,
                        row as int,
                        col as int,
                        i,
                    ),
            decreases cend - col,
        {
            proof {
                lemma_blit_bounds(
                    width as int,
                    height as int,
                    shape@.len() as int,
                    *ctx,
                    row as int,
                    col as int,
                );
            }
            let si: usize = (col + ctx.skip_x) + (row + ctx.skip_y) * ctx.stride;
            let cur: u32 = shape[si];
            let di: usize = (ctx.top + row) * width + (ctx.left + col);
            proof {
                assert(ctx.left + col < width && ctx.top + row < height);
                lemma_fundamental_div_mod_converse(
                    di as int,
                    width as int,
                    ctx.top + row,
                    ctx.left + col,
                );
                assert(rend <= ctx.cursor_h && cend <= ctx.cursor_w);
                assert(under_cursor(di as int, width as int, *ctx));
                assert(shape_index(*ctx, width as int, di as int) == si);
                assert(buf@[di as int] == color_partial(
                    d0,
                    shape@,
                    width as int,
                    *ctx,
                    row as int,
                    col as int,
                    di as int,
                ));
                assert(buf@[di as int] == d0[di as int]);
            }
            let ghost pre = buf@;
            if cur != 0 {
                buf.set(di, cur);
            }
            proof {
                assert(buf@[di as int] == color_pixel_at(d0, shape@, width as int, *ctx, di as int));
                assert forall|i: int| 0 <= i < d0.len() implies buf@[i] == color_partial(
                    d0,
                    shape@,
                    width as int,
                    *ctx,
                    row as int,
                    col as int + 1,
                    i,
                ) by {
                    lemma_fundamental_div_mod(i, width as int);
                    if i != di as int {
                        assert(buf@[i] == pre[i]);
                        assert(pre[i] == color_partial(
                            d0,
                            shape@,
                            width as int,
                            *ctx,
                            row as int,
                            col as int,
                            i,
                        ));
                        if under_cursor(i, width as int, *ctx) && i / (width as int) - ctx.top
                            == row && i % (width as int) - ctx.left == col {
                            assert(i == (width as int) * (i / (width as int)) + i % (width as int));
                            assert((width as int) * (ctx.top + row) == (ctx.top + row) * (
                            width as int)) by (nonlinear_arith);
                            assert(i == di as int);
                            assert(false);
                        }
                    }
                }
            }
            col = col + 1;
        }
        proof {
            lemma_row_done(
                d0.len() as int,
                width as int,
                height as int,
                *ctx,
                row as int,
                cend as int,
            );
            assert forall|i: int| 0 <= i < d0.len() implies buf@[i] == color_partial(
                d0,
                shape@,
                width as int,
                *ctx,
                row as int + 1,
                0,
                i,
            ) by {
                assert(buf@[i] == color_partial(
                    d0,
                    shape@,
                    width as int,
                    *ctx,
                    row as int,
                    cend as int,
                    i,
                ));
            }
        }
        row = row + 1;
    }
    proof {
        lemma_all_rows_done(d0.len() as int, width as int, height as int, *ctx, rend as int);
        assert forall|i: int| 0 <= i < d0.len() implies buf@[i] == color_pixel_at(
            d0,
            shape@,
            width as int,
            *ctx,
            i,
        ) by {
            assert(buf@[i] == color_partial(d0, shape@, width as int, *ctx, rend as int, 0, i));
        }
    }
}

/// One raster pixel while a masked-color composite pass is underway,
/// walking the cursor rectangle up to (but not including) cursor row
/// `row`, column `col`.
pub open spec fn masked_partial(
    d0: Seq<u32>,
    shape: Seq<u32>,
    width: int,
    ctx: DecodeContext,
    row: int,
    col: int,
    i: int,
) -> u32 {
    if under_cursor(i, width, ctx) && (i / width - ctx.top < row || (i / width - ctx.top == row
        && i % width - ctx.left < col)) {
        masked_pixel_at(d0, shape, width, ctx, i)
    } else {
        d0[i]
    }
}

/// Blends a masked-color cursor shape into the desktop raster in place.
/// Every pixel under the clipped cursor rectangle takes the masked blend
/// of the matching shape pixel; every other pixel keeps its value, and
/// writes past the right or bottom raster edge are clipped pixel by pixel.
pub fn composite_masked_color(
    buf: &mut Vec<u32>,
    width: usize,
    height: usize,
    shape: &Vec<u32>,
    ctx: &DecodeContext,
)
    requires
        old(buf)@.len() == width * height,
        color_shape_fits(*ctx, shape@.len() as int),
    ensures
        final(buf)@.len() == old(buf)@.len(),
        forall|i: int|
            0 <= i < old(buf)@.len() ==> final(buf)@[i] == masked_pixel_at(
                old(buf)@,
                shape@,
                width as int,
                *ctx,
                i,
            ),
{
    let ghost d0 = old(buf)@;
    // Reading the lengths tells the prover both buffers fit the machine's
    // index range, which the loops below lean on.
    let _buf_len: usize = buf.len();
    let _shape_len: usize = shape.len();
    let rend: usize = row_span(ctx.top, ctx.cursor_h, height);
    let cend: usize = row_span(ctx.left, ctx.cursor_w, width);
    let mut row: usize = 0;
    while row < rend
        invariant
            row <= rend,
            d0.len() <= usize::MAX,
            rend == spec_span(ctx.top as int, ctx.cursor_h as int, height as int),
            cend == spec_span(ctx.left as int, ctx.cursor_w as int, width as int),
            d0.len() == width * height,
            buf@.len() == d0.len(),
            d0 == old(buf)@,
            color_shape_fits(*ctx, shape@.len() as int),
            shape@.len() <= usize::MAX,
            forall|i: int|
                0 <= i < d0.len() ==> buf@[i] == masked_partial(
                    d0,
                    shape@,
                    width as int,
                    *ctx,
                    row as int,
                    0,
                    i,
                ),
        decreases rend - row,
    {
        let mut col: usize = 0;
        while col < cend
            invariant
                col <= cend,
                row < rend,
                d0.len() <= usize::MAX,
                rend == spec_span(ctx.top as int, ctx.cursor_h as int, height as int),
                cend == spec_span(ctx.left as int, ctx.cursor_w as int, width as int),
                d0.len() == width * height,
                buf@.len() == d0.len(),
                d0 == old(buf)@,
                color_shape_fits(*ctx, shape@.len() as int),
                shape@.len() <= usize::MAX,
                forall|i: int|
                    0 <= i < d0.len() ==> buf@[i] == masked_partial(
                        d0,
                        shape@,
                        width as int,
                        *ctx,
                        row as int,
                        col as int,
                        i,
                    ),
            decreases cend - col,
        {
            proof {
                lemma_blit_bounds(
                    width as int,
                    height as int,
                    shape@.len() as int,
                    *ctx,
                    row as int,
                    col as int,
                );
            }
            let si: usize = (col + ctx.skip_x) + (row + ctx.skip_y) * ctx.stride;
            let cur: u32 = shape[si];
            let di: usize = (ctx.top + row) * width + (ctx.left + col);
            proof {
                assert(ctx.left + col < width && ctx.top + row < height);
                lemma_fundamental_div_mod_converse(
                    di as int,
                    width as int,
                    ctx.top + row,
                    ctx.left + col,
                );
                assert(rend <= ctx.cursor_h && cend <= ctx.cursor_w);
                assert(under_cursor(di as int, width as int, *ctx));
                assert(shape_index(*ctx, width as int, di as int) == si);
                assert(buf@[di as int] == masked_partial(
                    d0,
                    shape@,
                    width as int,
                    *ctx,
                    row as int,
                    col as int,
                    di as int,
                ));
                assert(buf@[di as int] == d0[di as int]);
            }
            let ghost pre = buf@;
            let desk: u32 = buf[di];
            let blended: u32 = if (cur & 0xFF000000u32) != 0u32 {
                (desk ^ cur) | 0xFF000000u32
            } else {
                cur | 0xFF000000u32
            };
            buf.set(di, blended);
            proof {
                assert(buf@[di as int] == masked_pixel_at(
                    d0,
                    shape@,
                    width as int,
                    *ctx,
                    di as int,
                ));
                assert forall|i: int| 0 <= i < d0.len() implies buf@[i] == masked_partial(
                    d0,
                    shape@,
                    width as int,
                    *ctx,
                    row as int,
                    col as int + 1,
                    i,
                ) by {
                    lemma_fundamental_div_mod(i, width as int);
                    if i != di as int {
                        assert(buf@[i] == pre[i]);
                        assert(pre[i] == masked_partial(
                            d0,
                            shape@,
                            width as int,
                            *ctx,
                            row as int,
                            col as int,
                            i,
                        ));
                        if under_cursor(i, width as int, *ctx) && i / (width as int) - ctx.top
                            == row && i % (width as int) - ctx.left == col {
                            assert(i == (width as int) * (i / (width as int)) + i % (width as int));
                            assert((width as int) * (ctx.top + row) == (ctx.top + row) * (
                            width as int)) by (nonlinear_arith);
                            assert(i == di as int);
                            assert(false);
                        }
                    }
                }
            }
            col = col + 1;
        }
        proof {
            lemma_row_done(
                d0.len() as int,
                width as int,
                height as int,
                *ctx,
                row as int,
                cend as int,
            );
            assert forall|i: int| 0 <= i < d0.len() implies buf@[i] == masked_partial(
                d0,
                shape@,
                width as int,
                *ctx,
                row as int + 1,
                0,
                i,
            ) by {
                assert(buf@[i] == masked_partial(
                    d0,
                    shape@,
                    width as int,
                    *ctx,
                    row as int,
                    cend as int,
                    i,
                ));
            }
        }
        row = row + 1;
    }
    proof {
        lemma_all_rows_done(d0.len() as int, width as int, height as int, *ctx, rend as int);
        assert forall|i: int| 0 <= i < d0.len() implies buf@[i] == masked_pixel_at(
            d0,
            shape@,
            width as int,
            *ctx,
            i,
        ) by {
            assert(buf@[i] == masked_partial(d0, shape@, width as int, *ctx, rend as int, 0, i));
        }
    }
}

/// One raster pixel while a monochrome composite pass is underway,
/// walking the cursor rectangle up to (but not including) cursor row
/// `row`, column `col`.
pub open spec fn mono_partial(
    d0: Seq<u32>,
    shape: Seq<u8>,
    width: int,
    ctx: DecodeContext,
    row: int,
    col: int,
    i: int,
) -> u32 {
    if under_cursor(i, width, ctx) && (i / width - ctx.top < row || (i / width - ctx.top == row
        && i % width - ctx.left < col)) {
        mono_pixel_at(d0, shape, width, ctx, i)
    } else {
        d0[i]
    }
}

/// Every mask-byte and raster index the monochrome pass touches at
/// position `(row, col)` is in bounds and overflows nothing.
proof fn lemma_mono_bounds(
    width: int,
    height: int,
    shape_len: int,
    ctx: DecodeContext,
    row: int,
    col: int,
)
    requires
        ctx.skip_x + ctx.cursor_w <= 8 * ctx.stride,
        (ctx.skip_y + 2 * ctx.cursor_h) * ctx.stride <= shape_len,
        0 <= row < spec_span(ctx.top as int, ctx.cursor_h as int, height),
        0 <= col < spec_span(ctx.left as int, ctx.cursor_w as int, width),
    ensures
        1 <= ctx.stride,
        col + ctx.skip_x < 8 * ctx.stride,
        (col + ctx.skip_x) / 8 < ctx.stride,
        row + ctx.skip_y + ctx.cursor_h < ctx.skip_y + 2 * ctx.cursor_h,
        (row + ctx.skip_y + ctx.cursor_h) * ctx.stride <= shape_len,
        row + ctx.skip_y + ctx.cursor_h <= shape_len,
        (col + ctx.skip_x) / 8 + (row + ctx.skip_y) * ctx.stride < shape_len,
        (col + ctx.skip_x) / 8 + (row + ctx.skip_y + ctx.cursor_h) * ctx.stride < shape_len,
        ctx.top + row < height,
        ctx.left + col < width,
        (ctx.top + row) * width + (ctx.left + col) < width * height,
{
    assert(8 * ctx.stride >= 1);
    lemma_multiply_divide_lt(col + ctx.skip_x, 8, ctx.stride as int);
    assert((row + ctx.skip_y + ctx.cursor_h + 1) * ctx.stride <= shape_len && row + ctx.skip_y
        + ctx.cursor_h <= shape_len && (row + ctx.skip_y + 1) * ctx.stride <= shape_len)
        by (nonlinear_arith)
        requires
            0 <= row < ctx.cursor_h,
            0 <= ctx.skip_y,
            1 <= ctx.stride,
            (ctx.skip_y + 2 * ctx.cursor_h) * ctx.stride <= shape_len,
    ;
    assert((col + ctx.skip_x) / 8 + (row + ctx.skip_y) * ctx.stride < (row + ctx.skip_y + 1)
        * ctx.stride) by (nonlinear_arith)
        requires
            (col + ctx.skip_x) / 8 < ctx.stride,
            0 <= (col + ctx.skip_x) / 8,
            0 <= row + ctx.skip_y,
    ;
    assert((col + ctx.skip_x) / 8 + (row + ctx.skip_y + ctx.cursor_h) * ctx.stride < (row
        + ctx.skip_y + ctx.cursor_h + 1) * ctx.stride) by (nonlinear_arith)
        requires
            (col + ctx.skip_x) / 8 < ctx.stride,
            0 <= (col + ctx.skip_x) / 8,
            0 <= row + ctx.skip_y + ctx.cursor_h,
    ;
    assert(0 <= (col + ctx.skip_x) / 8) by {
        vstd::arithmetic::div_mod::lemma_div_pos_is_pos(col + ctx.skip_x, 8);
    }
    assert((ctx.top + row) * width + (ctx.left + col) < width * height) by (nonlinear_arith)
        requires
            0 <= ctx.top + row < height,
            0 <= ctx.left + col < width,
    ;
}

/// Blends a monochrome cursor shape into the desktop raster in place.
/// Every pixel under the clipped cursor rectangle takes the AND/XOR blend
/// of its two mask bits; every other pixel keeps its value, and writes
/// past the right or bottom raster edge are clipped pixel by pixel.
pub fn composite_monochrome(
    buf: &mut Vec<u32>,
    width: usize,
    height: usize,
    shape: &Vec<u8>,
    ctx: &DecodeContext,
)
    requires
        old(buf)@.len() == width * height,
        ctx.skip_x + ctx.cursor_w <= usize::MAX,
        mono_shape_fits(*ctx, shape@.len() as int),
    ensures
        final(buf)@.len() == old(buf)@.len(),
        forall|i: int|
            0 <= i < old(buf)@.len() ==> final(buf)@[i] == mono_pixel_at(
                old(buf)@,
                shape@,
                width as int,
                *ctx,
                i,
            ),
{
    let ghost d0 = old(buf)@;
    // Reading the lengths tells the prover both buffers fit the machine's
    // index range, which the loops below lean on.
    let _buf_len: usize = buf.len();
    let _shape_len: usize = shape.len();
    let rend: usize = row_span(ctx.top, ctx.cursor_h, height);
    let cend: usize = row_span(ctx.left, ctx.cursor_w, width);
    let mut row: usize = 0;
    while row < rend
        invariant
            row <= rend,
            d0.len() <= usize::MAX,
            rend == spec_span(ctx.top as int, ctx.cursor_h as int, height as int),
            cend == spec_span(ctx.left as int, ctx.cursor_w as int, width as int),
            d0.len() == width * height,
            buf@.len() == d0.len(),
            d0 == old(buf)@,
            ctx.skip_x + ctx.cursor_w <= usize::MAX,
            mono_shape_fits(*ctx, shape@.len() as int),
            shape@.len() <= usize::MAX,
            forall|i: int|
                0 <= i < d0.len() ==> buf@[i] == mono_partial(
                    d0,
                    shape@,
                    width as int,
                    *ctx,
                    row as int,
                    0,
                    i,
                ),
        decreases rend - row,
    {
        let mut col: usize = 0;
        while col < cend
            invariant
                col <= cend,
                row < rend,
                d0.len() <= usize::MAX,
                rend == spec_span(ctx.top as int, ctx.cursor_h as int, height as int),
                cend == spec_span(ctx.left as int, ctx.cursor_w as int, width as int),
                d0.len() == width * height,
                buf@.len() == d0.len(),
                d0 == old(buf)@,
                ctx.skip_x + ctx.cursor_w <= usize::MAX,
                mono_shape_fits(*ctx, shape@.len() as int),
                shape@.len() <= usize::MAX,
                forall|i: int|
                    0 <= i < d0.len() ==> buf@[i] == mono_partial(
                        d0,
                        shape@,
                        width as int,
                        *ctx,
                        row as int,
                        col as int,
                        i,
                    ),
            decreases cend - col,
        {
            proof {
                lemma_mono_bounds(
                    width as int,
                    height as int,
                    shape@.len() as int,
                    *ctx,
                    row as int,
                    col as int,
                );
            }
            let scol: usize = col + ctx.skip_x;
            let and_row: usize = row + ctx.skip_y;
            let xor_row: usize = row + ctx.skip_y + ctx.cursor_h;
            let mask: u8 = 0x80u8 >> ((scol % 8) as u32);
            let and_byte: u8 = shape[scol / 8 + and_row * ctx.stride];
            let xor_byte: u8 = shape[scol / 8 + xor_row * ctx.stride];
            let and_bit: bool = (and_byte & mask) != 0u8;
            let xor_bit: bool = (xor_byte & mask) != 0u8;
            let di: usize = (ctx.top + row) * width + (ctx.left + col);
            proof {
                assert(ctx.left + col < width && ctx.top + row < height);
                lemma_fundamental_div_mod_converse(
                    di as int,
                    width as int,
                    ctx.top + row,
                    ctx.left + col,
                );
                assert(rend <= ctx.cursor_h && cend <= ctx.cursor_w);
                assert(under_cursor(di as int, width as int, *ctx));
                assert(and_bit == mono_and_bit(shape@, width as int, *ctx, di as int));
                assert(xor_bit == mono_xor_bit(shape@, width as int, *ctx, di as int));
                assert(buf@[di as int] == mono_partial(
                    d0,
                    shape@,
                    width as int,
                    *ctx,
                    row as int,
                    col as int,
                    di as int,
                ));
                assert(buf@[di as int] == d0[di as int]);
            }
            let ghost pre = buf@;
            let desk: u32 = buf[di];
            let blended: u32 = (desk & (if and_bit {
                0xFFFFFFFFu32
            } else {
                0xFF000000u32
            })) ^ (if xor_bit {
                0x00FFFFFFu32
            } else {
                0x00000000u32
            });
            buf.set(di, blended);
            proof {
                assert(buf@[di as int] == mono_pixel_at(d0, shape@, width as int, *ctx, di as int));
                assert forall|i: int| 0 <= i < d0.len() implies buf@[i] == mono_partial(
                    d0,
                    shape@,
                    width as int,
                    *ctx,
                    row as int,
                    col as int + 1,
                    i,
                ) by {
                    lemma_fundamental_div_mod(i, width as int);
                    if i != di as int {
                        assert(buf@[i] == pre[i]);
                        assert(pre[i] == mono_partial(
                            d0,
                            shape@,
                            width as int,
                            *ctx,
                            row as int,
                            col as int,
                            i,
                        ));
                        if under_cursor(i, width as int, *ctx) && i / (width as int) - ctx.top
                            == row && i % (width as int) - ctx.left == col {
                            assert(i == (width as int) * (i / (width as int)) + i % (width as int));
                            assert((width as int) * (ctx.top + row) == (ctx.top + row) * (
                            width as int)) by (nonlinear_arith);
                            assert(i == di as int);
                            assert(false);
                        }
                    }
                }
            }
            col = col + 1;
        }
        proof {
            lemma_row_done(
                d0.len() as int,
                width as int,
                height as int,
                *ctx,
                row as int,
                cend as int,
            );
            assert forall|i: int| 0 <= i < d0.len() implies buf@[i] == mono_partial(
                d0,
                shape@,
                width as int,
                *ctx,
                row as int + 1,
                0,
                i,
            ) by {
                assert(buf@[i] == mono_partial(
                    d0,
                    shape@,
                    width as int,
                    *ctx,
                    row as int,
                    cend as int,
                    i,
                ));
            }
        }
        row = row + 1;
    }
    proof {
        lemma_all_rows_done(d0.len() as int, width as int, height as int, *ctx, rend as int);
        assert forall|i: int| 0 <= i < d0.len() implies buf@[i] == mono_pixel_at(
            d0,
            shape@,
            width as int,
            *ctx,
            i,
        ) by {
            assert(buf@[i] == mono_partial(d0, shape@, width as int, *ctx, rend as int, 0, i));
        }
    }
}

/// How many cursor rows (or columns) starting at clamped offset `origin`
/// actually land on a raster extent of `limit` pixels: the cursor extent,
/// cut down to what is left of the raster past `origin`.
pub open spec fn spec_span(origin: int, extent: int, limit: int) -> int {
    if origin >= limit {
        0
    } else if extent < limit - origin {
        extent
    } else {
        limit - origin
    }
}

/// Computes `spec_span` on machine integers.
fn row_span(origin: usize, extent: usize, limit: usize) -> (r: usize)
    ensures
        r == spec_span(origin as int, extent as int, limit as int),
        r <= extent,
        origin < limit ==> origin + r <= limit,
{
    if origin >= limit {
        0
    } else if extent < limit - origin {
        extent
    } else {
        limit - origin
    }
}

/// Every shape and raster index the composite loops touch at position
/// `(row, col)` is in bounds and overflows nothing.
proof fn lemma_blit_bounds(
    width: int,
    height: int,
    shape_len: int,
    ctx: DecodeContext,
    row: int,
    col: int,
)
    requires
        ctx.skip_x + ctx.cursor_w <= ctx.stride,
        (ctx.skip_y + ctx.cursor_h) * ctx.stride <= shape_len,
        0 <= row < spec_span(ctx.top as int, ctx.cursor_h as int, height),
        0 <= col < spec_span(ctx.left as int, ctx.cursor_w as int, width),
    ensures
        1 <= ctx.stride,
        col + ctx.skip_x < ctx.stride,
        row + ctx.skip_y < ctx.skip_y + ctx.cursor_h,
        (row + ctx.skip_y) * ctx.stride <= shape_len,
        row + ctx.skip_y <= shape_len,
        (col + ctx.skip_x) + (row + ctx.skip_y) * ctx.stride < shape_len,
        ctx.top + row < height,
        ctx.left + col < width,
        (ctx.top + row) * width + (ctx.left + col) < width * height,
{
    assert((row + ctx.skip_y) * ctx.stride <= shape_len && row + ctx.skip_y <= shape_len)
        by (nonlinear_arith)
        requires
            0 <= row < ctx.cursor_h,
            0 <= ctx.skip_y,
            1 <= ctx.stride,
            (ctx.skip_y + ctx.cursor_h) * ctx.stride <= shape_len,
    ;
    assert((col + ctx.skip_x) + (row + ctx.skip_y) * ctx.stride < (ctx.skip_y + ctx.cursor_h)
        * ctx.stride) by (nonlinear_arith)
        requires
            0 <= col,
            0 <= row,
            col + ctx.skip_x < ctx.stride,
            row < ctx.cursor_h,
            0 <= ctx.skip_y,
            0 <= ctx.stride,
    ;
    assert((ctx.top + row) * width + (ctx.left + col) < width * height) by (nonlinear_arith)
        requires
            0 <= ctx.top + row < height,
            0 <= ctx.left + col < width,
    ;
}

/// After the last cursor column of a row, every pixel of that raster row
/// that lies under the cursor has been reached: the column span covers all
/// cursor columns that are on the raster at all.
proof fn lemma_row_done(len: int, width: int, height: int, ctx: DecodeContext, row: int, cend: int)
    requires
        0 <= width,
        len == width * height,
        cend == spec_span(ctx.left as int, ctx.cursor_w as int, width),
    ensures
        forall|i: int|
            0 <= i < len && #[trigger] under_cursor(i, width, ctx) && i / width - ctx.top == row
                ==> i % width - ctx.left < cend,
{
    assert forall|i: int|
        0 <= i < len && #[trigger] under_cursor(i, width, ctx) && i / width - ctx.top
            == row implies i % width - ctx.left < cend by {
        assert(width > 0) by (nonlinear_arith)
            requires
                0 <= i < len,
                0 <= width,
                len == width * height,
        ;
        lemma_mod_bound(i, width);
    }
}

/// After the last cursor row, every raster pixel under the cursor has been
/// reached: the row span covers all cursor rows that are on the raster.
proof fn lemma_all_rows_done(len: int, width: int, height: int, ctx: DecodeContext, rend: int)
    requires
        0 <= width,
        len == width * height,
        rend == spec_span(ctx.top as int, ctx.cursor_h as int, height),
    ensures
        forall|i: int|
            0 <= i < len && #[trigger] under_cursor(i, width, ctx) ==> i / width - ctx.top < rend,
{
    assert forall|i: int|
        0 <= i < len && #[trigger] under_cursor(i, width, ctx) implies i / width - ctx.top
            < rend by {
        assert(width > 0) by (nonlinear_arith)
            requires
                0 <= i < len,
                0 <= width,
                len == width * height,
        ;
        lemma_multiply_divide_lt(i, width, height);
    }
}

/// A nonneg multiple fits under a bound exactly when the factor fits under
/// the bound divided by the multiplier.
proof fn lemma_cap_mul(a: int, s: int, l: int)
    requires
        1 <= s,
        0 <= a,
        0 <= l,
    ensures
        (a <= l / s) <==> (a * s <= l),
{
    if a <= l / s {
        lemma_mul_inequality(a, l / s, s);
        lemma_fundamental_div_mod(l, s);
        lemma_mod_bound(l, s);
        assert(s * (l / s) == (l / s) * s) by (nonlinear_arith);
    }
    if a * s <= l {
        lemma_div_is_ordered(a * s, l, s);
        lemma_div_multiples_vanish(a, s);
        assert(a * s == s * a) by (nonlinear_arith);
    }
}

/// Decides on machine integers whether a packed color shape payload of
/// `shape_len` pixels covers every read of a color or masked-color pass.
fn color_fits_check(ctx: &DecodeContext, shape_len: usize) -> (b: bool)
    ensures
        b == color_shape_fits(*ctx, shape_len as int),
{
    let cols_ok: bool = ctx.cursor_w <= ctx.stride && ctx.skip_x <= ctx.stride - ctx.cursor_w;
    let rows_ok: bool = if ctx.stride == 0 {
        true
    } else {
        let cap: usize = shape_len / ctx.stride;
        proof {
            lemma_cap_mul(
                ctx.skip_y as int + ctx.cursor_h as int,
                ctx.stride as int,
                shape_len as int,
            );
        }
        ctx.cursor_h <= cap && ctx.skip_y <= cap - ctx.cursor_h
    };
    cols_ok && rows_ok
}

/// Whether a monochrome pass may run at all: the mask payload covers every
/// read, and the clipped column range stays within the machine's index
/// range.
pub open spec fn mono_pass_fits(ctx: DecodeContext, shape_len: int) -> bool {
    &&& mono_shape_fits(ctx, shape_len)
    &&& ctx.skip_x + ctx.cursor_w <= usize::MAX
}

/// Decides `mono_pass_fits` on machine integers.
fn mono_fits_check(ctx: &DecodeContext, shape_len: usize) -> (b: bool)
    ensures
        b == mono_pass_fits(*ctx, shape_len as int),
{
    let cols_ok: bool = (ctx.skip_x as u128) + (ctx.cursor_w as u128) <= 8u128 * (
    ctx.stride as u128) && (ctx.skip_x as u128) + (ctx.cursor_w as u128) <= (usize::MAX as u128);
    let rows_ok: bool = if ctx.stride == 0 {
        true
    } else {
        let cap: usize = shape_len / ctx.stride;
        proof {
            lemma_cap_mul(
                ctx.skip_y as int + 2 * (ctx.cursor_h as int),
                ctx.stride as int,
                shape_len as int,
            );
        }
        (ctx.skip_y as u128) + 2u128 * (ctx.cursor_h as u128) <= (cap as u128)
    };
    cols_ok && rows_ok
}

/// Composites the hardware cursor onto a packed top-down BGRA byte raster
/// of `desktop_width` by `desktop_height` pixels, picking the blend rule
/// the shape's type tag calls for, and returns the raster.
///
/// The raster is left untouched when the type tag is unrecognized, and
/// likewise when the declared shape dimensions do not fit inside the
/// payload that came with them: an absent or malformed overlay is a no-op,
/// never an error. The cursor position may be negative; the clipped part
/// of the shape is skipped, and writes past the raster's edges are
/// dropped pixel by pixel.
pub fn draw_mouse(
    shape_buffer: &Vec<u8>,
    meta: &FrameMetadata,
    info: &CursorShapeInfo,
    desktop_width: u32,
    desktop_height: u32,
    buf: Vec<u8>,
) -> (r: Vec<u8>)
    requires
        buf@.len() == 4 * desktop_width * desktop_height,
    ensures
        r@.len() == buf@.len(),
        classify_of(info.shape_type) is None ==> r@ == buf@,
        classify_of(info.shape_type) == Some(CursorShapeKind::Monochrome) ==> ({
            let ctx = mono_ctx_of(*info, placement_of(meta.cursor_x, meta.cursor_y));
            if mono_pass_fits(ctx, shape_buffer@.len() as int) {
                forall|i: int|
                    0 <= i < pixels_of(buf@).len() ==> pixels_of(r@)[i] == mono_pixel_at(
                        pixels_of(buf@),
                        shape_buffer@,
                        desktop_width as int,
                        ctx,
                        i,
                    )
            } else {
                r@ == buf@
            }
        }),
        classify_of(info.shape_type) == Some(CursorShapeKind::Color) ==> ({
            let ctx = color_ctx_of(*info, placement_of(meta.cursor_x, meta.cursor_y));
            if shape_buffer@.len() % 4 == 0 && color_shape_fits(
                ctx,
                shape_buffer@.len() as int / 4,
            ) {
                forall|i: int|
                    0 <= i < pixels_of(buf@).len() ==> pixels_of(r@)[i] == color_pixel_at(
                        pixels_of(buf@),
                        pixels_of(shape_buffer@),
                        desktop_width as int,
                        ctx,
                        i,
                    )
            } else {
                r@ == buf@
            }
        }),
        classify_of(info.shape_type) == Some(CursorShapeKind::MaskedColor) ==> ({
            let ctx = color_ctx_of(*info, placement_of(meta.cursor_x, meta.cursor_y));
            if shape_buffer@.len() % 4 == 0 && color_shape_fits(
                ctx,
                shape_buffer@.len() as int / 4,
            ) {
                forall|i: int|
                    0 <= i < pixels_of(buf@).len() ==> pixels_of(r@)[i] == masked_pixel_at(
                        pixels_of(buf@),
                        pixels_of(shape_buffer@),
                        desktop_width as int,
                        ctx,
                        i,
                    )
            } else {
                r@ == buf@
            }
        }),
{
    let p = cursor_placement(meta.cursor_x, meta.cursor_y);
    let w: usize = desktop_width as usize;
    let h: usize = desktop_height as usize;
    proof {
        let k = (desktop_width as int) * (desktop_height as int);
        assert(4 * (desktop_width as int) * (desktop_height as int) == 4 * k && (w as int) * (
        h as int) == k && 4 * k == k * 4) by (nonlinear_arith)
            requires
                k == (desktop_width as int) * (desktop_height as int),
                w == desktop_width as int,
                h == desktop_height as int,
        ;
        vstd::arithmetic::div_mod::lemma_div_multiples_vanish(k, 4);
        vstd::arithmetic::div_mod::lemma_mod_multiples_basic(k, 4);
        assert(buf@.len() % 4 == 0 && buf@.len() / 4 == w * h);
    }
    match decode_context(info, &p) {
        None => buf,
        Some((CursorShapeKind::Monochrome, ctx)) => {
            if mono_fits_check(&ctx, shape_buffer.len()) {
                let mut buf32 = vec8_to_vec32(&buf);
                composite_monochrome(&mut buf32, w, h, shape_buffer, &ctx);
                let out = vec32_to_vec8(&buf32);
                proof {
                    lemma_pixels_of_bytes_of(buf32@);
                    assert(out@.len() == buf@.len());
                }
                out
            } else {
                buf
            }
        },
        Some((CursorShapeKind::Color, ctx)) => {
            if shape_buffer.len() % 4 == 0 && color_fits_check(&ctx, shape_buffer.len() / 4) {
                let shape32 = vec8_to_vec32(shape_buffer);
                let mut buf32 = vec8_to_vec32(&buf);
                composite_color(&mut buf32, w, h, &shape32, &ctx);
                let out = vec32_to_vec8(&buf32);
                proof {
                    lemma_pixels_of_bytes_of(buf32@);
                    assert(out@.len() == buf@.len());
                }
                out
            } else {
                buf
            }
        },
        Some((CursorShapeKind::MaskedColor, ctx)) => {
            if shape_buffer.len() % 4 == 0 && color_fits_check(&ctx, shape_buffer.len() / 4) {
                let shape32 = vec8_to_vec32(shape_buffer);
                let mut buf32 = vec8_to_vec32(&buf);
                composite_masked_color(&mut buf32, w, h, &shape32, &ctx);
                let out = vec32_to_vec8(&buf32);
                proof {
                    lemma_pixels_of_bytes_of(buf32@);
                    assert(out@.len() == buf@.len());
                }
                out
            } else {
                buf
            }
        },
    }
}

/// A monochrome blend with the AND bit set and the XOR bit clear is the
/// identity on the desktop pixel: this pixel of the cursor is fully
/// transparent.
pub proof fn lemma_mono_blend_transparent(desktop: u32)
    ensures
        mono_blend(desktop, true, false) == desktop,
{
    assert((desktop & 0xFFFFFFFFu32) ^ 0x00000000u32 == desktop) by (bit_vector);
}

/// A monochrome blend with both bits set inverts the RGB channels of the
/// desktop pixel and leaves its alpha channel alone; an opaque pixel stays
/// opaque.
pub proof fn lemma_mono_blend_invert(desktop: u32)
    ensures
        mono_blend(desktop, true, true) == desktop ^ 0x00FFFFFFu32,
        mono_blend(desktop, true, true) & 0xFF000000u32 == desktop & 0xFF000000u32,
{
    assert((desktop & 0xFFFFFFFFu32) ^ 0x00FFFFFFu32 == desktop ^ 0x00FFFFFFu32) by (bit_vector);
    assert((desktop ^ 0x00FFFFFFu32) & 0xFF000000u32 == desktop & 0xFF000000u32) by (bit_vector);
}

/// A monochrome blend with the AND bit clear ignores the desktop RGB
/// channels: the result is opaque black XOR-ed with the XOR bit's mask,
/// whatever the desktop pixel held in them.
pub proof fn lemma_mono_blend_opaque_black(desktop: u32, xor_bit: bool)
    requires
        desktop & 0xFF000000u32 == 0xFF000000u32,
    ensures
        mono_blend(desktop, false, xor_bit) == (if xor_bit {
            0xFFFFFFFFu32
        } else {
            0xFF000000u32
        }),
{
    assert((desktop & 0xFF000000u32) ^ 0x00FFFFFFu32 == 0xFFFFFFFFu32 && (desktop
        & 0xFF000000u32) ^ 0x00000000u32 == 0xFF000000u32) by (bit_vector)
        requires
            desktop & 0xFF000000u32 == 0xFF000000u32,
    ;
}

/// A masked-color blend with mask byte zero yields the shape pixel forced
/// opaque, whatever the desktop pixel was.
pub proof fn lemma_masked_blend_unmasked(desktop: u32, cursor: u32)
    requires
        cursor & 0xFF000000u32 == 0u32,
    ensures
        masked_blend(desktop, cursor) == cursor | 0xFF000000u32,
{
}

/// A masked-color blend with a non-zero mask byte inverts the underlying
/// desktop content against the shape pixel and forces it opaque.
pub proof fn lemma_masked_blend_masked(desktop: u32, cursor: u32)
    requires
        cursor & 0xFF000000u32 != 0u32,
    ensures
        masked_blend(desktop, cursor) == (desktop ^ cursor) | 0xFF000000u32,
        masked_blend(desktop, cursor) & 0xFF000000u32 == 0xFF000000u32,
{
    assert(((desktop ^ cursor) | 0xFF000000u32) & 0xFF000000u32 == 0xFF000000u32) by (bit_vector);
}

/// A color blend never invents pixels: the result is either the desktop
/// pixel or the shape pixel, and the transparent sentinel always keeps the
/// desktop pixel.
pub proof fn lemma_color_blend_cases(desktop: u32, cursor: u32)
    ensures
        color_blend(desktop, 0u32) == desktop,
        cursor != 0u32 ==> color_blend(desktop, cursor) == cursor,
{
}

} // verus!
