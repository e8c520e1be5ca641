use vstd::prelude::*;

verus! {

/// Shape-type tag value the duplication driver reports for a monochrome
/// (1-bit AND/XOR mask pair) pointer shape.
pub const SHAPE_TYPE_MONOCHROME: u32 = 1;

/// Shape-type tag value for a direct packed-BGRA color pointer shape.
pub const SHAPE_TYPE_COLOR: u32 = 2;

/// Shape-type tag value for a packed-BGRA shape with an alpha-like mask
/// byte per pixel.
pub const SHAPE_TYPE_MASKED_COLOR: u32 = 4;

/// The three cursor-shape encodings a duplication driver may report.
#[derive(Clone, Copy, Debug, PartialEq, Eq, Structural)]
pub enum CursorShapeKind {
    Monochrome,
    Color,
    MaskedColor,
}

/// Dimensions and row pitch of a raw cursor-shape payload, together with
/// the driver's type tag. Valid only alongside its companion payload bytes;
/// `pitch` counts bytes per payload row and may exceed `width` times the
/// bytes per pixel.
#[derive(Clone, Copy, Debug, PartialEq, Eq, Structural)]
pub struct CursorShapeInfo {
    pub shape_type: u32,
    pub width: u32,
    pub height: u32,
    pub pitch: u32,
}

/// Screen placement of the cursor shape for one frame: the top-left corner
/// clamped to the raster, and how many shape columns and rows already hang
/// off the left and top screen edges.
#[derive(Clone, Copy, Debug, PartialEq, Eq, Structural)]
pub struct CursorPlacement {
    pub left: u32,
    pub top: u32,
    pub skip_x: u32,
    pub skip_y: u32,
}

/// The placement a cursor position yields: coordinates are clamped to zero
/// and the clipped-off amount is carried as the skip.
pub open spec fn placement_of(x: i32, y: i32) -> CursorPlacement {
    CursorPlacement {
        left: if x < 0 { 0u32 } else { x as u32 },
        top: if y < 0 { 0u32 } else { y as u32 },
        skip_x: if x < 0 { (-(x as int)) as u32 } else { 0u32 },
        skip_y: if y < 0 { (-(y as int)) as u32 } else { 0u32 },
    }
}

/// Computes where a cursor at screen position `(x, y)` lands on the raster:
/// `left` and `top` are the position clamped to zero, and `skip_x` and
/// `skip_y` count the shape columns and rows that hang off the left and top
/// edges and must be skipped when the shape payload is read. The shape is
/// never addressed at a negative offset.
pub fn cursor_placement(x: i32, y: i32) -> (p: CursorPlacement)
    ensures
        p == placement_of(x, y),
        p.left == (if x < 0 { 0int } else { x as int }),
        p.top == (if y < 0 { 0int } else { y as int }),
        p.skip_x == (if x < 0 { -(x as int) } else { 0int }),
        p.skip_y == (if y < 0 { -(y as int) } else { 0int }),
{
    let left: u32 = if x < 0 { 0 } else { x as u32 };
    let top: u32 = if y < 0 { 0 } else { y as u32 };
    let skip_x: u32 = if x < 0 { (-(x as i64)) as u32 } else { 0 };
    let skip_y: u32 = if y < 0 { (-(y as i64)) as u32 } else { 0 };
    CursorPlacement { left, top, skip_x, skip_y }
}

/// The kind a driver type tag stands for; tags outside the three known
/// encodings classify as nothing and yield an empty composite downstream.
pub open spec fn classify_of(shape_type: u32) -> Option<CursorShapeKind> {
    if shape_type == SHAPE_TYPE_MONOCHROME {
        Some(CursorShapeKind::Monochrome)
    } else if shape_type == SHAPE_TYPE_COLOR {
        Some(CursorShapeKind::Color)
    } else if shape_type == SHAPE_TYPE_MASKED_COLOR {
        Some(CursorShapeKind::MaskedColor)
    } else {
        None
    }
}

/// Classifies a driver shape-type tag into one of the three encodings, or
/// nothing for an unrecognized tag.
pub fn classify_shape(shape_type: u32) -> (k: Option<CursorShapeKind>)
    ensures
        k == classify_of(shape_type),
{
    if shape_type == SHAPE_TYPE_MONOCHROME {
        Some(CursorShapeKind::Monochrome)
    } else if shape_type == SHAPE_TYPE_COLOR {
        Some(CursorShapeKind::Color)
    } else if shape_type == SHAPE_TYPE_MASKED_COLOR {
        Some(CursorShapeKind::MaskedColor)
    } else {
        None
    }
}

/// Everything one composite pass needs to address the shape payload and the
/// raster: the effective cursor extent in pixels, the payload row stride
/// (bytes for a monochrome shape, pixels for a color one), and the clipped
/// placement.
#[derive(Clone, Copy, Debug, PartialEq, Eq, Structural)]
pub struct DecodeContext {
    pub cursor_w: usize,
    pub cursor_h: usize,
    pub stride: usize,
    pub left: usize,
    pub top: usize,
    pub skip_x: usize,
    pub skip_y: usize,
}

/// The decode context of a monochrome shape: the payload stacks the AND
/// mask above the XOR mask, so the effective cursor height is half the
/// reported shape height, and the stride is the payload pitch in bytes.
pub open spec fn mono_ctx_of(info: CursorShapeInfo, p: CursorPlacement) -> DecodeContext {
    DecodeContext {
        cursor_w: info.width as usize,
        cursor_h: (info.height / 2) as usize,
        stride: info.pitch as usize,
        left: p.left as usize,
        top: p.top as usize,
        skip_x: p.skip_x as usize,
        skip_y: p.skip_y as usize,
    }
}

/// The decode context of a color or masked-color shape: the payload is
/// packed 32-bit BGRA, so the stride is the pitch in pixels.
pub open spec fn color_ctx_of(info: CursorShapeInfo, p: CursorPlacement) -> DecodeContext {
    DecodeContext {
        cursor_w: info.width as usize,
        cursor_h: info.height as usize,
        stride: (info.pitch / 4) as usize,
        left: p.left as usize,
        top: p.top as usize,
        skip_x: p.skip_x as usize,
        skip_y: p.skip_y as usize,
    }
}

/// Classifies a shape and computes its decode context for the given
/// placement; an unrecognized type tag yields nothing.
pub fn decode_context(info: &CursorShapeInfo, p: &CursorPlacement) -> (r: Option<
    (CursorShapeKind, DecodeContext),
>)
    ensures
        classify_of(info.shape_type) is None ==> r is None,
        classify_of(info.shape_type) == Some(CursorShapeKind::Monochrome) ==> r == Some(
            (CursorShapeKind::Monochrome, mono_ctx_of(*info, *p)),
        ),
        classify_of(info.shape_type) == Some(CursorShapeKind::Color) ==> r == Some(
            (CursorShapeKind::Color, color_ctx_of(*info, *p)),
        ),
        classify_of(info.shape_type) == Some(CursorShapeKind::MaskedColor) ==> r == Some(
            (CursorShapeKind::MaskedColor, color_ctx_of(*info, *p)),
        ),
{
    match classify_shape(info.shape_type) {
        None => None,
        Some(CursorShapeKind::Monochrome) => Some(
            (
                CursorShapeKind::Monochrome,
                DecodeContext {
                    cursor_w: info.width as usize,
                    cursor_h: (info.height / 2) as usize,
                    stride: info.pitch as usize,
                    left: p.left as usize,
                    top: p.top as usize,
                    skip_x: p.skip_x as usize,
                    skip_y: p.skip_y as usize,
                },
            ),
        ),
        Some(k) => Some(
            (
                k,
                DecodeContext {
                    cursor_w: info.width as usize,
                    cursor_h: info.height as usize,
                    stride: (info.pitch / 4) as usize,
                    left: p.left as usize,
                    top: p.top as usize,
                    skip_x: p.skip_x as usize,
                    skip_y: p.skip_y as usize,
                },
            ),
        ),
    }
}

} // verus!
