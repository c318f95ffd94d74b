//! The parts of tiny_skia that the canvas relies on, with what each is trusted to do.
use vstd::prelude::*;
use tiny_skia::{BlendMode, Transform};
use crate::canvas::pixel_offset;
use crate::color::premul;

verus! {

/// tiny_skia's affine transform, carried as an opaque value.
#[verifier::external_type_specification]
#[verifier::external_body]
pub struct ExTransform(tiny_skia::Transform);

/// Relies on tiny_skia::Transform::identity, the map that moves no point.
pub assume_specification[ tiny_skia::Transform::identity ]() -> Transform;

/// tiny_skia's blend modes, a plain enumeration.
#[verifier::external_type_specification]
pub struct ExBlendMode(tiny_skia::BlendMode);

/// tiny_skia's line caps, a plain enumeration.
#[verifier::external_type_specification]
pub struct ExLineCap(tiny_skia::LineCap);

/// tiny_skia's line joins, a plain enumeration.
#[verifier::external_type_specification]
pub struct ExLineJoin(tiny_skia::LineJoin);

/// Whether tiny_skia accepts a buffer of `len` bytes as a `w`-by-`h` pixmap:
/// both sizes nonzero, a row of `4 * w` bytes within `i32`, and room for all rows.
pub open spec fn pixmap_fits(len: int, w: u32, h: u32) -> bool {
    &&& 0 < w
    &&& 0 < h
    &&& 4 * w <= i32::MAX
    &&& 4 * w * h <= len
}

/// Channel `k` (red, green, blue) of a colour.
pub open spec fn channel_of(r: u8, g: u8, b: u8, k: int) -> u8 {
    if k == 0 { r } else if k == 1 { g } else { b }
}

/// Whether tiny_skia draws the integer rectangle (x, y, rw, rh) with exactly
/// these edges: an empty rectangle draws nothing, and a nonempty one whose
/// edges lie within 2^24 of the origin converts to `f32` without rounding.
pub open spec fn f32_exact_rect(x: int, y: int, rw: int, rh: int) -> bool {
    rw <= 0 || rh <= 0 || (-0x100_0000 <= x && rw <= 0x100_0000 && x + rw <= 0x100_0000 && -0x100_0000 <= y
        && rh <= 0x100_0000 && y + rh <= 0x100_0000)
}

/// Every byte of a `w`-by-`h` buffer outside the rectangle (x, y, rw, rh) is
/// the same in `new` as in `old`.
pub open spec fn frame_kept(old: Seq<u8>, new: Seq<u8>, w: int, h: int, x: int, y: int, rw: int, rh: int) -> bool {
    forall|px: int, py: int, c: int|
        #![trigger new[pixel_offset(w, px, py) + c]]
        0 <= px < w && 0 <= py < h && 0 <= c < 4 && !(x <= px < x + rw && y <= py < y + rh)
            ==> new[pixel_offset(w, px, py) + c] == old[pixel_offset(w, px, py) + c]
}

/// Relies on tiny_skia::PixmapMut::from_bytes (which accepts exactly the buffers
/// that `pixmap_fits` describes) and PixmapMut::fill, which writes
/// Color::from_rgba8(r, g, b, a) premultiplied into every pixel of the buffer.
/// The premultiplication runs in `f32` and rounds to nearest; `c * a / 255` is
/// never within 1/510 of a half, far beyond the `f32` error, so each channel is
/// `premul(c, a)`.
#[verifier::external_body]
pub(crate) fn skia_fill(pixels: &mut [u8], w: u32, h: u32, r: u8, g: u8, b: u8, a: u8)
    requires
        old(pixels)@.len() == 4 * w * h,
    ensures
        final(pixels)@.len() == old(pixels)@.len(),
        pixmap_fits(old(pixels)@.len() as int, w, h) ==> forall|i: int|
            0 <= i < old(pixels)@.len() ==> #[trigger] final(pixels)@[i] == if i % 4 == 3 {
                a
            } else {
                premul(channel_of(r, g, b, i % 4), a)
            },
        !pixmap_fits(old(pixels)@.len() as int, w, h) ==> final(pixels)@ == old(pixels)@,
{
    if let Some(mut pm) = tiny_skia::PixmapMut::from_bytes(pixels, w, h) {
        pm.fill(tiny_skia::Color::from_rgba8(r, g, b, a));
    }
}

/// The bytes of a `w`-by-`h` pixmap after tiny_skia fills, without antialiasing
/// and with the identity transform, the integer rectangle (x, y, rw, rh) with
/// straight colour (r, g, b, a) under `blend`.
pub uninterp spec fn skia_rect_filled(
    p: Seq<u8>,
    w: u32,
    h: u32,
    x: i32,
    y: i32,
    rw: i32,
    rh: i32,
    r: u8,
    g: u8,
    b: u8,
    a: u8,
    blend: BlendMode,
) -> Seq<u8>;

/// Relies on tiny_skia::IntRect::from_xywh, IntRect::to_rect and PixmapMut::fill_rect with an
/// unantialiased paint of the given colour and blend mode: the result depends on
/// these values alone, keeps the buffer's length, and is no change where
/// PixmapMut::from_bytes refuses the buffer. The rectangle is rounded to whole
/// pixels and clipped to the pixmap before anything is written, so where its
/// edges convert to `f32` exactly no pixel outside it changes.
#[verifier::external_body]
pub(crate) fn skia_fill_rect(
    pixels: &mut [u8],
    w: u32,
    h: u32,
    x: i32,
    y: i32,
    rw: i32,
    rh: i32,
    r: u8,
    g: u8,
    b: u8,
    a: u8,
    blend: BlendMode,
)
    requires
        old(pixels)@.len() == 4 * w * h,
    ensures
        final(pixels)@ == skia_rect_filled(old(pixels)@, w, h, x, y, rw, rh, r, g, b, a, blend),
        final(pixels)@.len() == old(pixels)@.len(),
        f32_exact_rect(x as int, y as int, rw as int, rh as int) ==> frame_kept(
            old(pixels)@,
            final(pixels)@,
            w as int,
            h as int,
            x as int,
            y as int,
            rw as int,
            rh as int,
        ),
        !pixmap_fits(old(pixels)@.len() as int, w, h) ==> final(pixels)@ == old(pixels)@,
{
    let rect = tiny_skia::IntRect::from_xywh(x, y, rw as u32, rh as u32);
    if let (Some(rect), Some(mut pm)) = (rect, tiny_skia::PixmapMut::from_bytes(pixels, w, h)) {
        let mut paint = tiny_skia::Paint::default();
        paint.set_color_rgba8(r, g, b, a);
        paint.blend_mode = blend;
        paint.anti_alias = false;
        pm.fill_rect(rect.to_rect(), &paint, Transform::identity(), None);
    }
}

/// The bytes of a `w`-by-`h` pixmap after tiny_skia draws the premultiplied
/// `sw`-by-`sh` pixmap `src` at (x, y) under `blend`, untransformed, at full
/// opacity and with nearest-pixel sampling.
pub uninterp spec fn skia_pixmap_drawn(
    dst: Seq<u8>,
    w: u32,
    h: u32,
    src: Seq<u8>,
    sw: u32,
    sh: u32,
    x: i32,
    y: i32,
    blend: BlendMode,
) -> Seq<u8>;

/// Relies on tiny_skia::PixmapRef::from_bytes, PixmapMut::from_bytes and
/// PixmapMut::draw_pixmap with a default PixmapPaint (opacity one, nearest
/// sampling) of the given blend mode: the result depends on these values alone,
/// keeps the buffer's length, and is no change where either buffer is refused.
/// It fills the rectangle `IntSize::to_int_rect(x, y)` of the source's size,
/// which panics unless `x + sw` and `y + sh` fit in `i32`; where its edges
/// convert to `f32` exactly no pixel outside it changes.
#[verifier::external_body]
pub(crate) fn skia_draw_pixmap(
    dst: &mut [u8],
    w: u32,
    h: u32,
    src: &[u8],
    sw: u32,
    sh: u32,
    x: i32,
    y: i32,
    blend: BlendMode,
)
    requires
        old(dst)@.len() == 4 * w * h,
        src@.len() == 4 * sw * sh,
        x + sw <= i32::MAX,
        y + sh <= i32::MAX,
    ensures
        final(dst)@ == skia_pixmap_drawn(old(dst)@, w, h, src@, sw, sh, x, y, blend),
        final(dst)@.len() == old(dst)@.len(),
        f32_exact_rect(x as int, y as int, sw as int, sh as int) ==> frame_kept(
            old(dst)@,
            final(dst)@,
            w as int,
            h as int,
            x as int,
            y as int,
            sw as int,
            sh as int,
        ),
        !(pixmap_fits(old(dst)@.len() as int, w, h) && pixmap_fits(src@.len() as int, sw, sh))
            ==> final(dst)@ == old(dst)@,
{
    let src_pm = tiny_skia::PixmapRef::from_bytes(src, sw, sh);
    if let (Some(src_pm), Some(mut pm)) = (src_pm, tiny_skia::PixmapMut::from_bytes(dst, w, h)) {
        let mut paint = tiny_skia::PixmapPaint::default();
        paint.blend_mode = blend;
        pm.draw_pixmap(x, y, src_pm, &paint, Transform::identity(), None);
    }
}

} // verus!
