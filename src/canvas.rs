//! A canvas over a caller-owned premultiplied RGBA8 pixel buffer: direct pixel
//! access, scrolling, the graphics-state stack and the integer-grid fills.
use vstd::prelude::*;
use vstd::arithmetic::div_mod::lemma_fundamental_div_mod;
use tiny_skia::Transform;
use tiny_skia::BlendMode;
use crate::color::{premul, unpremul, pack, unpack, premultiply, unpremultiply, rgba_to_hex};
use crate::skia::{channel_of, f32_exact_rect, frame_kept, skia_rect_filled, skia_pixmap_drawn, skia_fill, skia_fill_rect, skia_draw_pixmap};

verus! {

/// A saved graphics state: the transform and, if a clip is set, its coverage bytes.
pub struct FrameState {
    pub ctm: Transform,
    pub clip_data: Option<Vec<u8>>,
}

/// What a canvas holds, as plain values.
pub struct FrameView {
    pub pixels: Seq<u8>,
    pub w: int,
    pub h: int,
    pub cx: int,
    pub cy: int,
    pub antialias: bool,
    pub ctm: Transform,
    pub clip: Option<Seq<u8>>,
    pub stack: Seq<(Transform, Option<Seq<u8>>)>,
}

impl FrameView {
    /// The buffer holds exactly `w * h` pixels of four bytes, small enough for
    /// `i32` offsets, and every clip mask covers the whole canvas.
    pub open spec fn wf(&self) -> bool {
        &&& 0 <= self.w
        &&& 0 <= self.h
        &&& self.pixels.len() == 4 * self.w * self.h
        &&& 4 * self.w * self.h <= i32::MAX
        &&& clip_fits(self.clip, self.w * self.h)
        &&& forall|k: int| 0 <= k < self.stack.len() ==> clip_fits(#[trigger] self.stack[k].1, self.w * self.h)
    }

    /// Whether (x, y) is a pixel of the canvas.
    pub open spec fn in_bounds(&self, x: int, y: int) -> bool {
        0 <= x < self.w && 0 <= y < self.h
    }
}

/// Whether a clip mask, if any, holds `n` coverage bytes.
pub open spec fn clip_fits(clip: Option<Seq<u8>>, n: int) -> bool {
    match clip {
        Some(m) => m.len() == n,
        None => true,
    }
}

/// Byte offset of pixel (x, y) in a buffer `w` pixels wide.
pub open spec fn pixel_offset(w: int, x: int, y: int) -> int {
    (y * w + x) * 4
}

/// The straight 0xRRGGBBAA colour stored at (x, y); zero outside the canvas or
/// where alpha is zero.
pub open spec fn pixel_value(p: Seq<u8>, w: int, h: int, x: int, y: int) -> u32 {
    let o = pixel_offset(w, x, y);
    if 0 <= x < w && 0 <= y < h && p[o + 3] != 0 {
        pack(
            unpremul(p[o], p[o + 3]),
            unpremul(p[o + 1], p[o + 3]),
            unpremul(p[o + 2], p[o + 3]),
            p[o + 3],
        )
    } else {
        0
    }
}

/// Where the byte at index `i` comes from when a `w`-by-`h` buffer is shifted by
/// (dx, dy) pixels; `None` where a revealed edge is cleared.
pub open spec fn scroll_source(w: int, h: int, dx: int, dy: int, i: int) -> Option<int> {
    let x = (i / 4) % w;
    let y = (i / 4) / w;
    let sx = x - dx;
    let sy = y - dy;
    if 0 <= sx < w && 0 <= sy < h {
        Some(pixel_offset(w, sx, sy) + i % 4)
    } else {
        None
    }
}

/// The buffer shifted by (dx, dy) pixels, revealed edges filled with zero.
pub open spec fn scrolled(p: Seq<u8>, w: int, h: int, dx: int, dy: int) -> Seq<u8> {
    Seq::new(
        p.len(),
        |i: int|
            match scroll_source(w, h, dx, dy, i) {
                Some(s) => p[s],
                None => 0u8,
            },
    )
}

proof fn lemma_offset_in_range(w: int, h: int, x: int, y: int)
    requires
        0 <= x < w,
        0 <= y < h,
    ensures
        0 <= pixel_offset(w, x, y),
        pixel_offset(w, x, y) + 4 <= 4 * w * h,
{
    assert(0 <= y * w + x < w * h) by (nonlinear_arith)
        requires
            0 <= x < w,
            0 <= y < h,
    {
        assert(y * w <= (h - 1) * w);
    }
    assert((y * w + x) * 4 + 4 <= 4 * w * h) by (nonlinear_arith)
        requires
            y * w + x < w * h,
    {
    }
}

proof fn lemma_scroll_source(w: int, h: int, dx: int, dy: int, i: int)
    requires
        0 < w,
        0 < h,
        0 <= i < 4 * w * h,
    ensures
        scroll_source(w, h, dx, dy, i) matches Some(s) ==> {
            &&& s == i - 4 * (dy * w + dx)
            &&& 0 <= s < 4 * w * h
        },
{
    let px = i / 4;
    let x = px % w;
    let y = px / w;
    lemma_fundamental_div_mod(i, 4);
    lemma_fundamental_div_mod(px, w);
    if let Some(s) = scroll_source(w, h, dx, dy, i) {
        lemma_offset_in_range(w, h, x - dx, y - dy);
        assert(s == i - 4 * (dy * w + dx)) by (nonlinear_arith)
            requires
                s == ((y - dy) * w + (x - dx)) * 4 + i % 4,
                i == 4 * px + i % 4,
                px == w * y + x,
        {
        }
    }
}


/// The clipped, even-aligned region `[x1, x2) x [y1, y2)` that the YUV422
/// compensation visits for the request (x, y, w, h) on a `cw`-by-`ch` canvas.
pub open spec fn yuv_region(cw: int, ch: int, x: int, y: int, w: int, h: int) -> (int, int, int, int) {
    let lo = if x > 0 { x } else { 0 };
    let hi = if x + w < cw { x + w } else { cw };
    let x1 = lo - lo % 2;
    let x2 = if hi > 0 { hi - hi % 2 } else { 0 };
    let y1 = if y > 0 { y } else { 0 };
    let y2 = if y + h < ch { y + h } else { ch };
    (x1, x2, y1, y2)
}

/// Byte `c` of the left (`first`) or right pixel of a horizontal pair at byte
/// offsets `o1` and `o2`, once the pair is compensated: where exactly one of the
/// two is transparent, it takes the other's colour at a fifth of its alpha.
pub open spec fn pair_byte(p: Seq<u8>, o1: int, o2: int, first: bool, c: int) -> u8 {
    let a1 = p[o1 + 3];
    let a2 = p[o2 + 3];
    if first {
        if a1 == 0 && a2 != 0 {
            if c < 3 { p[o2 + c] } else { (a2 / 5) as u8 }
        } else {
            p[o1 + c]
        }
    } else {
        if a2 == 0 && a1 != 0 {
            if c < 3 { p[o1 + c] } else { (a1 / 5) as u8 }
        } else {
            p[o2 + c]
        }
    }
}

/// Byte `c` of pixel (px, py) after YUV422 compensation of the region (x, y, w, h).
pub open spec fn yuv_byte(p: Seq<u8>, cw: int, ch: int, x: int, y: int, w: int, h: int, px: int, py: int, c: int) -> u8 {
    let (x1, x2, y1, y2) = yuv_region(cw, ch, x, y, w, h);
    if y1 <= py < y2 && x1 <= px < x2 {
        let e = px - px % 2;
        pair_byte(p, pixel_offset(cw, e, py), pixel_offset(cw, e + 1, py), px == e, c)
    } else {
        p[pixel_offset(cw, px, py) + c]
    }
}

/// Byte `c` of the light (0xCC grey) or dark (0x99 grey) opaque checker tile.
pub open spec fn checker_byte(light: bool, c: int) -> u8 {
    if c == 3 { 0xFF } else if light { 0xCC } else { 0x99 }
}

/// Whether pixel (px, py) lies on a light tile of a checkerboard of `size`-pixel squares.
pub open spec fn checker_light(size: int, px: int, py: int) -> bool {
    (py / size + px / size) % 2 == 0
}

proof fn lemma_offset_injective(w: int, h: int, x1: int, y1: int, c1: int, x2: int, y2: int, c2: int)
    requires
        0 <= x1 < w,
        0 <= y1 < h,
        0 <= x2 < w,
        0 <= y2 < h,
        0 <= c1 < 4,
        0 <= c2 < 4,
        pixel_offset(w, x1, y1) + c1 == pixel_offset(w, x2, y2) + c2,
    ensures
        x1 == x2 && y1 == y2 && c1 == c2,
{
    let j = pixel_offset(w, x1, y1) + c1;
    vstd::arithmetic::div_mod::lemma_fundamental_div_mod_converse(j, 4, y1 * w + x1, c1);
    vstd::arithmetic::div_mod::lemma_fundamental_div_mod_converse(j, 4, y2 * w + x2, c2);
    vstd::arithmetic::div_mod::lemma_fundamental_div_mod_converse(y1 * w + x1, w, y1, x1);
    vstd::arithmetic::div_mod::lemma_fundamental_div_mod_converse(y2 * w + x2, w, y2, x2);
}

/// Shifting down by one row moves row 0 to row 1 and clears row 0.
pub proof fn lemma_scroll_down_one_row(p: Seq<u8>, w: int, h: int, x: int, c: int)
    requires
        2 <= h,
        0 <= x < w,
        0 <= c < 4,
        p.len() == 4 * w * h,
    ensures
        scrolled(p, w, h, 0, 1)[pixel_offset(w, x, 1) + c] == p[pixel_offset(w, x, 0) + c],
        scrolled(p, w, h, 0, 1)[pixel_offset(w, x, 0) + c] == 0,
{
    lemma_offset_in_range(w, h, x, 1);
    let i1 = pixel_offset(w, x, 1) + c;
    let i0 = pixel_offset(w, x, 0) + c;
    vstd::arithmetic::div_mod::lemma_fundamental_div_mod_converse(i1, 4, w + x, c);
    vstd::arithmetic::div_mod::lemma_fundamental_div_mod_converse(i0, 4, x, c);
    vstd::arithmetic::div_mod::lemma_fundamental_div_mod_converse(w + x, w, 1, x);
    vstd::arithmetic::div_mod::lemma_fundamental_div_mod_converse(x, w, 0, x);
}

/// Byte `k` of every pixel after a solid fill with straight (r, g, b, a): the
/// colour premultiplied, rounding to nearest.
pub open spec fn solid_byte(r: u8, g: u8, b: u8, a: u8, k: int) -> u8 {
    if k == 3 {
        a
    } else {
        premul(channel_of(r, g, b, k), a)
    }
}

/// The first `n` bytes of straight RGBA pixels, each colour channel scaled by
/// its pixel's alpha and rounded down.
pub open spec fn straight_to_premul(s: Seq<u8>, n: int) -> Seq<u8> {
    Seq::new(
        n as nat,
        |i: int|
            if i % 4 == 3 {
                s[i]
            } else {
                ((s[i] * s[i - i % 4 + 3]) / 255) as u8
            },
    )
}

/// The canvas after saving its transform and clip.
pub open spec fn pushed(v: FrameView) -> FrameView {
    FrameView { stack: v.stack.push((v.ctm, v.clip)), ..v }
}

/// The canvas after restoring the most recently saved state; unchanged when
/// nothing is saved.
pub open spec fn popped(v: FrameView) -> FrameView {
    if v.stack.len() == 0 {
        v
    } else {
        FrameView { ctm: v.stack.last().0, clip: v.stack.last().1, stack: v.stack.drop_last(), ..v }
    }
}

/// Saving the graphics state and restoring it at once gives back the transform
/// and clip exactly, and the canvas as it was.
pub proof fn lemma_push_pop_restores(v: FrameView)
    ensures
        popped(pushed(v)).ctm == v.ctm,
        popped(pushed(v)).clip == v.clip,
        popped(pushed(v)) == v,
{
    assert(pushed(v).stack.drop_last() =~= v.stack);
}

/// After an opaque solid fill, every pixel of the canvas reads back as the
/// colour that was filled.
pub proof fn lemma_opaque_fill_reads_back(p: Seq<u8>, w: int, h: int, c: u32, x: int, y: int)
    requires
        p.len() == 4 * w * h,
        unpack(c).3 == 255,
        forall|i: int| 0 <= i < p.len() ==> #[trigger] p[i] == solid_byte(unpack(c).0, unpack(c).1, unpack(c).2, 255, i % 4),
        0 <= x < w,
        0 <= y < h,
    ensures
        pixel_value(p, w, h, x, y) == c,
{
    let (r, g, b, a) = unpack(c);
    let o = pixel_offset(w, x, y);
    lemma_offset_in_range(w, h, x, y);
    assert(o % 4 == 0 && (o + 1) % 4 == 1 && (o + 2) % 4 == 2 && (o + 3) % 4 == 3);
    assert(p[o] == r && p[o + 1] == g && p[o + 2] == b && p[o + 3] == 255);
    crate::color::lemma_round_trip_exact(r, 255);
    crate::color::lemma_round_trip_exact(g, 255);
    crate::color::lemma_round_trip_exact(b, 255);
    assert(premul(r, 255) == r && premul(g, 255) == g && premul(b, 255) == b);
    crate::color::lemma_pack_unpack(c);
}

/// The bytes that `set_pixel` leaves: the colour premultiplied at (x, y).
pub open spec fn with_pixel(p: Seq<u8>, w: int, x: int, y: int, r: u8, g: u8, b: u8, a: u8) -> Seq<u8> {
    let o = pixel_offset(w, x, y);
    p.update(o, premul(r, a)).update(o + 1, premul(g, a)).update(o + 2, premul(b, a)).update(o + 3, a)
}

/// Storing a colour at a pixel and reading it back: a transparent colour reads
/// as zero, an opaque one exactly, and with alpha of at least 85 each colour
/// channel is off by at most one while alpha is kept.
pub proof fn lemma_set_then_get(p: Seq<u8>, w: int, h: int, x: int, y: int, r: u8, g: u8, b: u8, a: u8)
    requires
        p.len() == 4 * w * h,
        0 <= x < w,
        0 <= y < h,
    ensures
        a == 0 ==> pixel_value(with_pixel(p, w, x, y, r, g, b, a), w, h, x, y) == 0,
        a == 255 ==> pixel_value(with_pixel(p, w, x, y, r, g, b, a), w, h, x, y) == pack(r, g, b, a),
        85 <= a ==> {
            let (r2, g2, b2, a2) = unpack(pixel_value(with_pixel(p, w, x, y, r, g, b, a), w, h, x, y));
            &&& a2 == a
            &&& r - 1 <= r2 <= r + 1
            &&& g - 1 <= g2 <= g + 1
            &&& b - 1 <= b2 <= b + 1
        },
{
    let o = pixel_offset(w, x, y);
    lemma_offset_in_range(w, h, x, y);
    let q = with_pixel(p, w, x, y, r, g, b, a);
    assert(q[o] == premul(r, a) && q[o + 1] == premul(g, a) && q[o + 2] == premul(b, a) && q[o + 3] == a);
    if a == 255 {
        crate::color::lemma_round_trip_exact(r, a);
        crate::color::lemma_round_trip_exact(g, a);
        crate::color::lemma_round_trip_exact(b, a);
    }
    if 85 <= a {
        crate::color::lemma_round_trip_within_one(r, a);
        crate::color::lemma_round_trip_within_one(g, a);
        crate::color::lemma_round_trip_within_one(b, a);
        crate::color::lemma_unpack_pack(unpremul(premul(r, a), a), unpremul(premul(g, a), a), unpremul(premul(b, a), a), a);
    }
}

/// A copy of a byte vector.
fn copy_bytes(v: &Vec<u8>) -> (r: Vec<u8>)
    ensures
        r@ == v@,
{
    let mut r: Vec<u8> = Vec::with_capacity(v.len());
    let mut i: usize = 0;
    while i < v.len()
        invariant
            i <= v.len(),
            r@ == v@.subrange(0, i as int),
        decreases v.len() - i,
    {
        r.push(v[i]);
        i += 1;
        assert(r@ =~= v@.subrange(0, i as int));
    }
    assert(v@.subrange(0, v.len() as int) =~= v@);
    r
}

/// Premultiplies the first `n` bytes of straight RGBA pixels, rounding down.
fn premultiply_straight(src: &[u8], n: usize) -> (r: Vec<u8>)
    requires
        n <= src@.len(),
        n % 4 == 0,
    ensures
        r@ == straight_to_premul(src@, n as int),
{
    let mut out: Vec<u8> = Vec::with_capacity(n);
    let mut i: usize = 0;
    while i < n
        invariant
            i <= n,
            n <= src@.len(),
            n % 4 == 0,
            i % 4 == 0,
            out@ =~= straight_to_premul(src@, i as int),
        decreases n - i,
    {
        let a = src[i + 3] as u16;
        assert((src[i as int] as u16) * a <= 255 * 255) by (nonlinear_arith)
            requires
                a <= 255,
                src[i as int] <= 255,
        {
        }
        assert((src[i + 1] as u16) * a <= 255 * 255) by (nonlinear_arith)
            requires
                a <= 255,
                src[i + 1] <= 255,
        {
        }
        assert((src[i + 2] as u16) * a <= 255 * 255) by (nonlinear_arith)
            requires
                a <= 255,
                src[i + 2] <= 255,
        {
        }
        out.push(((src[i] as u16 * a) / 255) as u8);
        out.push(((src[i + 1] as u16 * a) / 255) as u8);
        out.push(((src[i + 2] as u16 * a) / 255) as u8);
        out.push(src[i + 3]);
        proof {
            let q = (i / 4) as int;
            vstd::arithmetic::div_mod::lemma_fundamental_div_mod_converse(i as int, 4, q, 0);
            vstd::arithmetic::div_mod::lemma_fundamental_div_mod_converse(i + 1, 4, q, 1);
            vstd::arithmetic::div_mod::lemma_fundamental_div_mod_converse(i + 2, 4, q, 2);
            vstd::arithmetic::div_mod::lemma_fundamental_div_mod_converse(i + 3, 4, q, 3);
        }
        i += 4;
        assert(out@ =~= straight_to_premul(src@, i as int));
    }
    out
}

/// A canvas: a borrowed premultiplied RGBA8 buffer, row-major, four bytes per
/// pixel, with its size, origin hint, antialiasing flag, current transform,
/// optional clip mask and saved graphics states. The buffer is never resized.
pub struct FrameBuffer<'a> {
    pixels: &'a mut [u8],
    w: i32,
    h: i32,
    pub cx: i32,
    pub cy: i32,
    pub antialias: bool,
    pub ctm: Transform,
    clip_mask: Option<Vec<u8>>,
    gstate_stack: Vec<FrameState>,
}

/// A saved graphics state as plain values.
pub open spec fn state_view(s: FrameState) -> (Transform, Option<Seq<u8>>) {
    (s.ctm, opt_view(s.clip_data))
}

/// An optional byte vector as an optional sequence.
pub open spec fn opt_view(c: Option<Vec<u8>>) -> Option<Seq<u8>> {
    match c {
        Some(v) => Some(v@),
        None => None,
    }
}

impl<'a> View for FrameBuffer<'a> {
    type V = FrameView;

    closed spec fn view(&self) -> FrameView {
        FrameView {
            pixels: self.pixels@,
            w: self.w as int,
            h: self.h as int,
            cx: self.cx as int,
            cy: self.cy as int,
            antialias: self.antialias,
            ctm: self.ctm,
            clip: opt_view(self.clip_mask),
            stack: self.gstate_stack@.map_values(|s: FrameState| state_view(s)),
        }
    }
}

impl<'a> FrameBuffer<'a> {
    /// A canvas over `pixels`, which holds `width * height` RGBA pixels and stays
    /// owned by the caller. The origin hint is the centre; antialiasing is on,
    /// the transform is the identity and there is no clip.
    pub fn new(pixels: &'a mut [u8], width: i32, height: i32) -> (fb: Self)
        requires
            0 <= width,
            0 <= height,
            old(pixels)@.len() == 4 * width * height,
            4 * width * height <= i32::MAX,
        ensures
            fb@.wf(),
            fb@.pixels == old(pixels)@,
            fb@.w == width,
            fb@.h == height,
            fb@.cx == width / 2,
            fb@.cy == height / 2,
            fb@.antialias,
            fb@.clip is None,
            fb@.stack.len() == 0,
    {
        let fb = FrameBuffer {
            pixels,
            w: width,
            h: height,
            cx: width / 2,
            cy: height / 2,
            antialias: true,
            ctm: Transform::identity(),
            clip_mask: None,
            gstate_stack: Vec::new(),
        };
        fb
    }

    /// Width in pixels.
    pub fn width(&self) -> (r: i32)
        ensures
            r == self@.w,
    {
        self.w
    }

    /// Height in pixels.
    pub fn height(&self) -> (r: i32)
        ensures
            r == self@.h,
    {
        self.h
    }

    /// Turns antialiasing on or off for later drawing.
    pub fn set_antialias(&mut self, on: bool)
        ensures
            final(self)@ == (FrameView { antialias: on, ..old(self)@ }),
    {
        self.antialias = on;
    }

    /// Replaces the current transform.
    pub fn set_ctm(&mut self, ctm: Transform)
        ensures
            final(self)@ == (FrameView { ctm, ..old(self)@ }),
    {
        self.ctm = ctm;
    }

    /// Stores a straight colour at (x, y) as premultiplied bytes, replacing what
    /// was there; outside the canvas nothing changes.
    pub fn set_pixel(&mut self, x: i32, y: i32, r: u8, g: u8, b: u8, a: u8)
        requires
            old(self)@.wf(),
        ensures
            final(self)@ == (FrameView {
                pixels: if old(self)@.in_bounds(x as int, y as int) {
                    with_pixel(old(self)@.pixels, old(self)@.w, x as int, y as int, r, g, b, a)
                } else {
                    old(self)@.pixels
                },
                ..old(self)@
            }),
            final(self)@.wf(),
    {
        if x >= 0 && x < self.w && y >= 0 && y < self.h {
            proof {
                lemma_offset_in_range(self.w as int, self.h as int, x as int, y as int);
            }
            let off = ((y as usize) * (self.w as usize) + (x as usize)) * 4;
            self.pixels[off] = premultiply(r, a);
            self.pixels[off + 1] = premultiply(g, a);
            self.pixels[off + 2] = premultiply(b, a);
            self.pixels[off + 3] = a;
        }
    }

    /// The straight 0xRRGGBBAA colour at (x, y); zero outside the canvas and for
    /// a fully transparent pixel.
    pub fn get_pixel_raw(&self, x: i32, y: i32) -> (c: u32)
        requires
            self@.wf(),
        ensures
            c == pixel_value(self@.pixels, self@.w, self@.h, x as int, y as int),
    {
        if x >= 0 && x < self.w && y >= 0 && y < self.h {
            proof {
                lemma_offset_in_range(self.w as int, self.h as int, x as int, y as int);
            }
            let i = ((y as usize) * (self.w as usize) + (x as usize)) * 4;
            let a = self.pixels[i + 3];
            if a == 0 {
                return 0;
            }
            rgba_to_hex(
                unpremultiply(self.pixels[i], a),
                unpremultiply(self.pixels[i + 1], a),
                unpremultiply(self.pixels[i + 2], a),
                a,
            )
        } else {
            0
        }
    }

    /// Shifts the whole buffer by (dx, dy) pixels in place; the revealed rows and
    /// columns become transparent black. A shift as large as the canvas clears it.
    pub fn scroll(&mut self, dx: i32, dy: i32)
        requires
            old(self)@.wf(),
        ensures
            final(self)@ == (FrameView {
                pixels: scrolled(old(self)@.pixels, old(self)@.w, old(self)@.h, dx as int, dy as int),
                ..old(self)@
            }),
            final(self)@.wf(),
    {
        let ghost old_p = self.pixels@;
        let ghost wi = self.w as int;
        let ghost hi = self.h as int;
        let n = self.pixels.len();
        if n == 0 {
            assert(self.pixels@ =~= scrolled(old_p, wi, hi, dx as int, dy as int));
            return;
        }
        proof {
            assert(wi > 0 && hi > 0) by (nonlinear_arith)
                requires
                    0 <= wi,
                    0 <= hi,
                    4 * wi * hi == n,
                    n > 0,
            {
            }
        }
        let w = self.w as i64;
        let h = self.h as i64;
        proof {
            assert(-0x8000_0000 * 0x8000_0000 <= dy * wi <= 0x8000_0000 * 0x8000_0000) by (nonlinear_arith)
                requires
                    -0x8000_0000 <= dy < 0x8000_0000,
                    0 < wi < 0x8000_0000,
            {
            }
        }
        let k: i64 = (dy as i64) * w + (dx as i64);
        if k > 0 {
            let mut i: usize = n;
            while i > 0
                invariant
                    i <= n,
                    n == self.pixels@.len(),
                    n == 4 * wi * hi,
                    wi == w,
                    hi == h,
                    wi == self.w,
                    hi == self.h,
                    0 < wi,
                    0 < hi,
                    k == dy * wi + dx,
                    k > 0,
                    n <= i32::MAX,
                    self.w == old(self).w,
                    self.h == old(self).h,
                    self.cx == old(self).cx,
                    self.cy == old(self).cy,
                    self.antialias == old(self).antialias,
                    self.ctm == old(self).ctm,
                    self.clip_mask == old(self).clip_mask,
                    self.gstate_stack == old(self).gstate_stack,
                    old_p == old(self).pixels@,
                    old_p.len() == n,
                    forall|j: int| 0 <= j < i ==> self.pixels@[j] == old_p[j],
                    forall|j: int|
                        i <= j < n ==> self.pixels@[j] == scrolled(old_p, wi, hi, dx as int, dy as int)[j],
                decreases i,
            {
                i -= 1;
                proof {
                    lemma_scroll_source(wi, hi, dx as int, dy as int, i as int);
                }
                let v = self.scroll_value(i, w, h, dx, dy);
                proof {
                    if let Some(s) = scroll_source(wi, hi, dx as int, dy as int, i as int) {
                        assert(self.pixels@[s] == old_p[s]);
                    }
                }
                self.pixels[i] = v;
                assert(self.pixels@[i as int] == scrolled(old_p, wi, hi, dx as int, dy as int)[i as int]);
            }
        } else {
            let mut i: usize = 0;
            while i < n
                invariant
                    i <= n,
                    n == self.pixels@.len(),
                    n == 4 * wi * hi,
                    wi == w,
                    hi == h,
                    wi == self.w,
                    hi == self.h,
                    0 < wi,
                    0 < hi,
                    k == dy * wi + dx,
                    k <= 0,
                    n <= i32::MAX,
                    self.w == old(self).w,
                    self.h == old(self).h,
                    self.cx == old(self).cx,
                    self.cy == old(self).cy,
                    self.antialias == old(self).antialias,
                    self.ctm == old(self).ctm,
                    self.clip_mask == old(self).clip_mask,
                    self.gstate_stack == old(self).gstate_stack,
                    old_p == old(self).pixels@,
                    old_p.len() == n,
                    forall|j: int| i <= j < n ==> self.pixels@[j] == old_p[j],
                    forall|j: int|
                        0 <= j < i ==> self.pixels@[j] == scrolled(old_p, wi, hi, dx as int, dy as int)[j],
                decreases n - i,
            {
                proof {
                    lemma_scroll_source(wi, hi, dx as int, dy as int, i as int);
                }
                let v = self.scroll_value(i, w, h, dx, dy);
                proof {
                    if let Some(s) = scroll_source(wi, hi, dx as int, dy as int, i as int) {
                        assert(self.pixels@[s] == old_p[s]);
                    }
                }
                self.pixels[i] = v;
                assert(self.pixels@[i as int] == scrolled(old_p, wi, hi, dx as int, dy as int)[i as int]);
                i += 1;
            }
        }
        assert(self.pixels@ =~= scrolled(old_p, wi, hi, dx as int, dy as int));
    }

    /// Writes four bytes at byte offset `o`.
    fn store(&mut self, o: usize, b0: u8, b1: u8, b2: u8, b3: u8)
        requires
            old(self)@.wf(),
            o + 4 <= old(self)@.pixels.len(),
        ensures
            final(self)@ == (FrameView {
                pixels: old(self)@.pixels.update(o as int, b0).update(o + 1, b1).update(o + 2, b2).update(
                    o + 3,
                    b3,
                ),
                ..old(self)@
            }),
    {
        self.pixels[o] = b0;
        self.pixels[o + 1] = b1;
        self.pixels[o + 2] = b2;
        self.pixels[o + 3] = b3;
    }

    /// Compensates the horizontal pixel pair whose left pixel starts at byte `o1`.
    fn compensate_pair(&mut self, o1: usize)
        requires
            old(self)@.wf(),
            o1 + 8 <= old(self)@.pixels.len(),
        ensures
            final(self)@ == (FrameView {
                pixels: Seq::new(
                    old(self)@.pixels.len(),
                    |j: int|
                        if o1 <= j < o1 + 8 {
                            pair_byte(old(self)@.pixels, o1 as int, o1 + 4, j < o1 + 4, (j - o1) % 4)
                        } else {
                            old(self)@.pixels[j]
                        },
                ),
                ..old(self)@
            }),
    {
        let ghost p = self.pixels@;
        let o2 = o1 + 4;
        let a1 = self.pixels[o1 + 3];
        let a2 = self.pixels[o2 + 3];
        if a1 == 0 && a2 != 0 {
            let (r, g, b) = (self.pixels[o2], self.pixels[o2 + 1], self.pixels[o2 + 2]);
            self.store(o1, r, g, b, a2 / 5);
        } else if a2 == 0 && a1 != 0 {
            let (r, g, b) = (self.pixels[o1], self.pixels[o1 + 1], self.pixels[o1 + 2]);
            self.store(o2, r, g, b, a1 / 5);
        }
        assert(self.pixels@ =~= Seq::new(
            p.len(),
            |j: int|
                if o1 <= j < o1 + 8 {
                    pair_byte(p, o1 as int, o1 + 4, j < o1 + 4, (j - o1) % 4)
                } else {
                    p[j]
                },
        ));
    }

    /// Mitigates chroma subsampling at the edges of shapes: within the region,
    /// clamped to the canvas and aligned to even columns, each horizontal pixel
    /// pair with exactly one transparent member gives that member the other's
    /// colour at a fifth (20%, rounded down) of its alpha.
    pub fn apply_yuv422_compensation(&mut self, x: i32, y: i32, w: i32, h: i32)
        requires
            old(self)@.wf(),
        ensures
            final(self)@ == (FrameView { pixels: final(self)@.pixels, ..old(self)@ }),
            final(self)@.pixels.len() == old(self)@.pixels.len(),
            final(self)@.wf(),
            forall|px: int, py: int, c: int|
                #![trigger final(self)@.pixels[pixel_offset(old(self)@.w, px, py) + c]]
                0 <= px < old(self)@.w && 0 <= py < old(self)@.h && 0 <= c < 4
                    ==> final(self)@.pixels[pixel_offset(old(self)@.w, px, py) + c] == yuv_byte(
                    old(self)@.pixels,
                    old(self)@.w,
                    old(self)@.h,
                    x as int,
                    y as int,
                    w as int,
                    h as int,
                    px,
                    py,
                    c,
                ),
    {
        let ghost old_p = self.pixels@;
        let ghost cwi = self.w as int;
        let ghost chi = self.h as int;
        let cw = self.w as i64;
        let ch = self.h as i64;
        let lo: i64 = if x > 0 { x as i64 } else { 0 };
        let hi: i64 = if (x as i64) + (w as i64) < cw { (x as i64) + (w as i64) } else { cw };
        let x1: i64 = lo - lo % 2;
        let x2: i64 = if hi > 0 { hi - hi % 2 } else { 0 };
        let y1: i64 = if y > 0 { y as i64 } else { 0 };
        let y2: i64 = if (y as i64) + (h as i64) < ch { (y as i64) + (h as i64) } else { ch };
        assert(yuv_region(cwi, chi, x as int, y as int, w as int, h as int) == (x1 as int, x2 as int, y1 as int, y2 as int));
        let mut iy: i64 = y1;
        while iy < y2
            invariant
                0 <= y1 <= iy,
                iy <= y2 || iy == y1,
                y2 <= ch,
                0 <= x1,
                x1 % 2 == 0,
                x2 % 2 == 0,
                x2 <= cw,
                cw == cwi,
                ch == chi,
                cwi == self@.w,
                chi == self@.h,
                self@.wf(),
                self@ == (FrameView { pixels: self@.pixels, ..old(self)@ }),
                old_p == old(self)@.pixels,
                yuv_region(cwi, chi, x as int, y as int, w as int, h as int) == (x1 as int, x2 as int, y1 as int, y2 as int),
                forall|px: int, py: int, c: int|
                    0 <= px < cwi && 0 <= py < chi && 0 <= c < 4 ==> #[trigger] self@.pixels[pixel_offset(cwi, px, py) + c]
                        == if py < iy {
                        yuv_byte(old_p, cwi, chi, x as int, y as int, w as int, h as int, px, py, c)
                    } else {
                        old_p[pixel_offset(cwi, px, py) + c]
                    },
            decreases y2 - iy,
        {
            let mut ix: i64 = x1;
            while ix < x2
                invariant
                    0 <= y1 <= iy < y2,
                    y2 <= ch,
                    0 <= x1 <= ix,
                    ix <= x2 || ix == x1,
                    ix % 2 == 0,
                    x2 % 2 == 0,
                    x2 <= cw,
                    cw == cwi,
                    ch == chi,
                    cwi == self@.w,
                    chi == self@.h,
                    self@.wf(),
                    self@ == (FrameView { pixels: self@.pixels, ..old(self)@ }),
                    old_p == old(self)@.pixels,
                    yuv_region(cwi, chi, x as int, y as int, w as int, h as int) == (x1 as int, x2 as int, y1 as int, y2 as int),
                    forall|px: int, py: int, c: int|
                        0 <= px < cwi && 0 <= py < chi && 0 <= c < 4 ==> #[trigger] self@.pixels[pixel_offset(cwi, px, py) + c]
                            == if py < iy || (py == iy && px < ix) {
                            yuv_byte(old_p, cwi, chi, x as int, y as int, w as int, h as int, px, py, c)
                        } else {
                            old_p[pixel_offset(cwi, px, py) + c]
                        },
                decreases x2 - ix,
            {
                proof {
                    lemma_offset_in_range(cwi, chi, ix + 1, iy as int);
                }
                let o1 = ((iy * cw + ix) * 4) as usize;
                let ghost cur = self@.pixels;
                self.compensate_pair(o1);
                proof {
                    let np = self@.pixels;
                    assert forall|px: int, py: int, c: int|
                        0 <= px < cwi && 0 <= py < chi && 0 <= c < 4 implies #[trigger] np[pixel_offset(cwi, px, py) + c]
                            == if py < iy || (py == iy && px < ix + 2) {
                            yuv_byte(old_p, cwi, chi, x as int, y as int, w as int, h as int, px, py, c)
                        } else {
                            old_p[pixel_offset(cwi, px, py) + c]
                        } by {
                        let j = pixel_offset(cwi, px, py) + c;
                        if py == iy && (px == ix || px == ix + 1) {
                            assert forall|k: int| 0 <= k < 4 implies #[trigger] cur[o1 + k] == old_p[o1 + k]
                                && cur[o1 + 4 + k] == old_p[o1 + 4 + k] by {
                                assert(cur[pixel_offset(cwi, ix as int, iy as int) + k] == old_p[pixel_offset(cwi, ix as int, iy as int) + k]);
                                assert(cur[pixel_offset(cwi, ix + 1, iy as int) + k] == old_p[pixel_offset(cwi, ix + 1, iy as int) + k]);
                            }
                            assert(px % 2 == (if px == ix { 0int } else { 1int }));
                        } else {
                            lemma_offset_in_range(cwi, chi, px, py);
                            if o1 <= j < o1 + 8 {
                                if j < o1 + 4 {
                                    lemma_offset_injective(cwi, chi, px, py, c, ix as int, iy as int, j - o1);
                                } else {
                                    lemma_offset_injective(cwi, chi, px, py, c, ix + 1, iy as int, j - o1 - 4);
                                }
                            }
                            assert(np[j] == cur[j]);
                            if py == iy && ix + 2 <= px {
                                assert(!(px < ix));
                            }
                        }
                    }
                }
                ix += 2;
            }
            proof {
                assert forall|px: int, py: int, c: int|
                    0 <= px < cwi && 0 <= py < chi && 0 <= c < 4 implies #[trigger] self@.pixels[pixel_offset(cwi, px, py) + c]
                        == if py < iy + 1 {
                        yuv_byte(old_p, cwi, chi, x as int, y as int, w as int, h as int, px, py, c)
                    } else {
                        old_p[pixel_offset(cwi, px, py) + c]
                    } by {
                }
            }
            iy += 1;
        }
    }

    /// Paints a test pattern of `size`-pixel squares in opaque light (0xCC) and
    /// dark (0x99) grey, light at the origin; a size below one paints nothing.
    pub fn draw_checkerboard(&mut self, size: i32)
        requires
            old(self)@.wf(),
        ensures
            final(self)@ == (FrameView { pixels: final(self)@.pixels, ..old(self)@ }),
            final(self)@.pixels.len() == old(self)@.pixels.len(),
            final(self)@.wf(),
            size <= 0 ==> final(self)@.pixels == old(self)@.pixels,
            forall|px: int, py: int, c: int|
                #![trigger final(self)@.pixels[pixel_offset(old(self)@.w, px, py) + c]]
                0 < size && 0 <= px < old(self)@.w && 0 <= py < old(self)@.h && 0 <= c < 4
                    ==> final(self)@.pixels[pixel_offset(old(self)@.w, px, py) + c] == checker_byte(
                    checker_light(size as int, px, py),
                    c,
                ),
    {
        if size <= 0 {
            return;
        }
        let ghost old_p = self.pixels@;
        let w = self.w as usize;
        let h = self.h as usize;
        let sz = size as usize;
        let mut y: usize = 0;
        while y < h
            invariant
                y <= h,
                w == self@.w,
                h == self@.h,
                sz == size,
                0 < size,
                self@.wf(),
                self@ == (FrameView { pixels: self@.pixels, ..old(self)@ }),
                old_p == old(self)@.pixels,
                forall|px: int, py: int, c: int|
                    0 <= px < w && 0 <= py < h && 0 <= c < 4 ==> #[trigger] self@.pixels[pixel_offset(w as int, px, py) + c]
                        == if py < y {
                        checker_byte(checker_light(size as int, px, py), c)
                    } else {
                        old_p[pixel_offset(w as int, px, py) + c]
                    },
            decreases h - y,
        {
            let mut x: usize = 0;
            while x < w
                invariant
                    x <= w,
                    y < h,
                    w == self@.w,
                    h == self@.h,
                    sz == size,
                    0 < size,
                    self@.wf(),
                    self@ == (FrameView { pixels: self@.pixels, ..old(self)@ }),
                    old_p == old(self)@.pixels,
                    forall|px: int, py: int, c: int|
                        0 <= px < w && 0 <= py < h && 0 <= c < 4 ==> #[trigger] self@.pixels[pixel_offset(w as int, px, py) + c]
                            == if py < y || (py == y && px < x) {
                            checker_byte(checker_light(size as int, px, py), c)
                        } else {
                            old_p[pixel_offset(w as int, px, py) + c]
                        },
                decreases w - x,
            {
                proof {
                    lemma_offset_in_range(w as int, h as int, x as int, y as int);
                }
                let o = (y * w + x) * 4;
                let light = ((y / sz) + (x / sz)) % 2 == 0;
                let v: u8 = if light { 0xCC } else { 0x99 };
                let ghost cur = self@.pixels;
                self.store(o, v, v, v, 0xFF);
                proof {
                    let np = self@.pixels;
                    assert forall|px: int, py: int, c: int|
                        0 <= px < w && 0 <= py < h && 0 <= c < 4 implies #[trigger] np[pixel_offset(w as int, px, py) + c]
                            == if py < y || (py == y && px < x + 1) {
                            checker_byte(checker_light(size as int, px, py), c)
                        } else {
                            old_p[pixel_offset(w as int, px, py) + c]
                        } by {
                        let j = pixel_offset(w as int, px, py) + c;
                        if !(py == y && px == x) {
                            lemma_offset_in_range(w as int, h as int, px, py);
                            if o <= j < o + 4 {
                                lemma_offset_injective(w as int, h as int, px, py, c, x as int, y as int, j - o);
                            }
                            assert(np[j] == cur[j]);
                        }
                    }
                }
                x += 1;
            }
            y += 1;
        }
    }

    /// The caller's buffer, for drawing that tiny_skia does on it directly.
    pub fn pixels_mut(&mut self) -> (r: &mut [u8])
        ensures
            r@ == old(self)@.pixels,
            final(self)@ == (FrameView { pixels: final(r)@, ..old(self)@ }),
    {
        &mut *self.pixels
    }

    /// The clip mask's coverage bytes, one per pixel, if a clip is set.
    pub fn clip_data(&self) -> (r: Option<Vec<u8>>)
        ensures
            opt_view(r) == self@.clip,
    {
        match &self.clip_mask {
            Some(m) => Some(copy_bytes(m)),
            None => None,
        }
    }

    /// Replaces the clip; a mask that does not hold one byte per pixel is
    /// refused and leaves the canvas as it was.
    pub fn set_clip_data(&mut self, mask: Option<Vec<u8>>) -> (ok: bool)
        requires
            old(self)@.wf(),
        ensures
            ok == clip_fits(opt_view(mask), old(self)@.w * old(self)@.h),
            final(self)@ == if ok { FrameView { clip: opt_view(mask), ..old(self)@ } } else { old(self)@ },
            final(self)@.wf(),
    {
        proof {
            assert(self.w * self.h <= 4 * self.w * self.h) by (nonlinear_arith)
                requires
                    0 <= self.w,
                    0 <= self.h,
            {
            }
        }
        let n = (self.w as usize) * (self.h as usize);
        let ok = match &mask {
            Some(m) => m.len() == n,
            None => true,
        };
        if ok {
            self.clip_mask = mask;
        }
        ok
    }

    /// Saves the current transform and clip on the graphics-state stack.
    pub fn gstate_push(&mut self)
        requires
            old(self)@.wf(),
        ensures
            final(self)@ == pushed(old(self)@),
            final(self)@.wf(),
    {
        let clip_data = match &self.clip_mask {
            Some(m) => Some(copy_bytes(m)),
            None => None,
        };
        self.gstate_stack.push(FrameState { ctm: self.ctm, clip_data });
        assert(self@.stack =~= pushed(old(self)@).stack);
    }

    /// Restores the most recently saved transform and clip; does nothing when
    /// nothing is saved.
    pub fn gstate_pop(&mut self)
        requires
            old(self)@.wf(),
        ensures
            final(self)@ == popped(old(self)@),
            final(self)@.wf(),
    {
        if let Some(state) = self.gstate_stack.pop() {
            self.ctm = state.ctm;
            self.clip_mask = state.clip_data;
            assert(self@.stack =~= popped(old(self)@).stack);
            assert(clip_fits(old(self)@.stack[old(self)@.stack.len() - 1].1, self@.w * self@.h));
        }
    }

    /// Fills the whole canvas with one colour, replacing what was there.
    pub fn fill_solid(&mut self, r: u8, g: u8, b: u8, a: u8)
        requires
            old(self)@.wf(),
        ensures
            final(self)@ == (FrameView { pixels: final(self)@.pixels, ..old(self)@ }),
            final(self)@.pixels.len() == old(self)@.pixels.len(),
            final(self)@.wf(),
            forall|i: int|
                0 <= i < old(self)@.pixels.len() ==> #[trigger] final(self)@.pixels[i] == solid_byte(r, g, b, a, i % 4),
    {
        proof {
            self.lemma_fits();
        }
        skia_fill(self.pixels, self.w as u32, self.h as u32, r, g, b, a);
    }

    /// Composites one colour over the whole canvas (source-over, no
    /// antialiasing); an opaque colour simply replaces every pixel.
    pub fn fill_over(&mut self, r: u8, g: u8, b: u8, a: u8)
        requires
            old(self)@.wf(),
        ensures
            final(self)@ == (FrameView { pixels: final(self)@.pixels, ..old(self)@ }),
            final(self)@.pixels.len() == old(self)@.pixels.len(),
            final(self)@.wf(),
            a == 255 ==> forall|i: int|
                0 <= i < old(self)@.pixels.len() ==> #[trigger] final(self)@.pixels[i] == solid_byte(r, g, b, a, i % 4),
            a != 255 ==> final(self)@.pixels == skia_rect_filled(
                old(self)@.pixels,
                old(self)@.w as u32,
                old(self)@.h as u32,
                0,
                0,
                old(self)@.w as i32,
                old(self)@.h as i32,
                r,
                g,
                b,
                a,
                BlendMode::SourceOver,
            ),
    {
        if a == 255 {
            self.fill_solid(r, g, b, a);
        } else {
            skia_fill_rect(self.pixels, self.w as u32, self.h as u32, 0, 0, self.w, self.h, r, g, b, a, BlendMode::SourceOver);
        }
    }

    /// A 1-pixel-high line of `w` pixels from (x, y), in raw pixel space: no
    /// transform and no antialiasing.
    pub fn draw_hline(&mut self, x: i32, y: i32, w: i32, r: u8, g: u8, b: u8, a: u8, blend: BlendMode)
        requires
            old(self)@.wf(),
        ensures
            final(self)@ == (FrameView {
                pixels: skia_rect_filled(old(self)@.pixels, old(self)@.w as u32, old(self)@.h as u32, x, y, w, 1, r, g, b, a, blend),
                ..old(self)@
            }),
            final(self)@.wf(),
            f32_exact_rect(x as int, y as int, w as int, 1) ==> frame_kept(
                old(self)@.pixels,
                final(self)@.pixels,
                old(self)@.w,
                old(self)@.h,
                x as int,
                y as int,
                w as int,
                1,
            ),
    {
        skia_fill_rect(self.pixels, self.w as u32, self.h as u32, x, y, w, 1, r, g, b, a, blend);
    }

    /// A 1-pixel-wide line of `h` pixels from (x, y), in raw pixel space: no
    /// transform and no antialiasing.
    pub fn draw_vline(&mut self, x: i32, y: i32, h: i32, r: u8, g: u8, b: u8, a: u8, blend: BlendMode)
        requires
            old(self)@.wf(),
        ensures
            final(self)@ == (FrameView {
                pixels: skia_rect_filled(old(self)@.pixels, old(self)@.w as u32, old(self)@.h as u32, x, y, 1, h, r, g, b, a, blend),
                ..old(self)@
            }),
            final(self)@.wf(),
            f32_exact_rect(x as int, y as int, 1, h as int) ==> frame_kept(
                old(self)@.pixels,
                final(self)@.pixels,
                old(self)@.w,
                old(self)@.h,
                x as int,
                y as int,
                1,
                h as int,
            ),
    {
        skia_fill_rect(self.pixels, self.w as u32, self.h as u32, x, y, 1, h, r, g, b, a, blend);
    }

    /// The 1-pixel outline of the rectangle (x, y, w, h) in raw pixel space: top
    /// and bottom rows, then left and right columns. Nothing for an empty rectangle.
    pub fn draw_rect(&mut self, x: i32, y: i32, w: i32, h: i32, r: u8, g: u8, b: u8, a: u8, blend: BlendMode)
        requires
            old(self)@.wf(),
            x + w <= i32::MAX + 1,
            y + h <= i32::MAX + 1,
        ensures
            final(self)@ == (FrameView {
                pixels: if w <= 0 || h <= 0 {
                    old(self)@.pixels
                } else {
                    let cw = old(self)@.w as u32;
                    let ch = old(self)@.h as u32;
                    let p1 = skia_rect_filled(old(self)@.pixels, cw, ch, x, y, w, 1, r, g, b, a, blend);
                    let p2 = skia_rect_filled(p1, cw, ch, x, (y + h - 1) as i32, w, 1, r, g, b, a, blend);
                    let p3 = skia_rect_filled(p2, cw, ch, x, y, 1, h, r, g, b, a, blend);
                    skia_rect_filled(p3, cw, ch, (x + w - 1) as i32, y, 1, h, r, g, b, a, blend)
                },
                ..old(self)@
            }),
            final(self)@.wf(),
            f32_exact_rect(x as int, y as int, w as int, h as int) ==> frame_kept(
                old(self)@.pixels,
                final(self)@.pixels,
                old(self)@.w,
                old(self)@.h,
                x as int,
                y as int,
                w as int,
                h as int,
            ),
    {
        if w <= 0 || h <= 0 {
            return;
        }
        let ghost p0 = self@.pixels;
        self.draw_hline(x, y, w, r, g, b, a, blend);
        let ghost p1 = self@.pixels;
        self.draw_hline(x, y + (h - 1), w, r, g, b, a, blend);
        let ghost p2 = self@.pixels;
        self.draw_vline(x, y, h, r, g, b, a, blend);
        let ghost p3 = self@.pixels;
        self.draw_vline(x + (w - 1), y, h, r, g, b, a, blend);
        proof {
            let cw = self@.w;
            let ch = self@.h;
            if f32_exact_rect(x as int, y as int, w as int, h as int) {
                assert forall|px: int, py: int, c: int|
                    0 <= px < cw && 0 <= py < ch && 0 <= c < 4 && !(x <= px < x + w && y <= py < y + h)
                        implies #[trigger] self@.pixels[pixel_offset(cw, px, py) + c] == p0[pixel_offset(
                        cw,
                        px,
                        py,
                    ) + c] by {
                    let o = pixel_offset(cw, px, py) + c;
                    assert(self@.pixels[o] == p3[o]);
                    assert(p3[o] == p2[o]);
                    assert(p2[o] == p1[o]);
                    assert(p1[o] == p0[o]);
                }
            }
        }
    }

    /// Draws straight-alpha RGBA pixels, `src_w` by `src_h`, at (dst_x, dst_y):
    /// premultiplied first, then composited source-over when `blend` is set and
    /// copied otherwise. Nothing happens when the source is empty or shorter
    /// than its size says, or when its far edge lies beyond `i32` coordinates
    /// (it would then be wholly off the canvas).
    pub fn blit(&mut self, src_pixels: &[u8], src_w: i32, src_h: i32, dst_x: i32, dst_y: i32, blend: bool)
        requires
            old(self)@.wf(),
        ensures
            final(self)@ == (FrameView {
                pixels: if 0 < src_w && 0 < src_h && 4 * src_w * src_h <= src_pixels@.len() && dst_x + src_w
                    <= i32::MAX && dst_y + src_h <= i32::MAX {
                    skia_pixmap_drawn(
                        old(self)@.pixels,
                        old(self)@.w as u32,
                        old(self)@.h as u32,
                        straight_to_premul(src_pixels@, 4 * src_w * src_h),
                        src_w as u32,
                        src_h as u32,
                        dst_x,
                        dst_y,
                        if blend { BlendMode::SourceOver } else { BlendMode::Source },
                    )
                } else {
                    old(self)@.pixels
                },
                ..old(self)@
            }),
            final(self)@.wf(),
            f32_exact_rect(dst_x as int, dst_y as int, src_w as int, src_h as int) ==> frame_kept(
                old(self)@.pixels,
                final(self)@.pixels,
                old(self)@.w,
                old(self)@.h,
                dst_x as int,
                dst_y as int,
                src_w as int,
                src_h as int,
            ),
    {
        if src_w <= 0 || src_h <= 0 {
            return;
        }
        if dst_x as i64 + src_w as i64 > i32::MAX as i64 || dst_y as i64 + src_h as i64 > i32::MAX as i64 {
            return;
        }
        proof {
            assert(0 <= src_w * src_h < 0x4000_0000_0000_0000) by (nonlinear_arith)
                requires
                    0 < src_w < 0x8000_0000,
                    0 < src_h < 0x8000_0000,
            {
            }
        }
        let m: u64 = (src_w as u64) * (src_h as u64);
        let n: u64 = 4 * m;
        assert(n == 4 * src_w * src_h) by (nonlinear_arith)
            requires
                n == 4 * m,
                m == src_w * src_h,
        {
        }
        if n > src_pixels.len() as u64 {
            return;
        }
        let premul = premultiply_straight(src_pixels, n as usize);
        let mode = if blend { BlendMode::SourceOver } else { BlendMode::Source };
        skia_draw_pixmap(
            self.pixels,
            self.w as u32,
            self.h as u32,
            premul.as_slice(),
            src_w as u32,
            src_h as u32,
            dst_x,
            dst_y,
            mode,
        );
    }

    /// A nonempty canvas is a pixmap that tiny_skia accepts.
    proof fn lemma_fits(&self)
        requires
            self@.wf(),
        ensures
            self@.pixels.len() > 0 ==> crate::skia::pixmap_fits(self@.pixels.len() as int, self.w as u32, self.h as u32),
    {
        if self@.pixels.len() > 0 {
            assert(0 < self.w && 0 < self.h && 4 * self.w <= 4 * self.w * self.h) by (nonlinear_arith)
                requires
                    0 <= self.w,
                    0 <= self.h,
                    4 * self.w * self.h > 0,
            {
            }
        }
    }

    /// The value that byte `i` takes in a shift by (dx, dy), read from the
    /// current buffer.
    fn scroll_value(&self, i: usize, w: i64, h: i64, dx: i32, dy: i32) -> (v: u8)
        requires
            0 < w,
            0 < h,
            w == self@.w,
            h == self@.h,
            i < self@.pixels.len(),
            self@.pixels.len() == 4 * w * h,
            4 * w * h <= i32::MAX,
            scroll_source(w as int, h as int, dx as int, dy as int, i as int) matches Some(s) ==> 0 <= s
                < 4 * w * h,
        ensures
            v == match scroll_source(w as int, h as int, dx as int, dy as int, i as int) {
                Some(s) => self@.pixels[s],
                None => 0u8,
            },
    {
        let px = (i / 4) as i64;
        let x = px % w;
        let y = px / w;
        let sx = x - dx as i64;
        let sy = y - dy as i64;
        if 0 <= sx && sx < w && 0 <= sy && sy < h {
            proof {
                lemma_offset_in_range(w as int, h as int, sx as int, sy as int);
            }
            let s = ((sy * w + sx) * 4) as usize + i % 4;
            self.pixels[s]
        } else {
            0
        }
    }
}

} // verus!
