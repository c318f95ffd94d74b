//! Packed 0xRRGGBBAA colours and premultiplied-alpha channel arithmetic.
use vstd::prelude::*;

verus! {

/// The four channels of a packed colour, red in the most significant byte.
pub open spec fn unpack(c: u32) -> (u8, u8, u8, u8) {
    (
        (c / 0x1000000) as u8,
        ((c / 0x10000) % 0x100) as u8,
        ((c / 0x100) % 0x100) as u8,
        (c % 0x100) as u8,
    )
}

/// The packed colour with the given straight channels.
pub open spec fn pack(r: u8, g: u8, b: u8, a: u8) -> u32 {
    (r * 0x1000000 + g * 0x10000 + b * 0x100 + a) as u32
}

/// `round(c * a / 255)`, halves rounded up.
pub open spec fn premul(c: u8, a: u8) -> u8 {
    ((c * a + 127) / 255) as u8
}

/// `min(255, round(s * 255 / a))`, halves rounded up; zero when `a` is zero.
pub open spec fn unpremul(s: u8, a: u8) -> u8 {
    if a == 0 {
        0
    } else if (s * 255 + a / 2) / (a as int) > 255 {
        255
    } else {
        ((s * 255 + a / 2) / (a as int)) as u8
    }
}

/// Packing the channels of a colour gives the colour back.
pub proof fn lemma_pack_unpack(c: u32)
    ensures
        pack(unpack(c).0, unpack(c).1, unpack(c).2, unpack(c).3) == c,
{
    let (r, g, b, a) = unpack(c);
    assert(r * 0x1000000 + g * 0x10000 + b * 0x100 + a == c) by (nonlinear_arith)
        requires
            r == c / 0x1000000,
            g == (c / 0x10000) % 0x100,
            b == (c / 0x100) % 0x100,
            a == c % 0x100,
            0 <= c < 0x1_0000_0000,
    {
    }
}

/// Unpacking packed channels gives the channels back.
pub proof fn lemma_unpack_pack(r: u8, g: u8, b: u8, a: u8)
    ensures
        unpack(pack(r, g, b, a)) == (r, g, b, a),
{
    let c = r * 0x1000000 + g * 0x10000 + b * 0x100 + a;
    assert(c / 0x1000000 == r && (c / 0x10000) % 0x100 == g && (c / 0x100) % 0x100 == b && c % 0x100 == a
        && c < 0x1_0000_0000) by (nonlinear_arith)
        requires
            c == r * 0x1000000 + g * 0x10000 + b * 0x100 + a,
            0 <= r < 256,
            0 <= g < 256,
            0 <= b < 256,
            0 <= a < 256,
    {
    }
}

/// Splits a packed 0xRRGGBBAA colour into its channels.
pub fn hex_to_rgba(c: u32) -> (r: (u8, u8, u8, u8))
    ensures
        r == unpack(c),
        pack(r.0, r.1, r.2, r.3) == c,
{
    let r = ((c / 0x1000000) as u8, ((c / 0x10000) % 0x100) as u8, ((c / 0x100) % 0x100) as u8, (c % 0x100) as u8);
    assert(pack(r.0, r.1, r.2, r.3) == c) by (nonlinear_arith)
        requires
            r.0 == c / 0x1000000,
            r.1 == (c / 0x10000) % 0x100,
            r.2 == (c / 0x100) % 0x100,
            r.3 == c % 0x100,
    {
    }
    r
}

/// Packs straight channels into 0xRRGGBBAA.
pub fn rgba_to_hex(r: u8, g: u8, b: u8, a: u8) -> (c: u32)
    ensures
        c == pack(r, g, b, a),
        unpack(c) == (r, g, b, a),
{
    let c = (r as u32) * 0x1000000 + (g as u32) * 0x10000 + (b as u32) * 0x100 + (a as u32);
    assert(unpack(c) == (r, g, b, a)) by (nonlinear_arith)
        requires
            c == r * 0x1000000 + g * 0x10000 + b * 0x100 + a,
            r < 256,
            g < 256,
            b < 256,
            a < 256,
    {
    }
    c
}

/// Scales a straight channel by alpha, rounding to nearest.
pub fn premultiply(c: u8, a: u8) -> (s: u8)
    ensures
        s == premul(c, a),
        s <= a,
{
    assert(c * a + 127 <= 255 * a + 127) by (nonlinear_arith)
        requires
            c <= 255,
    {
    }
    assert((c * a + 127) / 255 <= a) by (nonlinear_arith)
        requires
            c * a + 127 <= 255 * a + 127,
            0 <= c * a,
    {
    }
    ((c as u32 * a as u32 + 127) / 255) as u8
}

/// Recovers a straight channel from a premultiplied one, rounding to nearest and
/// saturating at 255.
pub fn unpremultiply(s: u8, a: u8) -> (c: u8)
    ensures
        c == unpremul(s, a),
{
    if a == 0 {
        return 0;
    }
    let v = (s as u32 * 255 + a as u32 / 2) / a as u32;
    if v > 255 {
        255
    } else {
        v as u8
    }
}

/// An opaque colour survives premultiplication and its inverse unchanged; a
/// fully transparent one reads back as zero.
pub proof fn lemma_round_trip_exact(c: u8, a: u8)
    requires
        a == 0 || a == 255,
    ensures
        a == 255 ==> unpremul(premul(c, a), a) == c,
        a == 0 ==> premul(c, a) == 0 && unpremul(premul(c, a), a) == 0,
{
    if a == 255 {
        assert((c * 255 + 127) / 255 == c) by (nonlinear_arith)
            requires
                0 <= c <= 255,
        {
        }
    }
}

/// For alpha of at least 85, premultiplying a channel and recovering it again is
/// off by at most one unit; below that the rounding error can reach two.
pub proof fn lemma_round_trip_within_one(c: u8, a: u8)
    requires
        85 <= a,
    ensures
        c - 1 <= unpremul(premul(c, a), a) <= c + 1,
{
    let s = (c * a + 127) / 255;
    assert(255 * s <= c * a + 127 && 255 * s >= c * a - 127) by (nonlinear_arith)
        requires
            s == (c * a + 127) / 255,
            0 <= c * a,
    {
    }
    assert(0 <= s <= 255) by (nonlinear_arith)
        requires
            s == (c * a + 127) / 255,
            0 <= c <= 255,
            0 <= a <= 255,
    {
    }
    let q = (s * 255 + a / 2) / (a as int);
    assert(c - 1 <= q <= c + 1) by (nonlinear_arith)
        requires
            q == (s * 255 + a / 2) / (a as int),
            255 * s <= c * a + 127,
            255 * s >= c * a - 127,
            85 <= a <= 255,
            0 <= c <= 255,
            0 <= s,
    {
        assert(s * 255 + a / 2 < (c + 2) * a);
        assert(s * 255 + a / 2 >= (c - 1) * a);
    }
}

} // verus!
