//! The stable integer codes for line caps, line joins and blend modes.
use vstd::prelude::*;
use tiny_skia::{BlendMode, LineCap, LineJoin};

verus! {

/// The cap that a code selects: 1 round, 2 square, anything else butt.
pub open spec fn cap_of(cap: u8) -> LineCap {
    if cap == 1 {
        LineCap::Round
    } else if cap == 2 {
        LineCap::Square
    } else {
        LineCap::Butt
    }
}

/// The join that a code selects: 1 round, 2 bevel, anything else miter.
pub open spec fn join_of(join: u8) -> LineJoin {
    if join == 1 {
        LineJoin::Round
    } else if join == 2 {
        LineJoin::Bevel
    } else {
        LineJoin::Miter
    }
}

/// The blend mode that a code from 0 to 27 selects; any other code falls back
/// to normal source-over compositing.
pub open spec fn blend_of(mode: u8) -> BlendMode {
    match mode {
        0 => BlendMode::SourceOver,
        1 => BlendMode::Multiply,
        2 => BlendMode::Screen,
        3 => BlendMode::Overlay,
        4 => BlendMode::Darken,
        5 => BlendMode::Lighten,
        6 => BlendMode::ColorDodge,
        7 => BlendMode::ColorBurn,
        8 => BlendMode::SoftLight,
        9 => BlendMode::HardLight,
        10 => BlendMode::Difference,
        11 => BlendMode::Exclusion,
        12 => BlendMode::Hue,
        13 => BlendMode::Saturation,
        14 => BlendMode::Color,
        15 => BlendMode::Luminosity,
        16 => BlendMode::Clear,
        17 => BlendMode::Source,
        18 => BlendMode::SourceIn,
        19 => BlendMode::SourceOut,
        20 => BlendMode::SourceAtop,
        21 => BlendMode::DestinationOver,
        22 => BlendMode::DestinationIn,
        23 => BlendMode::DestinationOut,
        24 => BlendMode::DestinationAtop,
        25 => BlendMode::Xor,
        26 => BlendMode::Modulate,
        27 => BlendMode::Plus,
        _ => BlendMode::SourceOver,
    }
}

/// Decodes a line-cap code.
pub fn map_cap(cap: u8) -> (r: LineCap)
    ensures
        r == cap_of(cap),
{
    match cap {
        1 => LineCap::Round,
        2 => LineCap::Square,
        _ => LineCap::Butt,
    }
}

/// Decodes a line-join code.
pub fn map_join(join: u8) -> (r: LineJoin)
    ensures
        r == join_of(join),
{
    match join {
        1 => LineJoin::Round,
        2 => LineJoin::Bevel,
        _ => LineJoin::Miter,
    }
}

/// Decodes a blend-mode code: the separable and non-separable modes, the
/// Porter-Duff operators and the two additive ones (26 approximates "plus
/// darker" by modulation).
pub fn map_blend_mode(mode: u8) -> (r: BlendMode)
    ensures
        r == blend_of(mode),
{
    match mode {
        0 => BlendMode::SourceOver,
        1 => BlendMode::Multiply,
        2 => BlendMode::Screen,
        3 => BlendMode::Overlay,
        4 => BlendMode::Darken,
        5 => BlendMode::Lighten,
        6 => BlendMode::ColorDodge,
        7 => BlendMode::ColorBurn,
        8 => BlendMode::SoftLight,
        9 => BlendMode::HardLight,
        10 => BlendMode::Difference,
        11 => BlendMode::Exclusion,
        12 => BlendMode::Hue,
        13 => BlendMode::Saturation,
        14 => BlendMode::Color,
        15 => BlendMode::Luminosity,
        16 => BlendMode::Clear,
        17 => BlendMode::Source,
        18 => BlendMode::SourceIn,
        19 => BlendMode::SourceOut,
        20 => BlendMode::SourceAtop,
        21 => BlendMode::DestinationOver,
        22 => BlendMode::DestinationIn,
        23 => BlendMode::DestinationOut,
        24 => BlendMode::DestinationAtop,
        25 => BlendMode::Xor,
        26 => BlendMode::Modulate,
        27 => BlendMode::Plus,
        _ => BlendMode::SourceOver,
    }
}

} // verus!
