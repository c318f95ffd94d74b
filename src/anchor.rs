//! Text anchor codes: bits 0-1 pick the vertical placement, bits 2-3 the
//! horizontal one.
use vstd::prelude::*;

verus! {

/// Where a run of text sits horizontally relative to its anchor point.
#[derive(PartialEq, Eq, Structural, Clone, Copy, Debug)]
pub enum HAlign {
    Left,
    Right,
    Center,
}

/// Where a run of text sits vertically relative to its anchor point.
#[derive(PartialEq, Eq, Structural, Clone, Copy, Debug)]
pub enum VAlign {
    Top,
    Bottom,
    Center,
}

/// Bit `k` of `v`.
pub open spec fn bit(v: u32, k: nat) -> bool {
    ((v as int) / (pow2(k) as int)) % 2 == 1
}

/// Two to the power `k`.
pub open spec fn pow2(k: nat) -> nat
    decreases k,
{
    if k == 0 {
        1
    } else {
        2 * pow2((k - 1) as nat)
    }
}

/// Namespace for the anchor codes.
pub struct TextAnchor;

impl TextAnchor {
    pub const CENTER: u32 = 0;
    pub const TOP: u32 = 0b01;
    pub const BOTTOM: u32 = 0b10;
    pub const LEFT: u32 = 0b0100;
    pub const RIGHT: u32 = 0b1000;

    /// The vertical field, bits 0-1.
    pub fn get_v(anchor: u32) -> (r: u32)
        ensures
            r == anchor % 4,
    {
        anchor % 4
    }

    /// The horizontal field, bits 2-3.
    pub fn get_h(anchor: u32) -> (r: u32)
        ensures
            r == (anchor / 4) % 4,
    {
        (anchor / 4) % 4
    }

    /// Left when only the left bit is set, right when only the right bit is
    /// set, centred otherwise.
    pub fn horizontal(anchor: u32) -> (r: HAlign)
        ensures
            r == if bit(anchor, 2) && !bit(anchor, 3) {
                HAlign::Left
            } else if bit(anchor, 3) && !bit(anchor, 2) {
                HAlign::Right
            } else {
                HAlign::Center
            },
    {
        proof {
            reveal_with_fuel(pow2, 4);
            assert(pow2(2) == 4 && pow2(3) == 8);
        }
        let left = (anchor / 4) % 2 == 1;
        let right = (anchor / 8) % 2 == 1;
        if left && !right {
            HAlign::Left
        } else if right && !left {
            HAlign::Right
        } else {
            HAlign::Center
        }
    }

    /// Top when only the top bit is set, bottom when only the bottom bit is
    /// set, centred otherwise.
    pub fn vertical(anchor: u32) -> (r: VAlign)
        ensures
            r == if bit(anchor, 0) && !bit(anchor, 1) {
                VAlign::Top
            } else if bit(anchor, 1) && !bit(anchor, 0) {
                VAlign::Bottom
            } else {
                VAlign::Center
            },
    {
        proof {
            reveal_with_fuel(pow2, 2);
            assert(pow2(0) == 1 && pow2(1) == 2);
            assert((anchor as int) / 1 == anchor);
        }
        let top = anchor % 2 == 1;
        let bottom = (anchor / 2) % 2 == 1;
        if top && !bottom {
            VAlign::Top
        } else if bottom && !top {
            VAlign::Bottom
        } else {
            VAlign::Center
        }
    }
}

} // verus!
