pub mod candidate_list;

use vstd::prelude::*;
use crate::extend::color_ref;

verus! {

/// A color written as `0xRRGGBB`.
pub trait Color {
    fn to_color_ref(self) -> u32;
}

impl Color for u32 {
    /// The system color value (`0x00BBGGRR`) of the color `0xRRGGBB`; bits
    /// above the 24 of the color are ignored.
    fn to_color_ref(self) -> (c: u32)
        ensures
            c == (self % 0x100) * 0x10000 + (self / 0x100 % 0x100) * 0x100 + self / 0x10000 % 0x100,
    {
        let mut v = self;
        let b = (v % 0x100) as u8;
        v = v / 0x100;
        let g = (v % 0x100) as u8;
        v = v / 0x100;
        let r = (v % 0x100) as u8;
        assert(self / 0x100 / 0x100 == self / 0x10000) by (nonlinear_arith);
        color_ref(r, g, b)
    }
}

} // verus!
