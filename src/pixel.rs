use vstd::prelude::*;

verus! {

/// Largest value a colour channel can hold.
pub const CHANNEL_MAX: u32 = 255;

/// A channel value brought into byte range.
pub open spec fn clamp_spec(v: u32) -> u32 {
    if v > CHANNEL_MAX {
        CHANNEL_MAX
    } else {
        v
    }
}

/// Clamps one colour channel into byte range.
pub fn clamp_channel(v: u32) -> (r: u32)
    ensures
        r == clamp_spec(v),
{
    if v > CHANNEL_MAX {
        CHANNEL_MAX
    } else {
        v
    }
}

/// Pixel `p` of the RGBA bytes `bytes` shows the opaque colour `rgb`, clamped.
pub open spec fn shows(bytes: Seq<u32>, p: int, rgb: [u32; 3]) -> bool {
    &&& bytes[4 * p] == clamp_spec(rgb[0])
    &&& bytes[4 * p + 1] == clamp_spec(rgb[1])
    &&& bytes[4 * p + 2] == clamp_spec(rgb[2])
    &&& bytes[4 * p + 3] == CHANNEL_MAX
}

/// Pixel `p` holds the same four bytes in `a` and in `b`.
pub open spec fn same_pixel(a: Seq<u32>, b: Seq<u32>, p: int) -> bool {
    &&& a[4 * p] == b[4 * p]
    &&& a[4 * p + 1] == b[4 * p + 1]
    &&& a[4 * p + 2] == b[4 * p + 2]
    &&& a[4 * p + 3] == b[4 * p + 3]
}

} // verus!
