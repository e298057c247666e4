//! Plain geometric values: points, affine transforms, colors.

use vstd::prelude::*;

verus! {

/// A point of the plane. Both coordinates are single-precision bit patterns.
#[derive(Clone, Copy, Debug, PartialEq, Eq, Structural)]
pub struct Point {
    pub x: u32,
    pub y: u32,
}

/// The point whose coordinates are both positive zero.
pub open spec fn spec_origin() -> Point {
    Point { x: 0, y: 0 }
}

impl Point {
    pub fn new(x: u32, y: u32) -> (p: Point)
        ensures
            p == (Point { x, y }),
    {
        Point { x, y }
    }

    /// The point `(0.0, 0.0)`.
    pub fn origin() -> (p: Point)
        ensures
            p == spec_origin(),
    {
        Point { x: 0, y: 0 }
    }
}

/// Whether the double-precision value with these bits is less than zero:
/// the sign bit is set, the magnitude is not zero and it is not a NaN.
pub open spec fn spec_is_negative(bits: u64) -> bool {
    0x8000_0000_0000_0000u64 < bits && bits <= 0xFFF0_0000_0000_0000u64
}

/// Decides `value < 0` for a double-precision value given by its bits.
pub fn is_negative(bits: u64) -> (r: bool)
    ensures
        r == spec_is_negative(bits),
{
    0x8000_0000_0000_0000u64 < bits && bits <= 0xFFF0_0000_0000_0000u64
}

/// The bits of the value with the opposite sign.
pub open spec fn spec_negated(bits: u64) -> u64 {
    bits ^ 0x8000_0000_0000_0000u64
}

/// The opposite of a value that is less than zero is not less than zero,
/// and the opposite of its opposite is the value again.
pub proof fn lemma_negated_negative(bits: u64)
    ensures
        spec_is_negative(bits) ==> !spec_is_negative(spec_negated(bits)),
        spec_negated(spec_negated(bits)) == bits,
{
    assert(bits > 0x8000_0000_0000_0000u64 ==> (bits ^ 0x8000_0000_0000_0000u64)
        < 0x8000_0000_0000_0000u64) by (bit_vector);
    assert((bits ^ 0x8000_0000_0000_0000u64) ^ 0x8000_0000_0000_0000u64 == bits) by (bit_vector);
}

/// A 2D affine transform `(a, b, c, d, e, f)`: the linear part maps `(x, y)`
/// to `(a x + c y, b x + d y)`, then `(e, f)` is added. The six coefficients
/// are double-precision bit patterns.
#[derive(Clone, Copy, Debug, PartialEq, Eq, Structural)]
pub struct Transform {
    pub a: u64,
    pub b: u64,
    pub c: u64,
    pub d: u64,
    pub e: u64,
    pub f: u64,
}

/// A color with four channels of eight bits each; channel value `k` stands
/// for the intensity `k / 255`.
#[derive(Clone, Copy, Debug, PartialEq, Eq, Structural)]
pub struct Color {
    pub r: u8,
    pub g: u8,
    pub b: u8,
    pub a: u8,
}

/// Opaque white, the color used where no other is known.
pub open spec fn spec_default_color() -> Color {
    Color { r: 255, g: 255, b: 255, a: 255 }
}

impl Color {
    pub fn rgba_u8(r: u8, g: u8, b: u8, a: u8) -> (c: Color)
        ensures
            c == (Color { r, g, b, a }),
    {
        Color { r, g, b, a }
    }
}

impl Default for Color {
    fn default() -> (c: Color)
        ensures
            c == spec_default_color(),
    {
        Color { r: 255, g: 255, b: 255, a: 255 }
    }
}

} // verus!
