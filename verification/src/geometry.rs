//! Plain sizes and axes.
use vstd::prelude::*;

verus! {

/// The bit pattern of the `f32` value `0.0`.
pub const ZERO_BITS: u32 = 0u32;

/// The bit pattern of the `f32` value positive infinity.
pub const INFINITY_BITS: u32 = 0x7f80_0000u32;

/// An amount of space in two dimensions.
///
/// Each extent is held as the bit pattern of an IEEE-754 binary32 value,
/// exactly as `f32::to_bits` gives it: the logic here moves sizes around
/// and never does arithmetic on them.
#[derive(Debug, Clone, Copy, PartialEq, Eq, Structural, Hash)]
pub struct Size {
    /// The width, as `f32` bits.
    pub width_bits: u32,
    /// The height, as `f32` bits.
    pub height_bits: u32,
}

impl Size {
    /// Creates a size from the bit patterns of its width and height.
    pub fn new(width_bits: u32, height_bits: u32) -> (size: Self)
        ensures
            size.width_bits == width_bits,
            size.height_bits == height_bits,
    {
        Size { width_bits, height_bits }
    }

    /// The size with zero width and zero height.
    pub open spec fn spec_zero() -> Size {
        Size { width_bits: ZERO_BITS, height_bits: ZERO_BITS }
    }

    /// The size with zero width and zero height.
    pub fn zero() -> (size: Self)
        ensures
            size == Size::spec_zero(),
    {
        Size { width_bits: ZERO_BITS, height_bits: ZERO_BITS }
    }

    /// The size with infinite width and infinite height.
    pub fn infinite() -> (size: Self)
        ensures
            size.width_bits == INFINITY_BITS,
            size.height_bits == INFINITY_BITS,
    {
        Size { width_bits: INFINITY_BITS, height_bits: INFINITY_BITS }
    }
}

/// A fixed reference line for the measurement of coordinates.
#[derive(Debug, Clone, Copy, PartialEq, Eq, Structural, Hash)]
pub enum Axis {
    /// The horizontal axis: —
    Horizontal,
    /// The vertical axis: |
    Vertical,
}

} // verus!
