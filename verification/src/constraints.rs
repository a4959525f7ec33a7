//! Size constraints for a pane of a pane grid.
use vstd::prelude::*;

use crate::geometry::{Axis, Size, INFINITY_BITS};

verus! {

/// Size constraints for a pane in a pane grid.
#[derive(Debug, Clone, Copy, PartialEq, Eq, Structural)]
pub struct Constraints {
    /// The minimum size of the pane.
    pub min: Size,
    /// The maximum size of the pane.
    pub max: Size,
    pass_through_width: bool,
    pass_through_height: bool,
}

impl Constraints {
    /// The minimum size.
    pub closed spec fn spec_min(self) -> Size {
        self.min
    }

    /// The maximum size.
    pub closed spec fn spec_max(self) -> Size {
        self.max
    }

    /// Whether the pane is transparent to resize interactions on `axis`.
    pub closed spec fn spec_passes_resize(self, axis: Axis) -> bool {
        match axis {
            Axis::Horizontal => self.pass_through_height,
            Axis::Vertical => self.pass_through_width,
        }
    }

    /// Whether the pane is transparent to resizing of its width.
    pub closed spec fn spec_passes_width(self) -> bool {
        self.pass_through_width
    }

    /// Whether the pane is transparent to resizing of its height.
    pub closed spec fn spec_passes_height(self) -> bool {
        self.pass_through_height
    }

    /// The constraints with the pane made transparent to resize
    /// interactions on `axis`.
    pub closed spec fn spec_pass_through(self, axis: Axis) -> Self {
        match axis {
            Axis::Horizontal => Constraints { pass_through_height: true, ..self },
            Axis::Vertical => Constraints { pass_through_width: true, ..self },
        }
    }

    /// Creates pane constraints from minimum and maximum sizes.
    pub fn new(min: Size, max: Size) -> (c: Self)
        ensures
            c.spec_min() == min,
            c.spec_max() == max,
            !c.spec_passes_width(),
            !c.spec_passes_height(),
    {
        Constraints { min, max, pass_through_width: false, pass_through_height: false }
    }

    /// Creates pane constraints with only a minimum size.
    pub fn minimum(min: Size) -> (c: Self)
        ensures
            c.spec_min() == min,
            c.spec_max().width_bits == INFINITY_BITS,
            c.spec_max().height_bits == INFINITY_BITS,
            !c.spec_passes_width(),
            !c.spec_passes_height(),
    {
        Self::new(min, Size::infinite())
    }

    /// Creates pane constraints with the same minimum and maximum size.
    pub fn fixed(size: Size) -> (c: Self)
        ensures
            c.spec_min() == size,
            c.spec_max() == size,
            !c.spec_passes_width(),
            !c.spec_passes_height(),
    {
        Self::new(size, size)
    }

    /// Makes the pane transparent to resize interactions on the given axis.
    ///
    /// The pane keeps its constrained size while dragging its boundary resizes
    /// the nearest non-pass-through panes on either side.
    pub fn pass_through(self, axis: Axis) -> (c: Self)
        ensures
            c == self.spec_pass_through(axis),
            c.spec_min() == self.spec_min(),
            c.spec_max() == self.spec_max(),
            c.spec_passes_resize(axis),
            axis is Horizontal ==> c.spec_passes_width() == self.spec_passes_width(),
            axis is Vertical ==> c.spec_passes_height() == self.spec_passes_height(),
    {
        let mut c = self;
        match axis {
            Axis::Horizontal => c.pass_through_height = true,
            Axis::Vertical => c.pass_through_width = true,
        }
        c
    }

    /// Whether the pane is transparent to resize interactions on `axis`.
    pub fn passes_resize(self, axis: Axis) -> (passes: bool)
        ensures
            passes == self.spec_passes_resize(axis),
    {
        match axis {
            Axis::Horizontal => self.pass_through_height,
            Axis::Vertical => self.pass_through_width,
        }
    }

    /// The constraints a resize along `axis` sees: a pass-through pane
    /// collapses to a fixed zero size, any other pane is unchanged.
    pub fn for_resize(self, axis: Axis) -> (c: Self)
        ensures
            self.spec_passes_resize(axis) ==> c.spec_min() == Size::spec_zero() && c.spec_max() == Size::spec_zero()
                && !c.spec_passes_width() && !c.spec_passes_height(),
            !self.spec_passes_resize(axis) ==> c == self,
    {
        if self.passes_resize(axis) {
            Self::fixed(Size::zero())
        } else {
            self
        }
    }
}

/// What the constraints are made of: a pane passes horizontal resizes
/// through when it passes its height through and vertical ones when it
/// passes its width through, and constraints that agree on the minimum,
/// the maximum and both pass-through marks are equal.
pub proof fn lemma_constraints_parts(c: Constraints, d: Constraints)
    ensures
        c.spec_passes_resize(Axis::Horizontal) == c.spec_passes_height(),
        c.spec_passes_resize(Axis::Vertical) == c.spec_passes_width(),
        c.spec_min() == d.spec_min() && c.spec_max() == d.spec_max() && c.spec_passes_width() == d.spec_passes_width()
            && c.spec_passes_height() == d.spec_passes_height() ==> c == d,
{
}

/// Passing resizes through on one axis keeps the sizes, marks that axis,
/// leaves the other axis as it was, and is idempotent.
pub proof fn law_pass_through(c: Constraints, axis: Axis, other: Axis)
    requires
        other != axis,
    ensures
        c.spec_pass_through(axis).spec_min() == c.spec_min(),
        c.spec_pass_through(axis).spec_max() == c.spec_max(),
        c.spec_pass_through(axis).spec_passes_resize(axis),
        c.spec_pass_through(axis).spec_passes_resize(other) == c.spec_passes_resize(other),
        c.spec_pass_through(axis).spec_pass_through(axis) == c.spec_pass_through(axis),
{
}

impl Default for Constraints {
    /// Only a zero minimum size: `minimum(Size::zero())`.
    fn default() -> (c: Self)
        ensures
            c.spec_min() == Size::spec_zero(),
            c.spec_max().width_bits == INFINITY_BITS,
            c.spec_max().height_bits == INFINITY_BITS,
            !c.spec_passes_width(),
            !c.spec_passes_height(),
    {
        Self::minimum(Size::zero())
    }
}

} // verus!
