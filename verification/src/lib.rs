//! Layout, gesture and text-cache logic of a retained-mode GUI toolkit:
//! pane-grid split trees and their constraints, the ownership latch of
//! an in-flight scroll gesture, the two-generation paragraph cache and
//! the key-following pairing of keyed columns.
use vstd::prelude::*;

pub mod geometry;
pub mod constraints;
pub mod node;
pub mod clock;
pub mod scroll_latch;
pub mod paragraph_cache;
pub mod keyed;
pub mod shaper;
pub mod text_hit;
