//! GUI layout containers.

use vstd::prelude::*;

verus! {

/// How deeply layout containers (rows, columns, panels) may nest.
pub const MAX_LAYOUT_STACK_DEPTH: usize = 64;

} // verus!
