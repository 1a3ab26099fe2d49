use vstd::prelude::*;

verus! {

/// Largest x coordinate a grid cell can have.
pub const MAP_WIDTH: u8 = 8;

/// Largest y coordinate a grid cell can have.
pub const MAP_HEIGHT: u8 = 9;

} // verus!
