//! Mine Digger core: procedural cube-mesh generation and player kinematics.
//!
//! Geometry and motion are measured in fixed-point milli-units (one
//! thousandth of a world unit), so every computation here is exact integer
//! arithmetic with a verified contract.

use vstd::prelude::*;

pub mod math;
pub mod cube;
pub mod player;
mod clock;

verus! {

/// One thousandth of a world unit: the resolution of all coordinates.
pub const MILLI: i64 = 1000;

} // verus!
