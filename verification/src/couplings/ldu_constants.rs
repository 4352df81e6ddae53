//! Lengths of coupling geometry, in thousandths of an LDraw unit (LDU).
//! One LDU is 0.4 mm; 20 LDU are one standard module (8 mm).

use vstd::prelude::*;

verus! {

/// A full-length Technic pin or hole: one module, 20 LDU.
pub const FULL_PIN_LENGTH: i32 = 20000;

/// A half-length Technic pin or hole: half a module, 10 LDU.
pub const HALF_PIN_LENGTH: i32 = 10000;

/// An axle segment: a fifth of a module, 4 LDU.
pub const AXLE_SEGMENT_LENGTH: i32 = 4000;

/// The inner radius of a standard anti-stud tube: 6 LDU.
pub const TUBE_RADIUS: i32 = 6000;

} // verus!
