use vstd::prelude::*;

verus! {

/// A type whose values are quantities of some unit: millimeters for lengths,
/// radians for angles.
pub trait Unit {}

} // verus!
