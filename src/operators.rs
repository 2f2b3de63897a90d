use vstd::prelude::*;

verus! {

/// The intersection of two geometric objects (two planes meet in a line, a
/// plane and a line in a point).
pub trait Intersection<Rhs> {
    type Output;

    fn intersection(self, rhs: Rhs) -> Self::Output;
}

} // verus!
