//! The sides of a plane, and what they say of a point in a volume.

use vstd::prelude::*;

verus! {

/// Where a point lies with respect to a plane.
#[derive(Debug, Clone, Copy, PartialEq, Eq, Structural)]
pub enum PlaneSide {
    Frontside,
    Onside,
    Backside,
}

/// Whether a point with the given sides, one for each plane that bounds a
/// volume, lies in the volume: it is in front of none of the planes.
pub open spec fn inside(sides: Seq<PlaneSide>) -> bool {
    forall|i: int| 0 <= i < sides.len() ==> sides[i] != PlaneSide::Frontside
}

/// Tells whether a point with the given sides lies in the volume.
pub fn contains(sides: &[PlaneSide]) -> (yes: bool)
    ensures
        yes == inside(sides@),
{
    let mut i: usize = 0;
    while i < sides.len()
        invariant
            i <= sides.len(),
            forall|j: int| 0 <= j < i ==> sides@[j] != PlaneSide::Frontside,
        decreases sides.len() - i,
    {
        if sides[i] == PlaneSide::Frontside {
            return false;
        }
        i += 1;
    }
    true
}

} // verus!
