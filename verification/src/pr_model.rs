//! Snapshot types crossing the engine boundary toward a renderer.

use crate::vec2::V2;
use vstd::prelude::*;

verus! {

/// Rendering snapshot of one particle: its position only.
#[derive(Clone, Copy, PartialEq, Eq, Structural, Debug)]
pub struct PrParticle {
    pub pos: V2,
}

/// Rendering snapshot of one constraint: two particle ids denote an
/// edge, three a triangle.  `id` is a non-negative integer correlating
/// with external texture metadata, or -1 when not indexed.
#[derive(Clone, Debug)]
pub struct PrConstraint {
    pub id: isize,
    pub particles: Vec<usize>,
}

/// One full rendering snapshot.  Particles are listed in ascending id
/// order, so successive snapshots of an unchanged world are identical.
#[derive(Clone, Debug)]
pub struct PrModel {
    pub particles: Vec<(usize, PrParticle)>,
    pub constraints: Vec<PrConstraint>,
}

} // verus!
