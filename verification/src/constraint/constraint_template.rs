//! Value-only constraint descriptions used by physical models.

use crate::constraint::distance::DistanceConstraintTemplate;
use crate::constraint::volume::VolumeConstraintTemplate;
use vstd::prelude::*;

verus! {

/// One constraint of a template; `ps` entries are indices into the
/// template's particle list.
#[derive(Clone, Debug)]
pub enum ConstraintTemplate {
    Distance(DistanceConstraintTemplate),
    Volume(VolumeConstraintTemplate),
}

} // verus!
