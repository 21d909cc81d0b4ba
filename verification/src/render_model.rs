//! The compiled model handed to a renderer: particle positions and
//! faces grouped by texture.

use crate::face::FaceGroup;
use crate::vec2::V2;
use vstd::prelude::*;

verus! {

/// Vertices by particle id plus face groups by texture id.
#[derive(Clone, Debug)]
pub struct RenderModel {
    pub vs: Vec<(usize, V2)>,
    pub face_groups: Vec<(i32, FaceGroup)>,
}

impl RenderModel {
    /// The empty render model.
    pub fn new() -> (r: RenderModel)
        ensures
            r.vs@.len() == 0,
            r.face_groups@.len() == 0,
    {
        RenderModel { vs: Vec::new(), face_groups: Vec::new() }
    }
}

} // verus!
