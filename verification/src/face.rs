//! Textured triangle faces, correlating live particle ids with the
//! texture coordinates of an external renderer.

use vstd::prelude::*;

verus! {

/// One triangle: the three particle ids and the three indices into a
/// texture's uv table.
#[derive(Clone, Copy, Debug)]
pub struct Face {
    pub vid: [usize; 3],
    pub uvid: [usize; 3],
}

/// The faces sharing one texture.
#[derive(Clone, Debug)]
pub struct FaceGroup {
    pub faces: Vec<Face>,
}

} // verus!
