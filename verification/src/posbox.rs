//! Axis-aligned hard clamp for particle positions.

use crate::vec2::V2;
use crate::vec2::V2i;
use vstd::prelude::*;

verus! {

/// Clamp of one coordinate into `[lo, hi]` (applied low bound first,
/// so with an inverted box the low bound wins).
pub open spec fn clamp_s(v: int, lo: int, hi: int) -> int {
    if v < lo {
        lo
    } else if v > hi {
        hi
    } else {
        v
    }
}

/// The world bounding box.
#[derive(Clone, Copy, PartialEq, Eq, Structural, Debug)]
pub struct Posbox {
    pub xmin: i64,
    pub xmax: i64,
    pub ymin: i64,
    pub ymax: i64,
}

impl Posbox {
    /// Position after the clamp.
    pub open spec fn apply_s(self, p: V2i) -> V2i {
        V2i {
            x: clamp_s(p.x, self.xmin as int, self.xmax as int),
            y: clamp_s(p.y, self.ymin as int, self.ymax as int),
        }
    }

    /// Whether the clamp would move the position.
    pub open spec fn hits(self, p: V2i) -> bool {
        p.x < self.xmin || p.x > self.xmax || p.y < self.ymin || p.y > self.ymax
    }

    /// Clamp a position into the box; reports whether it moved.
    pub fn apply(&self, pos: &mut V2) -> (flag: bool)
        ensures
            final(pos)@ == self.apply_s(old(pos)@),
            flag == self.hits(old(pos)@),
    {
        let mut flag = false;
        if pos.x < self.xmin {
            pos.x = self.xmin;
            flag = true;
        } else if pos.x > self.xmax {
            pos.x = self.xmax;
            flag = true;
        }
        if pos.y < self.ymin {
            pos.y = self.ymin;
            flag = true;
        } else if pos.y > self.ymax {
            pos.y = self.ymax;
            flag = true;
        }
        flag
    }
}

} // verus!
