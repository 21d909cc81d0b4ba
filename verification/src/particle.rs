//! Point masses and their semi-implicit Verlet integration.

use crate::fixed::fx_div;
use crate::fixed::fx_div_s;
use crate::pr_model::PrParticle;
use crate::vec2::V2;
use crate::vec2::V2i;
use crate::vec2::v2_add;
use crate::vec2::v2_add_s;
use crate::vec2::v2_mag;
use crate::vec2::v2_mag_s;
use crate::vec2::v2_scale;
use crate::vec2::v2_scale_s;
use crate::vec2::v2_sub;
use crate::vec2::v2_sub_s;
use vstd::prelude::*;

verus! {

/// Ghost model of a particle.
pub ghost struct ParticleI {
    pub id: int,
    pub imass: int,
    pub pos: V2i,
    pub ppos: V2i,
    pub accel: V2i,
}

/// Template for one particle of a physical model: inverse mass and
/// position relative to the model origin.
#[derive(Clone, Copy, PartialEq, Eq, Structural, Debug)]
pub struct ParticleTemplate {
    pub imass: i64,
    pub pos: V2,
}

/// A point mass: stable id, inverse mass (zero meaning immovable),
/// current and previous position, and external acceleration.
#[derive(Clone, Copy, PartialEq, Eq, Structural, Debug)]
pub struct Particle {
    pub id: usize,
    pub imass: i64,
    pub pos: V2,
    pub ppos: V2,
    pub accel: V2,
}

impl View for Particle {
    type V = ParticleI;

    open spec fn view(&self) -> ParticleI {
        ParticleI {
            id: self.id as int,
            imass: self.imass as int,
            pos: self.pos@,
            ppos: self.ppos@,
            accel: self.accel@,
        }
    }
}

/// One integration step: tentative displacement `(pos - ppos) + accel * dt^2`,
/// capped in length at `max_dp`, then applied; an immovable particle is
/// left untouched.
pub open spec fn particle_update_s(p: ParticleI, dt: int, max_dp: int) -> ParticleI {
    if p.imass == 0 {
        p
    } else {
        let dv = v2_scale_s(p.accel, dt);
        let dp0 = v2_add_s(v2_sub_s(p.pos, p.ppos), v2_scale_s(dv, dt));
        let l = v2_mag_s(dp0);
        let dp = if l > max_dp {
            v2_scale_s(dp0, fx_div_s(max_dp, l))
        } else {
            dp0
        };
        ParticleI { pos: v2_add_s(p.pos, dp), ppos: p.pos, ..p }
    }
}

/// `b` is `a` with at most the current position changed.
pub open spec fn same_but_pos(a: Particle, b: Particle) -> bool {
    b@ == (ParticleI { pos: b@.pos, ..a@ })
}

impl Particle {
    /// A particle is well formed when its inverse mass is non-negative;
    /// an immovable particle carries inverse mass zero, never infinity.
    pub open spec fn wf(self) -> bool {
        self.imass >= 0
    }

    /// Fresh particle with equal current and previous position.
    pub fn new(id: usize, imass: i64, pos: V2, accel: V2) -> (r: Particle)
        requires
            imass >= 0,
        ensures
            r@ == (ParticleI { id: id as int, imass: imass as int, pos: pos@, ppos: pos@, accel: accel@ }),
            r.wf(),
    {
        Particle { id, imass, pos, ppos: pos, accel }
    }

    /// The stable id.
    pub fn get_id(&self) -> (r: usize)
        ensures
            r == self.id,
    {
        self.id
    }

    /// Restamp the id (done once, on insertion into a particle group).
    pub fn set_id(&mut self, id: usize)
        ensures
            *final(self) == (Particle { id, ..*old(self) }),
    {
        self.id = id;
    }

    /// Current position.
    pub fn get_pos(&self) -> (r: V2)
        ensures
            r == self.pos,
    {
        self.pos
    }

    /// Move the current position only (constraint projection).
    pub fn add_pos(&mut self, dp: V2)
        ensures
            final(self)@ == (ParticleI { pos: v2_add_s(old(self)@.pos, dp@), ..old(self)@ }),
    {
        self.pos = v2_add(self.pos, dp);
    }

    /// Translate both positions (model placement).
    pub fn offset_pos(&mut self, dp: V2)
        ensures
            final(self)@ == (ParticleI {
                pos: v2_add_s(old(self)@.pos, dp@),
                ppos: v2_add_s(old(self)@.ppos, dp@),
                ..old(self)@
            }),
    {
        self.pos = v2_add(self.pos, dp);
        self.ppos = v2_add(self.ppos, dp);
    }

    /// Teleport: both positions set, so the implied velocity is zero.
    pub fn reset_pos(&mut self, p: V2)
        ensures
            final(self)@ == (ParticleI { pos: p@, ppos: p@, ..old(self)@ }),
    {
        self.pos = p;
        self.ppos = p;
    }

    /// Inverse mass.
    pub fn get_imass(&self) -> (r: i64)
        ensures
            r == self.imass,
    {
        self.imass
    }

    /// Integrate one sub-step of length `dt` with the per-step
    /// displacement cap `max_dp`.
    pub fn update(&mut self, dt: i64, max_dp: i64)
        requires
            max_dp >= 0,
        ensures
            final(self)@ == particle_update_s(old(self)@, dt as int, max_dp as int),
    {
        if self.imass == 0 {
            return ;
        }
        let dv = v2_scale(self.accel, dt);
        let dp0 = v2_add(v2_sub(self.pos, self.ppos), v2_scale(dv, dt));
        let l = v2_mag(dp0);
        let dp = if l > max_dp {
            v2_scale(dp0, fx_div(max_dp, l))
        } else {
            dp0
        };
        let p = self.pos;
        self.pos = v2_add(p, dp);
        self.ppos = p;
    }

    /// Snapshot for rendering: the position only.
    pub fn render(&self) -> (r: PrParticle)
        ensures
            r.pos == self.pos,
    {
        PrParticle { pos: self.pos }
    }
}

} // verus!
