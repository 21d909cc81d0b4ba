//! Leash (marionette) constraints: one particle pinned toward a
//! target position that the controller may overwrite at any time.

use crate::fixed::fx_add;
use crate::fixed::fx_add_s;
use crate::fixed::fx_div;
use crate::fixed::fx_div_s;
use crate::fixed::fx_mul;
use crate::fixed::fx_mul_s;
use crate::fixed::fx_sub;
use crate::fixed::fx_sub_s;
use crate::fixed::lemma_div_nonneg;
use crate::particle::Particle;
use crate::particle::ParticleI;
use crate::pr_model::PrConstraint;
use crate::vec2::V2;
use crate::vec2::V2i;
use crate::vec2::v2_mag;
use crate::vec2::v2_mag_s;
use crate::vec2::v2_sub;
use crate::vec2::v2_sub_s;
use vstd::prelude::*;

verus! {

/// A leash: pins particle `p` toward the world position `pos`, like a
/// distance constraint against an immovable virtual anchor of rest
/// length zero.
#[derive(Clone, Copy, PartialEq, Eq, Structural, Debug)]
pub struct LeashConstraint {
    pub p: usize,
    pub pos: V2,
    pub lambda: i64,
    pub compliance: i64,
}

/// Result of one projection step.
pub ghost struct LStepOut {
    pub lambda: int,
    pub pos: V2i,
}

/// One projection step toward the anchor.  An immovable particle, one
/// already at the anchor, or a vanishing `dt^2` leaves everything in
/// place.
pub open spec fn leash_step_out(c: LeashConstraint, p: ParticleI, dt: int) -> LStepOut {
    let unchanged = LStepOut { lambda: c.lambda as int, pos: p.pos };
    let dt2 = fx_mul_s(dt, dt);
    let w = p.imass;
    if dt2 <= 0 || w == 0 {
        unchanged
    } else {
        let dp = v2_sub_s(p.pos, c.pos@);
        let l = v2_mag_s(dp);
        if l == 0 {
            unchanged
        } else {
            let ct = fx_div_s(c.compliance as int, dt2);
            let dlambda = fx_div_s(
                fx_sub_s(fx_sub_s(0, l), fx_mul_s(ct, c.lambda as int)),
                fx_add_s(w, ct),
            );
            let cx = fx_div_s(fx_mul_s(dlambda, dp.x), l);
            let cy = fx_div_s(fx_mul_s(dlambda, dp.y), l);
            LStepOut {
                lambda: fx_add_s(c.lambda as int, dlambda),
                pos: V2i {
                    x: fx_add_s(p.pos.x, fx_mul_s(cx, w)),
                    y: fx_add_s(p.pos.y, fx_mul_s(cy, w)),
                },
            }
        }
    }
}

impl LeashConstraint {
    /// Compliance must not be negative.
    pub open spec fn wf(self) -> bool {
        self.compliance >= 0
    }

    /// The particle id lies below `n`.
    pub open spec fn ids_in(self, n: nat) -> bool {
        self.p < n
    }

    /// Leash anchored at the particle's current position.
    pub fn new(parts: &Vec<Particle>, p: usize) -> (r: LeashConstraint)
        requires
            p < parts@.len(),
        ensures
            r == (LeashConstraint {
                p,
                pos: parts@[p as int].pos,
                lambda: 0,
                compliance: 10,
            }),
    {
        let pos = parts[p].get_pos();
        Self::new_with_pos(p, pos)
    }

    /// Leash anchored at a given position.
    pub fn new_with_pos(p: usize, pos: V2) -> (r: LeashConstraint)
        ensures
            r == (LeashConstraint {
                p,
                pos,
                lambda: 0,
                compliance: 10,  // 1e-8 in fixed point
            }),
    {
        LeashConstraint { p, pos, lambda: 0, compliance: 10 }
    }

    /// Set the compliance (inverse stiffness; zero is fully rigid).
    pub fn with_compliance(self, c: i64) -> (r: LeashConstraint)
        ensures
            r == (LeashConstraint { compliance: c, ..self }),
    {
        LeashConstraint { compliance: c, ..self }
    }

    /// Wrap into the engine's constraint enumeration.
    pub fn build(self) -> (r: crate::constraint::Constraint)
        ensures
            r == crate::constraint::Constraint::Leash(self),
    {
        crate::constraint::Constraint::Leash(self)
    }

    /// Snapshot: the passed id and the pinned particle.
    pub fn render(&self, id: isize) -> (r: PrConstraint)
        ensures
            r.id == id,
            r.particles@ == seq![self.p],
    {
        let mut particles: Vec<usize> = Vec::new();
        particles.push(self.p);
        proof {
            assert(particles@ =~= seq![self.p]);
        }
        PrConstraint { id, particles }
    }

    /// Reset the multiplier; a leash never breaks.
    pub fn pre_iteration(&mut self) -> (alive: bool)
        ensures
            *final(self) == (LeashConstraint { lambda: 0, ..*old(self) }),
            alive,
    {
        self.lambda = 0;
        true
    }

    /// One projection step.
    pub fn step(&mut self, parts: &mut Vec<Particle>, dt: i64)
        requires
            old(self).wf(),
            old(self).ids_in(old(parts)@.len()),
            forall|k: int| 0 <= k < old(parts)@.len() ==> (#[trigger] old(parts)@[k]).wf(),
        ensures
            final(parts)@.len() == old(parts)@.len(),
            *final(self) == (LeashConstraint { lambda: final(self).lambda, ..*old(self) }),
            ({
                let a = old(self).p as int;
                let out = leash_step_out(*old(self), old(parts)@[a]@, dt as int);
                &&& forall|k: int|
                    0 <= k < old(parts)@.len() && k != a ==> final(parts)@[k] == old(parts)@[k]
                &&& final(self).lambda as int == out.lambda
                &&& final(parts)@[a]@ == (ParticleI { pos: out.pos, ..old(parts)@[a]@ })
            }),
    {
        let i = self.p;
        let dt2 = fx_mul(dt, dt);
        let w = parts[i].get_imass();
        if dt2 <= 0 || w == 0 {
            return ;
        }
        let pos = parts[i].get_pos();
        let dp = v2_sub(pos, self.pos);
        let l = v2_mag(dp);
        if l == 0 {
            return ;
        }
        let ct = fx_div(self.compliance, dt2);
        proof {
            lemma_div_nonneg(self.compliance as int, dt2 as int);
        }
        let dlambda = fx_div(fx_sub(fx_sub(0, l), fx_mul(ct, self.lambda)), fx_add(w, ct));
        let cx = fx_div(fx_mul(dlambda, dp.x), l);
        let cy = fx_div(fx_mul(dlambda, dp.y), l);
        self.lambda = fx_add(self.lambda, dlambda);
        let pa = parts[i];
        parts[i] = Particle {
            pos: V2 { x: fx_add(pos.x, fx_mul(cx, w)), y: fx_add(pos.y, fx_mul(cy, w)) },
            ..pa
        };
    }
}

} // verus!
