//! Constraints: projection operators over particles.
//!
//! The three constraint kinds are gathered in one tagged enumeration,
//! dispatched by match in the hot loop.  Every constraint acquires its
//! particles in ascending id order (`lock_ids`), which gives a total
//! lock order across all constraints and so freedom from deadlock when
//! projection runs in parallel.

use crate::particle::Particle;
use crate::particle::ParticleI;
use crate::particle::same_but_pos;
use crate::pr_model::PrConstraint;
use crate::vec2::V2;
use crate::vec2::V2i;
use crate::vec2::v2_add_s;
use rand::Rng;
use vstd::prelude::*;

pub mod constraint_template;
pub mod distance;
pub mod leash;
pub mod particle_list;
pub mod volume;

use distance::DistanceConstraint;
use distance::distance_pre_out;
use distance::distance_step_degenerate;
use distance::distance_step_out;
use leash::LeashConstraint;
use leash::leash_step_out;
use volume::VolumeConstraint;
use volume::volume_step_out;

verus! {

/// Strict upper bound of one random nudge coordinate: 1e-5 in fixed
/// point.
pub const JITTER_MAX: i64 = 10_000;

/// A small non-negative displacement, as handed out by `rp`: each
/// coordinate lies in the half-open range [0, 1e-5).
pub open spec fn jitter_ok(j: V2i) -> bool {
    &&& 0 <= j.x < JITTER_MAX
    &&& 0 <= j.y < JITTER_MAX
}

/// Relies on rand::thread_rng / rand::Rng::gen: a pseudo-random value,
/// of which nothing is promised.
#[verifier::external_body]
fn random_u32() -> (r: u32) {
    rand::thread_rng().gen::<u32>()
}

/// Tiny random displacement used to escape degenerate configurations
/// (coincident particles, where no correction direction exists).
pub fn rp() -> (r: V2)
    ensures
        jitter_ok(r@),
{
    let dx = random_u32();
    let dy = random_u32();
    V2 { x: (dx % 10_000u32) as i64, y: (dy % 10_000u32) as i64 }
}

/// Any constraint of the engine.
#[derive(Clone, Debug)]
pub enum Constraint {
    Distance(DistanceConstraint),
    Volume(VolumeConstraint),
    Leash(LeashConstraint),
}

/// Handle to a constraint, as stored by the groups.
pub type CRef = Constraint;

/// Whether the projection step of `c` is degenerate (coincident
/// particles of a distance constraint), in which case it nudges
/// movable particles randomly instead of projecting.
pub open spec fn step_degenerate_s(c: Constraint, parts: Seq<Particle>, dt: int) -> bool {
    match c {
        Constraint::Distance(d) => distance_step_degenerate(
            parts[d.ps_sort.ids@[0] as int]@,
            parts[d.ps_sort.ids@[1] as int]@,
            dt,
        ),
        Constraint::Volume(_) => false,
        Constraint::Leash(_) => false,
    }
}

/// The constraint after the pre-iteration pass: the multiplier reset,
/// and for a distance constraint possibly a plastically relaxed rest
/// length.
pub open spec fn pre_next_s(c: Constraint, parts: Seq<Particle>) -> Constraint {
    match c {
        Constraint::Distance(d) => {
            let out = distance_pre_out(d, parts[d.ps.ids@[0] as int]@, parts[d.ps.ids@[1] as int]@);
            Constraint::Distance(DistanceConstraint { lambda: 0, l0: out.1 as i64, ..d })
        },
        Constraint::Volume(v) => Constraint::Volume(VolumeConstraint { lambda: 0, ..v }),
        Constraint::Leash(l) => Constraint::Leash(LeashConstraint { lambda: 0, ..l }),
    }
}

/// Whether the constraint survives the pre-iteration pass (a distance
/// constraint dies outside its break range; the others always live).
pub open spec fn pre_alive_s(c: Constraint, parts: Seq<Particle>) -> bool {
    match c {
        Constraint::Distance(d) => distance_pre_out(
            d,
            parts[d.ps.ids@[0] as int]@,
            parts[d.ps.ids@[1] as int]@,
        ).0,
        Constraint::Volume(_) => true,
        Constraint::Leash(_) => true,
    }
}

/// The exact relation of one projection step: what `Constraint::step`
/// does to the constraint and to the particle vector.  It is a
/// relation rather than a function because a degenerate distance step
/// draws a random nudge.
pub open spec fn step_rel(
    c0: Constraint,
    c1: Constraint,
    p0: Seq<Particle>,
    p1: Seq<Particle>,
    dt: int,
) -> bool {
    &&& p1.len() == p0.len()
    &&& forall|k: int|
        0 <= k < p0.len() && !c0.lock_ids().contains(k as usize) ==> #[trigger] p1[k] == p0[k]
    &&& match c0 {
        Constraint::Distance(d) => {
            let a = d.ps_sort.ids@[0] as int;
            let b = d.ps_sort.ids@[1] as int;
            let q1 = p0[a]@;
            let q2 = p0[b]@;
            c1 matches Constraint::Distance(d2) && {
                &&& d2 == (DistanceConstraint { lambda: d2.lambda, ..d })
                &&& if distance_step_degenerate(q1, q2, dt) {
                    &&& d2 == d
                    &&& (if q1.imass != 0 {
                        exists|j: V2i|
                            #[trigger] jitter_ok(j) && p1[a]@ == (ParticleI {
                                pos: v2_add_s(q1.pos, j),
                                ..q1
                            })
                    } else {
                        p1[a] == p0[a]
                    })
                    &&& (if q2.imass != 0 {
                        exists|j: V2i|
                            #[trigger] jitter_ok(j) && p1[b]@ == (ParticleI {
                                pos: v2_add_s(q2.pos, j),
                                ..q2
                            })
                    } else {
                        p1[b] == p0[b]
                    })
                } else {
                    let out = distance_step_out(d, q1, q2, dt);
                    &&& d2.lambda as int == out.lambda
                    &&& p1[a]@ == (ParticleI { pos: out.pos1, ..q1 })
                    &&& p1[b]@ == (ParticleI { pos: out.pos2, ..q2 })
                }
            }
        },
        Constraint::Volume(v) => {
            let a = v.ps_sort.ids@[0] as int;
            let b = v.ps_sort.ids@[1] as int;
            let c3 = v.ps_sort.ids@[2] as int;
            let out = volume_step_out(v, p0[a]@, p0[b]@, p0[c3]@, dt);
            c1 matches Constraint::Volume(v2) && {
                &&& v2 == (VolumeConstraint { lambda: v2.lambda, ..v })
                &&& v2.lambda as int == out.lambda
                &&& p1[a]@ == (ParticleI { pos: out.pos0, ..p0[a]@ })
                &&& p1[b]@ == (ParticleI { pos: out.pos1, ..p0[b]@ })
                &&& p1[c3]@ == (ParticleI { pos: out.pos2, ..p0[c3]@ })
            }
        },
        Constraint::Leash(l) => {
            let a = l.p as int;
            let out = leash_step_out(l, p0[a]@, dt);
            c1 matches Constraint::Leash(l2) && {
                &&& l2 == (LeashConstraint { lambda: l2.lambda, ..l })
                &&& l2.lambda as int == out.lambda
                &&& p1[a]@ == (ParticleI { pos: out.pos, ..p0[a]@ })
            }
        },
    }
}

impl Constraint {
    /// Structural well-formedness of the underlying constraint.
    pub open spec fn wf(self) -> bool {
        match self {
            Constraint::Distance(d) => d.wf(),
            Constraint::Volume(v) => v.wf(),
            Constraint::Leash(l) => l.wf(),
        }
    }

    /// Every referenced particle id lies below `n`.
    pub open spec fn ids_in(self, n: nat) -> bool {
        match self {
            Constraint::Distance(d) => d.ids_in(n),
            Constraint::Volume(v) => v.ids_in(n),
            Constraint::Leash(l) => l.ids_in(n),
        }
    }

    /// The particle ids in the order the step acquires them: ascending,
    /// so any two constraints sharing particles lock in one total order.
    pub open spec fn lock_ids(self) -> Seq<usize> {
        match self {
            Constraint::Distance(d) => d.ps_sort.ids@,
            Constraint::Volume(v) => v.ps_sort.ids@,
            Constraint::Leash(l) => seq![l.p],
        }
    }

    /// One projection step.
    #[verifier::rlimit(100)]
    pub fn step(&mut self, parts: &mut Vec<Particle>, dt: i64)
        requires
            old(self).wf(),
            old(self).ids_in(old(parts)@.len() as nat),
            forall|k: int| 0 <= k < old(parts)@.len() ==> (#[trigger] old(parts)@[k]).wf(),
        ensures
            final(parts)@.len() == old(parts)@.len(),
            final(self).wf(),
            final(self).ids_in(old(parts)@.len() as nat),
            final(self).lock_ids() == old(self).lock_ids(),
            forall|k: int|
                0 <= k < old(parts)@.len() ==> same_but_pos(
                    old(parts)@[k],
                    #[trigger] final(parts)@[k],
                ),
            forall|k: int|
                0 <= k < old(parts)@.len() && old(parts)@[k].imass == 0
                    ==> (#[trigger] final(parts)@[k])@.pos == old(parts)@[k]@.pos,
            forall|k: int|
                0 <= k < old(parts)@.len() && !old(self).lock_ids().contains(k as usize)
                    ==> final(parts)@[k] == old(parts)@[k],
            step_rel(*old(self), *final(self), old(parts)@, final(parts)@, dt as int),
            match *old(self) {
                Constraint::Distance(d) => {
                    let a = d.ps_sort.ids@[0] as int;
                    let b = d.ps_sort.ids@[1] as int;
                    let p1 = old(parts)@[a]@;
                    let p2 = old(parts)@[b]@;
                    *final(self) matches Constraint::Distance(d2) && {
                        &&& d2 == (DistanceConstraint { lambda: d2.lambda, ..d })
                        &&& if distance_step_degenerate(p1, p2, dt as int) {
                            &&& d2 == d
                            &&& (if p1.imass != 0 {
                                exists|j: V2i|
                                    #[trigger] jitter_ok(j) && final(parts)@[a]@ == (ParticleI {
                                        pos: v2_add_s(p1.pos, j),
                                        ..p1
                                    })
                            } else {
                                final(parts)@[a] == old(parts)@[a]
                            })
                            &&& (if p2.imass != 0 {
                                exists|j: V2i|
                                    #[trigger] jitter_ok(j) && final(parts)@[b]@ == (ParticleI {
                                        pos: v2_add_s(p2.pos, j),
                                        ..p2
                                    })
                            } else {
                                final(parts)@[b] == old(parts)@[b]
                            })
                        } else {
                            let out = distance_step_out(d, p1, p2, dt as int);
                            &&& d2.lambda as int == out.lambda
                            &&& final(parts)@[a]@ == (ParticleI { pos: out.pos1, ..p1 })
                            &&& final(parts)@[b]@ == (ParticleI { pos: out.pos2, ..p2 })
                        }
                    }
                },
                Constraint::Volume(v) => {
                    let a = v.ps_sort.ids@[0] as int;
                    let b = v.ps_sort.ids@[1] as int;
                    let c3 = v.ps_sort.ids@[2] as int;
                    let out = volume_step_out(
                        v,
                        old(parts)@[a]@,
                        old(parts)@[b]@,
                        old(parts)@[c3]@,
                        dt as int,
                    );
                    *final(self) matches Constraint::Volume(v2) && {
                        &&& v2 == (VolumeConstraint { lambda: v2.lambda, ..v })
                        &&& v2.lambda as int == out.lambda
                        &&& final(parts)@[a]@ == (ParticleI { pos: out.pos0, ..old(parts)@[a]@ })
                        &&& final(parts)@[b]@ == (ParticleI { pos: out.pos1, ..old(parts)@[b]@ })
                        &&& final(parts)@[c3]@ == (ParticleI { pos: out.pos2, ..old(parts)@[c3]@ })
                    }
                },
                Constraint::Leash(l) => {
                    let a = l.p as int;
                    let out = leash_step_out(l, old(parts)@[a]@, dt as int);
                    *final(self) matches Constraint::Leash(l2) && {
                        &&& l2 == (LeashConstraint { lambda: l2.lambda, ..l })
                        &&& l2.lambda as int == out.lambda
                        &&& final(parts)@[a]@ == (ParticleI { pos: out.pos, ..old(parts)@[a]@ })
                    }
                },
            },
    {
        match self {
            Constraint::Distance(d) => {
                let ghost d0 = *d;
                let ghost ps0 = parts@;
                d.step(parts, dt);
                proof {
                    let a = d0.ps_sort.ids@[0] as int;
                    let b = d0.ps_sort.ids@[1] as int;
                    crate::constraint::distance::lemma_distance_zero_mass(
                        d0,
                        ps0[a]@,
                        ps0[b]@,
                        dt as int,
                    );
                    assert forall|k: int|
                        0 <= k < ps0.len() && !d0.ps_sort.ids@.contains(k as usize) implies parts@[k]
                        == ps0[k] by {
                        assert(d0.ps_sort.ids@[0] == a as usize);
                        assert(d0.ps_sort.ids@[1] == b as usize);
                        assert(k != a && k != b);
                    }
                }
            },
            Constraint::Volume(v) => {
                let ghost v0 = *v;
                let ghost ps0 = parts@;
                v.step(parts, dt);
                proof {
                    let a = v0.ps_sort.ids@[0] as int;
                    let b = v0.ps_sort.ids@[1] as int;
                    let c3 = v0.ps_sort.ids@[2] as int;
                    crate::constraint::volume::lemma_volume_zero_mass(
                        v0,
                        ps0[a]@,
                        ps0[b]@,
                        ps0[c3]@,
                        dt as int,
                    );
                    assert forall|k: int|
                        0 <= k < ps0.len() && !v0.ps_sort.ids@.contains(k as usize) implies parts@[k]
                        == ps0[k] by {
                        assert(v0.ps_sort.ids@[0] == a as usize);
                        assert(v0.ps_sort.ids@[1] == b as usize);
                        assert(v0.ps_sort.ids@[2] == c3 as usize);
                        assert(k != a && k != b && k != c3);
                    }
                }
            },
            Constraint::Leash(l) => {
                let ghost l0 = *l;
                let ghost ps0 = parts@;
                l.step(parts, dt);
                proof {
                    let a = l0.p as int;
                    assert forall|k: int|
                        0 <= k < ps0.len() && !seq![l0.p].contains(k as usize) implies parts@[k]
                        == ps0[k] by {
                        assert(seq![l0.p][0] == l0.p);
                        assert(k != a);
                    }
                }
            },
        }
    }

    /// Reset the multiplier, apply plasticity, and report whether the
    /// constraint stays alive.
    pub fn pre_iteration(&mut self, parts: &Vec<Particle>) -> (alive: bool)
        requires
            old(self).wf(),
            old(self).ids_in(parts@.len() as nat),
        ensures
            *final(self) == pre_next_s(*old(self), parts@),
            alive == pre_alive_s(*old(self), parts@),
            final(self).wf(),
            final(self).ids_in(parts@.len() as nat),
            final(self).lock_ids() == old(self).lock_ids(),
    {
        match self {
            Constraint::Distance(d) => d.pre_iteration(parts),
            Constraint::Volume(v) => v.pre_iteration(),
            Constraint::Leash(l) => l.pre_iteration(),
        }
    }

    /// Snapshot of the constraint under a reporting id; a volume
    /// constraint reports its own indexing id instead.
    pub fn render(&self, id: isize) -> (r: PrConstraint)
        ensures
            match self {
                Constraint::Distance(d) => r.id == id && r.particles@ == d.ps.ids@,
                Constraint::Volume(v) => r.id == v.id && r.particles@ == v.ps.ids@,
                Constraint::Leash(l) => r.id == id && r.particles@ == seq![l.p],
            },
    {
        match self {
            Constraint::Distance(d) => d.render(id),
            Constraint::Volume(v) => v.render(),
            Constraint::Leash(l) => l.render(id),
        }
    }
}

} // verus!
