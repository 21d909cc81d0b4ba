//! Distance constraints: two particles held at a rest length, with
//! optional one-sidedness, plasticity and a break range.

use crate::constraint::particle_list::ParticleList;
use crate::constraint::particle_list::sorted_ids;
use crate::constraint::jitter_ok;
use crate::constraint::rp;
use crate::fixed::FX_ONE;
use crate::fixed::absi;
use crate::fixed::fx_abs;
use crate::fixed::fx_add;
use crate::fixed::fx_add_s;
use crate::fixed::fx_div;
use crate::fixed::fx_div_s;
use crate::fixed::fx_mul;
use crate::fixed::fx_mul_s;
use crate::fixed::fx_sub;
use crate::fixed::fx_sub_s;
use crate::fixed::lemma_div_nonneg;
use crate::particle::Particle;
use crate::particle::ParticleI;
use crate::pr_model::PrConstraint;
use crate::vec2::V2;
use crate::vec2::V2i;
use crate::vec2::v2_add;
use crate::vec2::v2_add_s;
use crate::vec2::v2_mag;
use crate::vec2::v2_mag_s;
use crate::vec2::v2_sub;
use crate::vec2::v2_sub_s;
use vstd::prelude::*;

verus! {

/// Template for one distance constraint of a physical model; `ps`
/// holds indices into the template's particle list.
#[derive(Clone, Debug)]
pub struct DistanceConstraintTemplate {
    pub ps: Vec<usize>,
    pub l0: i64,
    pub compliance: i64,
    pub ty: DistanceConstraintType,
}

/// Which side of the rest length the constraint acts on.
#[derive(Clone, Copy, PartialEq, Eq, Structural, Debug)]
pub enum DistanceConstraintType {
    Normal,
    Repulsive,
    Attractive,
}

type DCTy = DistanceConstraintType;

/// A distance constraint.  `ps` is the insertion order used for
/// reporting; `ps_sort` holds the same two particles in ascending id
/// order and is the order in which projection acquires them.
#[derive(Clone, Debug)]
pub struct DistanceConstraint {
    pub ps: ParticleList,
    pub ps_sort: ParticleList,
    pub l0: i64,
    pub lambda: i64,
    pub compliance: i64,
    pub plas_thresh: i64,
    pub plas_cutoff: i64,
    pub break_lo: i64,
    pub break_hi: i64,
    pub ty: DCTy,
}

/// Result of one projection step: the accumulated multiplier and the
/// two new positions, in ascending id order.
pub ghost struct DStepOut {
    pub lambda: int,
    pub pos1: V2i,
    pub pos2: V2i,
}

/// One projection step (the step of extended position-based dynamics):
/// with `C = l - l0`, `a~ = compliance / dt^2`, the multiplier moves by
/// `dl = (-C - a~ lambda) / (w1 + w2 + a~)` and each particle by
/// `dl * w_i` along the unit separation vector.  One-sided constraints
/// and massless pairs leave everything in place.
pub open spec fn distance_step_out(c: DistanceConstraint, p1: ParticleI, p2: ParticleI, dt: int) -> DStepOut {
    let unchanged = DStepOut { lambda: c.lambda as int, pos1: p1.pos, pos2: p2.pos };
    let dt2 = fx_mul_s(dt, dt);
    let w1 = p1.imass;
    let w2 = p2.imass;
    let w = fx_add_s(w1, w2);
    if dt2 <= 0 || w == 0 {
        unchanged
    } else {
        let dp = v2_sub_s(p1.pos, p2.pos);
        let l = v2_mag_s(dp);
        if l == 0 {
            unchanged
        } else {
            let dl = fx_sub_s(l, c.l0 as int);
            if (c.ty == DCTy::Repulsive && dl >= 0) || (c.ty == DCTy::Attractive && dl <= 0) {
                unchanged
            } else {
                let ct = fx_div_s(c.compliance as int, dt2);
                let dlambda = fx_div_s(
                    fx_sub_s(fx_sub_s(0, dl), fx_mul_s(ct, c.lambda as int)),
                    fx_add_s(w, ct),
                );
                let cx = fx_div_s(fx_mul_s(dlambda, dp.x), l);
                let cy = fx_div_s(fx_mul_s(dlambda, dp.y), l);
                DStepOut {
                    lambda: fx_add_s(c.lambda as int, dlambda),
                    pos1: V2i {
                        x: fx_add_s(p1.pos.x, fx_mul_s(cx, w1)),
                        y: fx_add_s(p1.pos.y, fx_mul_s(cy, w1)),
                    },
                    pos2: V2i {
                        x: fx_sub_s(p2.pos.x, fx_mul_s(cx, w2)),
                        y: fx_sub_s(p2.pos.y, fx_mul_s(cy, w2)),
                    },
                }
            }
        }
    }
}

/// The projection is degenerate when the two movable particles
/// coincide: the correction direction is undefined and the step
/// instead nudges each movable particle by a small random vector.
pub open spec fn distance_step_degenerate(p1: ParticleI, p2: ParticleI, dt: int) -> bool {
    &&& fx_mul_s(dt, dt) > 0
    &&& fx_add_s(p1.imass, p2.imass) != 0
    &&& v2_mag_s(v2_sub_s(p1.pos, p2.pos)) == 0
}

/// Outcome of the pre-iteration pass: whether the constraint stays
/// alive (the length is inside the break range) and the possibly
/// plastically relaxed rest length.
pub open spec fn distance_pre_out(c: DistanceConstraint, p1: ParticleI, p2: ParticleI) -> (bool, int) {
    let l = v2_mag_s(v2_sub_s(p1.pos, p2.pos));
    if c.break_lo as int > l || (c.break_hi as int) < l {
        (false, c.l0 as int)
    } else if c.plas_thresh == 0 {
        (true, c.l0 as int)
    } else {
        let dl = fx_sub_s(l, c.l0 as int);
        if absi(dl) > c.plas_cutoff as int {
            (true, fx_add_s(c.l0 as int, fx_mul_s(dl, c.plas_thresh as int)))
        } else {
            (true, c.l0 as int)
        }
    }
}

impl DistanceConstraint {
    /// Structural well-formedness: both lists name the same two
    /// distinct particles, the sorted list ascending.
    pub open spec fn wf(self) -> bool {
        &&& self.ps.ids@.len() == 2
        &&& self.ps_sort.ids@.len() == 2
        &&& self.ps_sort.ids@.to_multiset() == self.ps.ids@.to_multiset()
        &&& sorted_ids(self.ps_sort.ids@)
        &&& self.ps_sort.ids@[0] != self.ps_sort.ids@[1]
        &&& self.compliance >= 0
    }

    /// Both particle ids lie below `n`.
    pub open spec fn ids_in(self, n: nat) -> bool {
        &&& self.ps.ids@[0] < n
        &&& self.ps.ids@[1] < n
        &&& self.ps_sort.ids@[0] < n
        &&& self.ps_sort.ids@[1] < n
    }

    /// Constraint between two particles at their current distance.
    pub fn new(parts: &Vec<Particle>, a: usize, b: usize) -> (r: DistanceConstraint)
        requires
            a < parts@.len(),
            b < parts@.len(),
            a != b,
        ensures
            r.is_fresh(a, b, r.l0),
            r.l0 as int == v2_mag_s(v2_sub_s(parts@[a as int].pos@, parts@[b as int].pos@)),
            r.wf(),
            r.ids_in(parts@.len()),
    {
        let pos1 = parts[a].get_pos();
        let pos2 = parts[b].get_pos();
        let l0 = v2_mag(v2_sub(pos1, pos2));
        Self::new_with_l0(a, b, l0)
    }

    /// A freshly built constraint over particles `a` and `b` with rest
    /// length `l0` and every option at its default.
    pub open spec fn is_fresh(self, a: usize, b: usize, l0: i64) -> bool {
        &&& self.ps.ids@ == seq![a, b]
        &&& self.ps_sort.ids@ == (if a <= b {
            seq![a, b]
        } else {
            seq![b, a]
        })
        &&& self.l0 == l0
        &&& self.lambda == 0
        &&& self.compliance == 100int  // 1e-7 in fixed point
        &&& self.plas_thresh == 0
        &&& self.plas_cutoff == FX_ONE
        &&& self.break_lo == 0
        &&& self.break_hi == i64::MAX
        &&& self.ty == DCTy::Normal
    }

    /// Constraint between two particles with a given rest length.
    pub fn new_with_l0(a: usize, b: usize, l0: i64) -> (r: DistanceConstraint)
        requires
            a != b,
        ensures
            r.is_fresh(a, b, l0),
            r.wf(),
            forall|n: nat| a < n && b < n ==> r.ids_in(n),
    {
        let mut ids: Vec<usize> = Vec::new();
        ids.push(a);
        ids.push(b);
        let ps = ParticleList::new(ids, false);
        let mut ids2: Vec<usize> = Vec::new();
        ids2.push(a);
        ids2.push(b);
        let ps_sort = ParticleList::new(ids2, true);
        proof {
            assert(ps.ids@ =~= seq![a, b]);
            lemma_sorted2(ps_sort.ids@, seq![a, b]);
        }
        DistanceConstraint {
            ps,
            ps_sort,
            l0,
            lambda: 0,
            compliance: 100,
            plas_thresh: 0,
            plas_cutoff: FX_ONE,
            break_lo: 0,
            break_hi: i64::MAX,
            ty: DCTy::Normal,
        }
    }

    /// Act only when longer than the rest length (collisions).
    pub fn repulsive_only(self) -> (r: DistanceConstraint)
        ensures
            r == (DistanceConstraint { ty: DCTy::Repulsive, ..self }),
    {
        DistanceConstraint { ty: DCTy::Repulsive, ..self }
    }

    /// Act only when shorter than the rest length.
    pub fn attractive_only(self) -> (r: DistanceConstraint)
        ensures
            r == (DistanceConstraint { ty: DCTy::Attractive, ..self }),
    {
        DistanceConstraint { ty: DCTy::Attractive, ..self }
    }

    /// Enable plastic yield: when `|l - l0|` exceeds `cutoff * l0`,
    /// the rest length relaxes by `(l - l0) * thresh` each pre-pass.
    pub fn with_plasticity(self, thresh: i64, cutoff: i64) -> (r: DistanceConstraint)
        ensures
            r == (DistanceConstraint {
                plas_thresh: thresh,
                plas_cutoff: fx_mul_s(cutoff as int, self.l0 as int) as i64,
                ..self
            }),
    {
        let pc = fx_mul(cutoff, self.l0);
        DistanceConstraint { plas_thresh: thresh, plas_cutoff: pc, ..self }
    }

    /// Set the break range, as factors of the rest length.
    pub fn with_break_range(self, range: [i64; 2]) -> (r: DistanceConstraint)
        ensures
            r == (DistanceConstraint {
                break_lo: fx_mul_s(range[0] as int, self.l0 as int) as i64,
                break_hi: fx_mul_s(range[1] as int, self.l0 as int) as i64,
                ..self
            }),
    {
        let lo = fx_mul(range[0], self.l0);
        let hi = fx_mul(range[1], self.l0);
        DistanceConstraint { break_lo: lo, break_hi: hi, ..self }
    }

    /// Set the one-sidedness.
    pub fn with_ty(self, ty: DCTy) -> (r: DistanceConstraint)
        ensures
            r == (DistanceConstraint { ty, ..self }),
    {
        DistanceConstraint { ty, ..self }
    }

    /// Set the compliance (inverse stiffness; zero is fully rigid).
    pub fn with_compliance(self, c: i64) -> (r: DistanceConstraint)
        ensures
            r == (DistanceConstraint { compliance: c, ..self }),
    {
        DistanceConstraint { compliance: c, ..self }
    }

    /// Wrap into the engine's constraint enumeration.
    pub fn build(self) -> (r: crate::constraint::Constraint)
        ensures
            r == crate::constraint::Constraint::Distance(self),
    {
        crate::constraint::Constraint::Distance(self)
    }

    /// Snapshot: the indexing id and the two particles in insertion order.
    pub fn render(&self, id: isize) -> (r: PrConstraint)
        ensures
            r.id == id,
            r.particles@ == self.ps.ids@,
    {
        PrConstraint { id, particles: self.ps.ids() }
    }

    /// Reset the multiplier; apply plastic yield; report whether the
    /// current length is still inside the break range.
    pub fn pre_iteration(&mut self, parts: &Vec<Particle>) -> (alive: bool)
        requires
            old(self).wf(),
            old(self).ids_in(parts@.len()),
        ensures
            *final(self) == (DistanceConstraint {
                lambda: 0,
                l0: final(self).l0,
                ..*old(self)
            }),
            ({
                let p1 = parts@[old(self).ps.ids@[0] as int]@;
                let p2 = parts@[old(self).ps.ids@[1] as int]@;
                let out = distance_pre_out(*old(self), p1, p2);
                alive == out.0 && final(self).l0 as int == out.1
            }),
    {
        self.lambda = 0;
        let ia = self.ps.at(0);
        let ib = self.ps.at(1);
        let dp = v2_sub(parts[ia].get_pos(), parts[ib].get_pos());
        let l = v2_mag(dp);
        if self.break_lo > l || self.break_hi < l {
            return false;
        }
        if self.plas_thresh == 0 {
            return true;
        }
        let dl = fx_sub(l, self.l0);
        if fx_abs(dl) > self.plas_cutoff {
            self.l0 = fx_add(self.l0, fx_mul(dl, self.plas_thresh));
        }
        true
    }

    /// One projection step, acquiring the two particles in ascending
    /// id order.
    pub fn step(&mut self, parts: &mut Vec<Particle>, dt: i64)
        requires
            old(self).wf(),
            old(self).ids_in(old(parts)@.len()),
            forall|k: int| 0 <= k < old(parts)@.len() ==> (#[trigger] old(parts)@[k]).wf(),
        ensures
            final(parts)@.len() == old(parts)@.len(),
            *final(self) == (DistanceConstraint { lambda: final(self).lambda, ..*old(self) }),
            ({
                let a = old(self).ps_sort.ids@[0] as int;
                let b = old(self).ps_sort.ids@[1] as int;
                let p1 = old(parts)@[a]@;
                let p2 = old(parts)@[b]@;
                &&& forall|k: int|
                    0 <= k < old(parts)@.len() && k != a && k != b
                        ==> final(parts)@[k] == old(parts)@[k]
                &&& if distance_step_degenerate(p1, p2, dt as int) {
                    &&& final(self).lambda == old(self).lambda
                    &&& (if p1.imass != 0 {
                        exists|j: V2i|
                            #[trigger] jitter_ok(j) && final(parts)@[a]@ == (ParticleI {
                                pos: v2_add_s(p1.pos, j),
                                ..p1
                            })
                    } else {
                        final(parts)@[a] == old(parts)@[a]
                    })
                    &&& (if p2.imass != 0 {
                        exists|j: V2i|
                            #[trigger] jitter_ok(j) && final(parts)@[b]@ == (ParticleI {
                                pos: v2_add_s(p2.pos, j),
                                ..p2
                            })
                    } else {
                        final(parts)@[b] == old(parts)@[b]
                    })
                } else {
                    let out = distance_step_out(*old(self), p1, p2, dt as int);
                    &&& final(self).lambda as int == out.lambda
                    &&& final(parts)@[a]@ == (ParticleI { pos: out.pos1, ..p1 })
                    &&& final(parts)@[b]@ == (ParticleI { pos: out.pos2, ..p2 })
                }
            }),
    {
        let ia = self.ps_sort.at(0);
        let ib = self.ps_sort.at(1);
        let dt2 = fx_mul(dt, dt);
        let w1 = parts[ia].get_imass();
        let w2 = parts[ib].get_imass();
        let w = fx_add(w1, w2);
        if dt2 <= 0 || w == 0 {
            return ;
        }
        let pos1 = parts[ia].get_pos();
        let pos2 = parts[ib].get_pos();
        let dp = v2_sub(pos1, pos2);
        let l = v2_mag(dp);
        if l == 0 {
            // Coincident particles: the direction is undefined, so
            // nudge each movable particle and let the next pass recover.
            if w1 != 0 {
                let j = rp();
                let pa = parts[ia];
                parts[ia] = Particle { pos: v2_add(pos1, j), ..pa };
            }
            if w2 != 0 {
                let j = rp();
                let pb = parts[ib];
                parts[ib] = Particle { pos: v2_add(parts[ib].get_pos(), j), ..pb };
            }
            return ;
        }
        let dl = fx_sub(l, self.l0);
        if (matches!(self.ty, DCTy::Repulsive) && dl >= 0) || (matches!(self.ty, DCTy::Attractive)
            && dl <= 0) {
            return ;
        }
        let ct = fx_div(self.compliance, dt2);
        proof {
            lemma_div_nonneg(self.compliance as int, dt2 as int);
        }
        let denom = fx_add(w, ct);
        let dlambda = fx_div(fx_sub(fx_sub(0, dl), fx_mul(ct, self.lambda)), denom);
        let cx = fx_div(fx_mul(dlambda, dp.x), l);
        let cy = fx_div(fx_mul(dlambda, dp.y), l);
        self.lambda = fx_add(self.lambda, dlambda);
        let pa = parts[ia];
        parts[ia] = Particle {
            pos: V2 { x: fx_add(pos1.x, fx_mul(cx, w1)), y: fx_add(pos1.y, fx_mul(cy, w1)) },
            ..pa
        };
        let pb = parts[ib];
        parts[ib] = Particle {
            pos: V2 { x: fx_sub(pos2.x, fx_mul(cx, w2)), y: fx_sub(pos2.y, fx_mul(cy, w2)) },
            ..pb
        };
    }
}

/// Scaling by a zero factor gives zero, whatever the other operand.
pub proof fn lemma_mul_zero()
    ensures
        forall|t: int| #[trigger] fx_mul_s(t, 0) == 0,
        forall|t: int| #[trigger] fx_mul_s(0, t) == 0,
{
    assert forall|t: int| #[trigger] fx_mul_s(t, 0) == 0 by {
        assert(t * 0 == 0);
    }
    assert forall|t: int| #[trigger] fx_mul_s(0, t) == 0 by {
        assert(0 * t == 0);
    }
}

/// Adding a zero displacement leaves an in-range coordinate in place.
pub proof fn lemma_add_zero(x: int)
    requires
        i64::MIN <= x <= i64::MAX,
    ensures
        fx_add_s(x, 0) == x,
        fx_sub_s(x, 0) == x,
{
}

/// An in-range ghost vector is unmoved by a zero jitter or correction.
pub proof fn lemma_v2_add_zero(p: V2i)
    requires
        i64::MIN <= p.x <= i64::MAX,
        i64::MIN <= p.y <= i64::MAX,
    ensures
        v2_add_s(p, V2i { x: 0, y: 0 }) == p,
{
    lemma_add_zero(p.x);
    lemma_add_zero(p.y);
}

/// Kinematic immovability at the projection step: a particle with zero
/// inverse mass is left exactly in place, whatever the constraint does.
pub proof fn lemma_distance_zero_mass(c: DistanceConstraint, p1: ParticleI, p2: ParticleI, dt: int)
    requires
        i64::MIN <= p1.pos.x <= i64::MAX,
        i64::MIN <= p1.pos.y <= i64::MAX,
        i64::MIN <= p2.pos.x <= i64::MAX,
        i64::MIN <= p2.pos.y <= i64::MAX,
    ensures
        p1.imass == 0 ==> distance_step_out(c, p1, p2, dt).pos1 == p1.pos,
        p2.imass == 0 ==> distance_step_out(c, p1, p2, dt).pos2 == p2.pos,
{
    lemma_mul_zero();
    lemma_add_zero(p1.pos.x);
    lemma_add_zero(p1.pos.y);
    lemma_add_zero(p2.pos.x);
    lemma_add_zero(p2.pos.y);
    let out = distance_step_out(c, p1, p2, dt);
    if p1.imass == 0 {
        assert(out.pos1.x == p1.pos.x && out.pos1.y == p1.pos.y);
    }
    if p2.imass == 0 {
        assert(out.pos2.x == p2.pos.x && out.pos2.y == p2.pos.y);
    }
}

/// The two elements of a sorted two-element list, by cases.
proof fn lemma_sorted2(s: Seq<usize>, orig: Seq<usize>)
    requires
        s.len() == 2,
        orig.len() == 2,
        s.to_multiset() == orig.to_multiset(),
        sorted_ids(s),
    ensures
        orig[0] <= orig[1] ==> s == seq![orig[0], orig[1]],
        orig[0] > orig[1] ==> s == seq![orig[1], orig[0]],
{
    broadcast use vstd::seq_lib::group_to_multiset_ensures;
    broadcast use vstd::multiset::group_multiset_axioms;

    assert(orig =~= seq![orig[0], orig[1]]);
    assert(orig =~= Seq::empty().push(orig[0]).push(orig[1]));
    assert(s =~= Seq::empty().push(s[0]).push(s[1]));
    assert(s.to_multiset().contains(orig[0]));
    assert(s.to_multiset().contains(orig[1]));
    assert(s.contains(orig[0]));
    assert(s.contains(orig[1]));
    assert(orig.contains(s[0]));
    assert(orig.contains(s[1]));
    if s[0] == s[1] {
        assert(orig[0] == s[0] && orig[1] == s[0]);
        assert(s =~= seq![orig[0], orig[1]]);
    } else {
        assert(s[0] <= s[1]);
        if orig[0] <= orig[1] {
            assert(s =~= seq![orig[0], orig[1]]);
        } else {
            assert(s =~= seq![orig[1], orig[0]]);
        }
    }
}

} // verus!
