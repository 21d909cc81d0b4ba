//! Volume (signed triangle area) constraints over three particles.

use crate::constraint::particle_list::ParticleList;
use crate::constraint::particle_list::sorted_ids;
use crate::fixed::fx_add;
use crate::fixed::fx_add_s;
use crate::fixed::fx_div;
use crate::fixed::fx_div_s;
use crate::fixed::fx_mul;
use crate::fixed::fx_mul_s;
use crate::fixed::fx_sub;
use crate::fixed::fx_sub_s;
use crate::particle::Particle;
use crate::particle::ParticleI;
use crate::pr_model::PrConstraint;
use crate::vec2::V2;
use crate::vec2::V2i;
use crate::vec2::lemma_sq_nonneg;
use crate::vec2::mag_sq_s;
use crate::vec2::v2_add;
use crate::vec2::v2_add_s;
use crate::vec2::v2_scale;
use crate::vec2::v2_scale_s;
use vstd::prelude::*;

verus! {

/// Template for one volume constraint of a physical model; `ps` holds
/// indices into the template's particle list.
#[derive(Clone, Debug)]
pub struct VolumeConstraintTemplate {
    pub id: isize,
    pub ps: Vec<usize>,
    pub compliance: i64,
}

/// Twice the signed triangle area, by the cross-product shoelace
/// formula; the sign is kept so inversions drive back to the original
/// orientation.
pub open spec fn area_s(p1: V2i, p2: V2i, p3: V2i) -> int {
    fx_sub_s(
        fx_sub_s(
            fx_sub_s(
                fx_add_s(fx_add_s(fx_mul_s(p1.x, p2.y), fx_mul_s(p2.x, p3.y)), fx_mul_s(p3.x, p1.y)),
                fx_mul_s(p3.x, p2.y),
            ),
            fx_mul_s(p1.x, p3.y),
        ),
        fx_mul_s(p2.x, p1.y),
    )
}

/// Executable signed area.
pub fn area_p(p1: V2, p2: V2, p3: V2) -> (r: i64)
    ensures
        r as int == area_s(p1@, p2@, p3@),
{
    fx_sub(
        fx_sub(
            fx_sub(
                fx_add(fx_add(fx_mul(p1.x, p2.y), fx_mul(p2.x, p3.y)), fx_mul(p3.x, p1.y)),
                fx_mul(p3.x, p2.y),
            ),
            fx_mul(p1.x, p3.y),
        ),
        fx_mul(p2.x, p1.y),
    )
}

/// A volume constraint.  `id` correlates a triangle with texture
/// metadata in an external renderer; -1 means not indexed.
#[derive(Clone, Debug)]
pub struct VolumeConstraint {
    pub id: isize,
    pub ps: ParticleList,
    pub ps_sort: ParticleList,
    pub s0: i64,
    pub lambda: i64,
    pub compliance: i64,
}

/// Result of one projection step: the multiplier and the three new
/// positions, in ascending id order.
pub ghost struct VStepOut {
    pub lambda: int,
    pub pos0: V2i,
    pub pos1: V2i,
    pub pos2: V2i,
}

/// One projection step: with `C = s - s0` and area gradients rotated
/// from the edges, the multiplier moves by
/// `dl = (-C - a~ lambda) / (sum w_i |grad_i|^2 + a~)` and each
/// particle by `dl * w_i * grad_i`.  A massless triple, a vanishing
/// denominator or a vanishing `dt^2` leaves everything in place.
pub open spec fn volume_step_out(
    c: VolumeConstraint,
    p0: ParticleI,
    p1: ParticleI,
    p2: ParticleI,
    dt: int,
) -> VStepOut {
    let unchanged = VStepOut { lambda: c.lambda as int, pos0: p0.pos, pos1: p1.pos, pos2: p2.pos };
    let dt2 = fx_mul_s(dt, dt);
    let w0 = p0.imass;
    let w1 = p1.imass;
    let w2 = p2.imass;
    let w = fx_add_s(fx_add_s(w0, w1), w2);
    if dt2 <= 0 || w == 0 {
        unchanged
    } else {
        let s = area_s(p0.pos, p1.pos, p2.pos);
        let ds = fx_sub_s(s, c.s0 as int);
        let grad0 = V2i { x: fx_sub_s(p1.pos.y, p2.pos.y), y: fx_sub_s(p2.pos.x, p1.pos.x) };
        let grad1 = V2i { x: fx_sub_s(p2.pos.y, p0.pos.y), y: fx_sub_s(p0.pos.x, p2.pos.x) };
        let grad2 = V2i { x: fx_sub_s(p0.pos.y, p1.pos.y), y: fx_sub_s(p1.pos.x, p0.pos.x) };
        let beta = fx_add_s(
            fx_add_s(fx_mul_s(w0, mag_sq_s(grad0)), fx_mul_s(w1, mag_sq_s(grad1))),
            fx_mul_s(w2, mag_sq_s(grad2)),
        );
        let ct = fx_div_s(c.compliance as int, dt2);
        let denom = fx_add_s(beta, ct);
        if denom == 0 {
            unchanged
        } else {
            let dlambda = fx_div_s(
                fx_sub_s(fx_sub_s(0, ds), fx_mul_s(ct, c.lambda as int)),
                denom,
            );
            VStepOut {
                lambda: fx_add_s(c.lambda as int, dlambda),
                pos0: v2_add_s(p0.pos, v2_scale_s(grad0, fx_mul_s(dlambda, w0))),
                pos1: v2_add_s(p1.pos, v2_scale_s(grad1, fx_mul_s(dlambda, w1))),
                pos2: v2_add_s(p2.pos, v2_scale_s(grad2, fx_mul_s(dlambda, w2))),
            }
        }
    }
}

impl VolumeConstraint {
    /// Structural well-formedness: both lists name the same three
    /// distinct particles, the sorted list ascending.
    pub open spec fn wf(self) -> bool {
        &&& self.ps.ids@.len() == 3
        &&& self.ps_sort.ids@.len() == 3
        &&& self.ps_sort.ids@.to_multiset() == self.ps.ids@.to_multiset()
        &&& sorted_ids(self.ps_sort.ids@)
        &&& self.ps.ids@.no_duplicates()
        &&& self.ps_sort.ids@.no_duplicates()
        &&& self.compliance >= 0
    }

    /// All three particle ids lie below `n`.
    pub open spec fn ids_in(self, n: nat) -> bool {
        &&& forall|k: int| 0 <= k < 3 ==> #[trigger] self.ps.ids@[k] < n
        &&& forall|k: int| 0 <= k < 3 ==> #[trigger] self.ps_sort.ids@[k] < n
    }

    /// Constraint over three particles with the current signed area as
    /// the rest area (read in ascending id order).
    pub fn new(parts: &Vec<Particle>, ids: Vec<usize>) -> (r: VolumeConstraint)
        requires
            ids@.len() == 3,
            ids@.no_duplicates(),
            forall|k: int| 0 <= k < 3 ==> #[trigger] ids@[k] < parts@.len(),
        ensures
            r.wf(),
            r.ids_in(parts@.len()),
            r.ps.ids@ == ids@,
            r.id == -1,
            r.lambda == 0,
            r.compliance == 1int,  // 1e-9 in fixed point
            r.s0 as int == area_s(
                parts@[r.ps_sort.ids@[0] as int].pos@,
                parts@[r.ps_sort.ids@[1] as int].pos@,
                parts@[r.ps_sort.ids@[2] as int].pos@,
            ),
    {
        let mut ids2: Vec<usize> = Vec::new();
        ids2.push(ids[0]);
        ids2.push(ids[1]);
        ids2.push(ids[2]);
        proof {
            assert(ids2@ =~= ids@);
        }
        let ps_sort = ParticleList::new(ids2, true);
        let ps = ParticleList::new(ids, false);
        proof {
            ps.ids@.lemma_multiset_has_no_duplicates();
            ps_sort.ids@.lemma_multiset_has_no_duplicates_conv();
            lemma_multiset_index_in(ps_sort.ids@, ps.ids@, parts@.len());
        }
        let i0 = ps_sort.at(0);
        let i1 = ps_sort.at(1);
        let i2 = ps_sort.at(2);
        let s0 = area_p(parts[i0].get_pos(), parts[i1].get_pos(), parts[i2].get_pos());
        VolumeConstraint { id: -1, ps, ps_sort, s0, lambda: 0, compliance: 1 }
    }

    /// Set the indexing id.
    pub fn with_id(self, id: isize) -> (r: VolumeConstraint)
        ensures
            r == (VolumeConstraint { id, ..self }),
    {
        VolumeConstraint { id, ..self }
    }

    /// Set the compliance (inverse stiffness; zero is fully rigid).
    pub fn with_compliance(self, c: i64) -> (r: VolumeConstraint)
        ensures
            r == (VolumeConstraint { compliance: c, ..self }),
    {
        VolumeConstraint { compliance: c, ..self }
    }

    /// Wrap into the engine's constraint enumeration.
    pub fn build(self) -> (r: crate::constraint::Constraint)
        ensures
            r == crate::constraint::Constraint::Volume(self),
    {
        crate::constraint::Constraint::Volume(self)
    }

    /// Snapshot: the constraint's own indexing id and its three
    /// particles in insertion order.
    pub fn render(&self) -> (r: PrConstraint)
        ensures
            r.id == self.id,
            r.particles@ == self.ps.ids@,
    {
        PrConstraint { id: self.id, particles: self.ps.ids() }
    }

    /// Reset the multiplier; a volume constraint never breaks.
    pub fn pre_iteration(&mut self) -> (alive: bool)
        ensures
            *final(self) == (VolumeConstraint { lambda: 0, ..*old(self) }),
            alive,
    {
        self.lambda = 0;
        true
    }

    /// One projection step, acquiring the three particles in ascending
    /// id order.
    pub fn step(&mut self, parts: &mut Vec<Particle>, dt: i64)
        requires
            old(self).wf(),
            old(self).ids_in(old(parts)@.len()),
            forall|k: int| 0 <= k < old(parts)@.len() ==> (#[trigger] old(parts)@[k]).wf(),
        ensures
            final(parts)@.len() == old(parts)@.len(),
            *final(self) == (VolumeConstraint { lambda: final(self).lambda, ..*old(self) }),
            ({
                let a = old(self).ps_sort.ids@[0] as int;
                let b = old(self).ps_sort.ids@[1] as int;
                let c = old(self).ps_sort.ids@[2] as int;
                let out = volume_step_out(
                    *old(self),
                    old(parts)@[a]@,
                    old(parts)@[b]@,
                    old(parts)@[c]@,
                    dt as int,
                );
                &&& forall|k: int|
                    0 <= k < old(parts)@.len() && k != a && k != b && k != c
                        ==> final(parts)@[k] == old(parts)@[k]
                &&& final(self).lambda as int == out.lambda
                &&& final(parts)@[a]@ == (ParticleI { pos: out.pos0, ..old(parts)@[a]@ })
                &&& final(parts)@[b]@ == (ParticleI { pos: out.pos1, ..old(parts)@[b]@ })
                &&& final(parts)@[c]@ == (ParticleI { pos: out.pos2, ..old(parts)@[c]@ })
            }),
    {
        let i0 = self.ps_sort.at(0);
        let i1 = self.ps_sort.at(1);
        let i2 = self.ps_sort.at(2);
        let dt2 = fx_mul(dt, dt);
        let w0 = parts[i0].get_imass();
        let w1 = parts[i1].get_imass();
        let w2 = parts[i2].get_imass();
        let w = fx_add(fx_add(w0, w1), w2);
        if dt2 <= 0 || w == 0 {
            return ;
        }
        let pos0 = parts[i0].get_pos();
        let pos1 = parts[i1].get_pos();
        let pos2 = parts[i2].get_pos();
        let s = area_p(pos0, pos1, pos2);
        let ds = fx_sub(s, self.s0);
        let grad0 = V2 { x: fx_sub(pos1.y, pos2.y), y: fx_sub(pos2.x, pos1.x) };
        let grad1 = V2 { x: fx_sub(pos2.y, pos0.y), y: fx_sub(pos0.x, pos2.x) };
        let grad2 = V2 { x: fx_sub(pos0.y, pos1.y), y: fx_sub(pos1.x, pos0.x) };
        let m0 = mag_sq(grad0);
        let m1 = mag_sq(grad1);
        let m2 = mag_sq(grad2);
        let beta = fx_add(fx_add(fx_mul(w0, m0), fx_mul(w1, m1)), fx_mul(w2, m2));
        let ct = fx_div(self.compliance, dt2);
        let denom = fx_add(beta, ct);
        if denom == 0 {
            // Fully degenerate triangle with rigid compliance: no
            // direction to project along.
            return ;
        }
        let dlambda = fx_div(fx_sub(fx_sub(0, ds), fx_mul(ct, self.lambda)), denom);
        self.lambda = fx_add(self.lambda, dlambda);
        let pa = parts[i0];
        parts[i0] = Particle { pos: v2_add(pos0, v2_scale(grad0, fx_mul(dlambda, w0))), ..pa };
        let pb = parts[i1];
        parts[i1] = Particle { pos: v2_add(pos1, v2_scale(grad1, fx_mul(dlambda, w1))), ..pb };
        let pc = parts[i2];
        parts[i2] = Particle { pos: v2_add(pos2, v2_scale(grad2, fx_mul(dlambda, w2))), ..pc };
    }
}

/// Squared length of a vector (no square root taken).
fn mag_sq(a: V2) -> (r: i64)
    ensures
        r as int == mag_sq_s(a@),
        r >= 0,
{
    proof {
        lemma_sq_nonneg(a@.x);
        lemma_sq_nonneg(a@.y);
    }
    fx_add(fx_mul(a.x, a.x), fx_mul(a.y, a.y))
}

/// Kinematic immovability at the projection step: a particle with zero
/// inverse mass is left exactly in place, whatever the constraint does.
pub proof fn lemma_volume_zero_mass(
    c: VolumeConstraint,
    p0: ParticleI,
    p1: ParticleI,
    p2: ParticleI,
    dt: int,
)
    requires
        i64::MIN <= p0.pos.x <= i64::MAX,
        i64::MIN <= p0.pos.y <= i64::MAX,
        i64::MIN <= p1.pos.x <= i64::MAX,
        i64::MIN <= p1.pos.y <= i64::MAX,
        i64::MIN <= p2.pos.x <= i64::MAX,
        i64::MIN <= p2.pos.y <= i64::MAX,
    ensures
        p0.imass == 0 ==> volume_step_out(c, p0, p1, p2, dt).pos0 == p0.pos,
        p1.imass == 0 ==> volume_step_out(c, p0, p1, p2, dt).pos1 == p1.pos,
        p2.imass == 0 ==> volume_step_out(c, p0, p1, p2, dt).pos2 == p2.pos,
{
    crate::constraint::distance::lemma_mul_zero();
    crate::constraint::distance::lemma_add_zero(p0.pos.x);
    crate::constraint::distance::lemma_add_zero(p0.pos.y);
    crate::constraint::distance::lemma_add_zero(p1.pos.x);
    crate::constraint::distance::lemma_add_zero(p1.pos.y);
    crate::constraint::distance::lemma_add_zero(p2.pos.x);
    crate::constraint::distance::lemma_add_zero(p2.pos.y);
    let out = volume_step_out(c, p0, p1, p2, dt);
    if p0.imass == 0 {
        assert(out.pos0.x == p0.pos.x && out.pos0.y == p0.pos.y);
    }
    if p1.imass == 0 {
        assert(out.pos1.x == p1.pos.x && out.pos1.y == p1.pos.y);
    }
    if p2.imass == 0 {
        assert(out.pos2.x == p2.pos.x && out.pos2.y == p2.pos.y);
    }
}

/// Ids drawn from the same multiset as a bounded id list stay bounded.
proof fn lemma_multiset_index_in(s: Seq<usize>, orig: Seq<usize>, n: nat)
    requires
        s.to_multiset() == orig.to_multiset(),
        forall|k: int| 0 <= k < orig.len() ==> #[trigger] orig[k] < n,
    ensures
        forall|k: int| 0 <= k < s.len() ==> #[trigger] s[k] < n,
{
    broadcast use vstd::seq_lib::group_to_multiset_ensures;
    broadcast use vstd::multiset::group_multiset_axioms;

    assert forall|k: int| 0 <= k < s.len() implies #[trigger] s[k] < n by {
        assert(s.contains(s[k]));
        assert(s.to_multiset().count(s[k]) > 0);
        assert(orig.contains(s[k]));
        let j = choose|j: int| 0 <= j < orig.len() && orig[j] == s[k];
        assert(orig[j] < n);
    }
}

} // verus!
