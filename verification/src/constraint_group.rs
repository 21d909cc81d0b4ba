//! Ownership and orchestration of constraints: permanent constraints
//! by stable id, transient collision constraints per sub-step, and one
//! marionette leash per controlled particle.

use crate::constraint::Constraint;
use crate::constraint::leash::LeashConstraint;
use crate::constraint::pre_alive_s;
use crate::constraint::pre_next_s;
use crate::constraint::step_rel;
use crate::particle::Particle;
use crate::particle::same_but_pos;
use crate::particle_group::ParticleGroup;
use crate::pr_model::PrConstraint;
use vstd::prelude::*;

verus! {

/// Whether the permanent-constraint list holds an entry under `id`.
pub open spec fn has_key(s: Seq<(i32, Constraint)>, id: i32) -> bool {
    exists|i: int| 0 <= i < s.len() && (#[trigger] s[i]).0 == id
}

/// Whether the dependency list holds an entry under `id`.
pub open spec fn has_dep_key(s: Seq<(i32, Vec<i32>)>, id: i32) -> bool {
    exists|i: int| 0 <= i < s.len() && (#[trigger] s[i]).0 == id
}

/// The dependents recorded under `id` (empty if none).
pub open spec fn deps_of(s: Seq<(i32, Vec<i32>)>, id: i32) -> Seq<i32> {
    if has_dep_key(s, id) {
        let i = choose|i: int| 0 <= i < s.len() && (#[trigger] s[i]).0 == id;
        s[i].1@
    } else {
        Seq::empty()
    }
}

/// The dependency list `s1` is `s0` with `value` appended under `key`
/// and every other key untouched.
pub open spec fn deps_updated(
    s1: Seq<(i32, Vec<i32>)>,
    s0: Seq<(i32, Vec<i32>)>,
    key: i32,
    value: Seq<i32>,
) -> bool {
    &&& has_dep_key(s1, key)
    &&& deps_of(s1, key) == deps_of(s0, key) + value
    &&& forall|k2: i32| k2 != key ==> deps_of(s1, k2) == #[trigger] deps_of(s0, k2)
}

/// Strictly ascending keys of the permanent-constraint list.
pub open spec fn keys_sorted(s: Seq<(i32, Constraint)>) -> bool {
    forall|i: int, j: int| 0 <= i < j < s.len() ==> (#[trigger] s[i]).0 < (#[trigger] s[j]).0
}

/// The permanent entries' constraints, keys stripped, in id order.
pub open spec fn perm_cons(s: Seq<(i32, Constraint)>) -> Seq<Constraint> {
    s.map_values(|e: (i32, Constraint)| e.1)
}

/// The marionette leashes, keys stripped, as engine constraints, in
/// particle-id order.
pub open spec fn mar_cons(s: Seq<(usize, LeashConstraint)>) -> Seq<Constraint> {
    s.map_values(|e: (usize, LeashConstraint)| Constraint::Leash(e.1))
}

/// The in-order fold of `Constraint::step` over a constraint list:
/// constraint `i` is stepped against the particles left behind by
/// constraints `0..i`, and `cs1` collects the stepped constraints.
pub open spec fn solve_seq_rel(
    cs0: Seq<Constraint>,
    cs1: Seq<Constraint>,
    p0: Seq<Particle>,
    p1: Seq<Particle>,
    dt: int,
) -> bool
    decreases cs0.len(),
{
    if cs0.len() == 0 {
        cs1.len() == 0 && p1 == p0
    } else {
        cs1.len() == cs0.len() && exists|pm: Seq<Particle>|
            #[trigger] step_rel(cs0[0], cs1[0], p0, pm, dt) && solve_seq_rel(
                cs0.drop_first(),
                cs1.drop_first(),
                pm,
                p1,
                dt,
            )
    }
}

/// One whole projection pass: the permanent constraints in id order,
/// then the transient ones in generation order, then the marionettes
/// in particle-id order, each folded by `Constraint::step`.
pub open spec fn solve_rel(
    cg0: ConstraintGroup,
    cg1: ConstraintGroup,
    p0: Seq<Particle>,
    p1: Seq<Particle>,
    dt: int,
) -> bool {
    exists|pa: Seq<Particle>, pb: Seq<Particle>|
        {
            &&& solve_seq_rel(perm_cons(cg0.constraints@), perm_cons(cg1.constraints@), p0, pa, dt)
            &&& #[trigger] solve_seq_rel(cg0.tmp_constraints@, cg1.tmp_constraints@, pa, pb, dt)
            &&& solve_seq_rel(
                mar_cons(cg0.marionette_constraints@),
                mar_cons(cg1.marionette_constraints@),
                pb,
                p1,
                dt,
            )
        }
}

/// The relation of the pre-iteration pass
/// (`ConstraintGroup::pre_iteration`): every surviving entry is the
/// reset (and plastically relaxed) image of an old one, broken
/// constraints are removed, removals cascade along the recorded
/// dependents, a live constraint that no removal reaches is retained,
/// and the other collections are untouched.
pub open spec fn pre_rel(cg0: ConstraintGroup, cg1: ConstraintGroup, parts: Seq<Particle>) -> bool {
    &&& keys_sorted(cg1.constraints@)
    &&& cg1.id_alloc == cg0.id_alloc
    &&& cg1.dependencies == cg0.dependencies
    &&& cg1.tmp_constraints == cg0.tmp_constraints
    &&& cg1.marionette_constraints == cg0.marionette_constraints
    &&& forall|i: int|
        0 <= i < cg1.constraints@.len() ==> exists|j: int|
            {
                &&& 0 <= j < cg0.constraints@.len()
                &&& (#[trigger] cg1.constraints@[i]).0 == cg0.constraints@[j].0
                &&& cg1.constraints@[i].1 == pre_next_s(cg0.constraints@[j].1, parts)
            }
    &&& forall|j: int|
        0 <= j < cg0.constraints@.len() && !pre_alive_s((#[trigger] cg0.constraints@[j]).1, parts)
            ==> !has_key(cg1.constraints@, cg0.constraints@[j].0)
    &&& forall|k: i32, d: i32|
        has_key(cg0.constraints@, k) && !has_key(cg1.constraints@, k) && #[trigger] deps_of(
            cg0.dependencies@,
            k,
        ).contains(d) ==> !has_key(cg1.constraints@, d)
    &&& forall|j: int|
        0 <= j < cg0.constraints@.len() && pre_alive_s((#[trigger] cg0.constraints@[j]).1, parts)
            && !has_key(cg1.constraints@, cg0.constraints@[j].0) ==> exists|k: i32|
            has_key(cg0.constraints@, k) && !has_key(cg1.constraints@, k) && #[trigger] deps_of(
                cg0.dependencies@,
                k,
            ).contains(cg0.constraints@[j].0)
}

/// Extending an in-order fold by one more stepped constraint.
proof fn lemma_solve_seq_snoc(
    cs0: Seq<Constraint>,
    cs1: Seq<Constraint>,
    c0: Constraint,
    c1: Constraint,
    p0: Seq<Particle>,
    p1: Seq<Particle>,
    p2: Seq<Particle>,
    dt: int,
)
    requires
        solve_seq_rel(cs0, cs1, p0, p1, dt),
        step_rel(c0, c1, p1, p2, dt),
    ensures
        solve_seq_rel(cs0.push(c0), cs1.push(c1), p0, p2, dt),
    decreases cs0.len(),
{
    if cs0.len() == 0 {
        assert(cs0.push(c0)[0] == c0);
        assert(cs1.push(c1)[0] == c1);
        assert(cs0.push(c0).drop_first() =~= Seq::<Constraint>::empty());
        assert(cs1.push(c1).drop_first() =~= Seq::<Constraint>::empty());
        assert(step_rel(cs0.push(c0)[0], cs1.push(c1)[0], p0, p2, dt));
        assert(solve_seq_rel(cs0.push(c0).drop_first(), cs1.push(c1).drop_first(), p2, p2, dt));
    } else {
        let pm = choose|pm: Seq<Particle>|
            #[trigger] step_rel(cs0[0], cs1[0], p0, pm, dt) && solve_seq_rel(
                cs0.drop_first(),
                cs1.drop_first(),
                pm,
                p1,
                dt,
            );
        lemma_solve_seq_snoc(cs0.drop_first(), cs1.drop_first(), c0, c1, pm, p1, p2, dt);
        assert(cs0.push(c0).drop_first() =~= cs0.drop_first().push(c0));
        assert(cs1.push(c1).drop_first() =~= cs1.drop_first().push(c1));
        assert(cs0.push(c0)[0] == cs0[0]);
        assert(cs1.push(c1)[0] == cs1[0]);
        assert(step_rel(cs0.push(c0)[0], cs1.push(c1)[0], p0, pm, dt));
        assert(solve_seq_rel(cs0.push(c0).drop_first(), cs1.push(c1).drop_first(), pm, p2, dt));
    }
}

/// The owner of all constraints.
pub struct ConstraintGroup {
    pub id_alloc: i32,
    pub constraints: Vec<(i32, Constraint)>,
    pub dependencies: Vec<(i32, Vec<i32>)>,
    pub tmp_constraints: Vec<Constraint>,
    pub marionette_constraints: Vec<(usize, LeashConstraint)>,
}

impl ConstraintGroup {
    /// Structural invariant, relative to the number `n` of live
    /// particles: permanent entries in ascending id order below the
    /// allocator, every constraint well formed over live particles,
    /// dependency keys unique, marionette keys ascending.
    pub open spec fn wf(self, n: nat) -> bool {
        &&& keys_sorted(self.constraints@)
        &&& forall|i: int|
            0 <= i < self.constraints@.len() ==> (#[trigger] self.constraints@[i]).0
                < self.id_alloc
        &&& forall|i: int|
            0 <= i < self.constraints@.len() ==> (#[trigger] self.constraints@[i]).1.wf()
        &&& forall|i: int|
            0 <= i < self.constraints@.len() ==> (#[trigger] self.constraints@[i]).1.ids_in(n)
        &&& forall|i: int|
            0 <= i < self.tmp_constraints@.len() ==> (#[trigger] self.tmp_constraints@[i]).wf()
        &&& forall|i: int|
            0 <= i < self.tmp_constraints@.len() ==> (#[trigger] self.tmp_constraints@[i]).ids_in(
                n,
            )
        &&& forall|i: int, j: int|
            0 <= i < j < self.dependencies@.len() ==> (#[trigger] self.dependencies@[i]).0 != (
            #[trigger] self.dependencies@[j]).0
        &&& forall|i: int, j: int|
            0 <= i < j < self.marionette_constraints@.len() ==> (
            #[trigger] self.marionette_constraints@[i]).0 < (
            #[trigger] self.marionette_constraints@[j]).0
        &&& forall|i: int|
            0 <= i < self.marionette_constraints@.len() ==> (
            #[trigger] self.marionette_constraints@[i]).1.wf()
        &&& forall|i: int|
            0 <= i < self.marionette_constraints@.len() ==> (
            #[trigger] self.marionette_constraints@[i]).1.p < n
    }

    /// Insert a permanent constraint under the next id; ids are never
    /// reused.
    pub fn add_constraint(&mut self, constraint: Constraint) -> (id: i32)
        requires
            old(self).id_alloc < i32::MAX,
        ensures
            id == old(self).id_alloc,
            final(self).id_alloc == old(self).id_alloc + 1,
            final(self).constraints@ == old(self).constraints@.push((id, constraint)),
            final(self).dependencies == old(self).dependencies,
            final(self).tmp_constraints == old(self).tmp_constraints,
            final(self).marionette_constraints == old(self).marionette_constraints,
    {
        let id = self.id_alloc;
        self.constraints.push((id, constraint));
        self.id_alloc = self.id_alloc + 1;
        id
    }

    /// Record that removal of `key` must also remove `value`.
    pub fn add_dependency(&mut self, key: i32, value: Vec<i32>)
        requires
            forall|i: int, j: int|
                0 <= i < j < old(self).dependencies@.len() ==> (
                #[trigger] old(self).dependencies@[i]).0 != (#[trigger] old(self).dependencies@[j]).0,
        ensures
            final(self).id_alloc == old(self).id_alloc,
            final(self).constraints == old(self).constraints,
            final(self).tmp_constraints == old(self).tmp_constraints,
            final(self).marionette_constraints == old(self).marionette_constraints,
            deps_updated(final(self).dependencies@, old(self).dependencies@, key, value@),
            forall|i: int, j: int|
                0 <= i < j < final(self).dependencies@.len() ==> (
                #[trigger] final(self).dependencies@[i]).0 != (
                #[trigger] final(self).dependencies@[j]).0,
    {
        let ghost deps0 = self.dependencies@;
        let ghost value0 = value@;
        let mut i: usize = 0;
        while i < self.dependencies.len()
            invariant
                i <= self.dependencies@.len(),
                *self == (ConstraintGroup { dependencies: self.dependencies, ..*old(self) }),
                self.dependencies@ == deps0,
                deps0 == old(self).dependencies@,
                value@ == value0,
                forall|i2: int, j2: int| 0 <= i2 < j2 < deps0.len() ==> (#[trigger] deps0[i2]).0
                    != (#[trigger] deps0[j2]).0,
                forall|k: int| 0 <= k < i as int ==> (#[trigger] deps0[k]).0 != key,
            decreases self.dependencies@.len() - i,
        {
            if self.dependencies[i].0 == key {
                let entry = &mut self.dependencies[i];
                let mut v = value;
                entry.1.append(&mut v);
                proof {
                    let ii = i as int;
                    assert(self.dependencies@[ii].0 == key);
                    lemma_deps_unique_lookup(deps0, ii, key);
                    lemma_deps_unique_lookup(self.dependencies@, ii, key);
                    assert forall|k2: i32| k2 != key implies deps_of(self.dependencies@, k2)
                        == #[trigger] deps_of(deps0, k2) by {
                        lemma_deps_other(deps0, self.dependencies@, ii, k2);
                    }
                    assert(deps_updated(self.dependencies@, deps0, key, value0));
                }
                return ;
            }
            i += 1;
        }
        self.dependencies.push((key, value));
        proof {
            let n = self.dependencies@.len() - 1;
            assert(self.dependencies@[n].0 == key);
            assert(!has_dep_key(deps0, key));
            lemma_deps_unique_lookup(self.dependencies@, n, key);
            assert(deps_of(deps0, key) == Seq::<i32>::empty());
            assert(deps_of(self.dependencies@, key) =~= deps_of(deps0, key)
                + self.dependencies@[n].1@);
            assert forall|k2: i32| k2 != key implies deps_of(self.dependencies@, k2)
                == #[trigger] deps_of(deps0, k2) by {
                lemma_deps_push_other(deps0, self.dependencies@, k2);
            }
            assert(deps_updated(self.dependencies@, deps0, key, value0));
        }
    }

    /// The three population counts: permanent, transient, marionette.
    pub fn len(&self) -> (r: Vec<usize>)
        ensures
            r@ == seq![
                self.constraints@.len() as usize,
                self.tmp_constraints@.len() as usize,
                self.marionette_constraints@.len() as usize,
            ],
    {
        let mut r: Vec<usize> = Vec::new();
        r.push(self.constraints.len());
        r.push(self.tmp_constraints.len());
        r.push(self.marionette_constraints.len());
        proof {
            assert(r@ =~= seq![
                self.constraints@.len() as usize,
                self.tmp_constraints@.len() as usize,
                self.marionette_constraints@.len() as usize,
            ]);
        }
        r
    }

    /// Replace the transient collision constraints for this sub-step.
    pub fn set_tmp_constraints(&mut self, tmp_constraints: Vec<Constraint>)
        ensures
            *final(self) == (ConstraintGroup { tmp_constraints, ..*old(self) }),
    {
        self.tmp_constraints = tmp_constraints;
    }

    /// Install or update the marionette for a particle.
    pub fn control_particle(&mut self, id: usize, con: LeashConstraint)
        requires
            forall|i: int, j: int|
                0 <= i < j < old(self).marionette_constraints@.len() ==> (
                #[trigger] old(self).marionette_constraints@[i]).0 < (
                #[trigger] old(self).marionette_constraints@[j]).0,
        ensures
            final(self).id_alloc == old(self).id_alloc,
            final(self).constraints == old(self).constraints,
            final(self).dependencies == old(self).dependencies,
            final(self).tmp_constraints == old(self).tmp_constraints,
            forall|i: int, j: int|
                0 <= i < j < final(self).marionette_constraints@.len() ==> (
                #[trigger] final(self).marionette_constraints@[i]).0 < (
                #[trigger] final(self).marionette_constraints@[j]).0,
            exists|i: int|
                0 <= i < final(self).marionette_constraints@.len() && (
                #[trigger] final(self).marionette_constraints@[i]) == (id, con),
            forall|i: int|
                0 <= i < final(self).marionette_constraints@.len() && (
                #[trigger] final(self).marionette_constraints@[i]).0 != id ==> old(self).marionette_constraints@.contains(final(self).marionette_constraints@[i]),
            forall|i: int|
                0 <= i < old(self).marionette_constraints@.len() && (
                #[trigger] old(self).marionette_constraints@[i]).0 != id ==> final(self).marionette_constraints@.contains(old(self).marionette_constraints@[i]),
    {
        let ghost m0 = self.marionette_constraints@;
        let mut i: usize = 0;
        while i < self.marionette_constraints.len()
            invariant
                i <= m0.len(),
                *self == (ConstraintGroup {
                    marionette_constraints: self.marionette_constraints,
                    ..*old(self)
                }),
                self.marionette_constraints@ == m0,
                m0 == old(self).marionette_constraints@,
                forall|k: int| 0 <= k < i as int ==> (#[trigger] m0[k]).0 < id,
                forall|i2: int, j2: int| 0 <= i2 < j2 < m0.len() ==> (#[trigger] m0[i2]).0 < (
                #[trigger] m0[j2]).0,
            decreases m0.len() - i,
        {
            let k = self.marionette_constraints[i].0;
            if k == id {
                self.marionette_constraints[i] = (id, con);
                proof {
                    let ii = i as int;
                    assert(self.marionette_constraints@[ii] == (id, con));
                    assert forall|j: int|
                        0 <= j < self.marionette_constraints@.len()
                            && (#[trigger] self.marionette_constraints@[j]).0 != id implies m0.contains(
                        self.marionette_constraints@[j],
                    ) by {
                        assert(self.marionette_constraints@[j] == m0[j]);
                    }
                    assert forall|j: int|
                        0 <= j < m0.len() && (#[trigger] m0[j]).0 != id implies self.marionette_constraints@.contains(
                        m0[j],
                    ) by {
                        assert(self.marionette_constraints@[j] == m0[j]);
                    }
                }
                return ;
            }
            if k > id {
                self.marionette_constraints.insert(i, (id, con));
                proof {
                    let ii = i as int;
                    assert(self.marionette_constraints@[ii] == (id, con));
                    assert forall|j: int|
                        0 <= j < self.marionette_constraints@.len()
                            && (#[trigger] self.marionette_constraints@[j]).0 != id implies m0.contains(
                        self.marionette_constraints@[j],
                    ) by {
                        if j < ii {
                            assert(self.marionette_constraints@[j] == m0[j]);
                        } else {
                            assert(self.marionette_constraints@[j] == m0[j - 1]);
                        }
                    }
                    assert forall|j: int|
                        0 <= j < m0.len() && (#[trigger] m0[j]).0 != id implies self.marionette_constraints@.contains(
                        m0[j],
                    ) by {
                        if j < ii {
                            assert(self.marionette_constraints@[j] == m0[j]);
                        } else {
                            assert(self.marionette_constraints@[j + 1] == m0[j]);
                        }
                    }
                }
                return ;
            }
            i += 1;
        }
        self.marionette_constraints.push((id, con));
        proof {
            let n = self.marionette_constraints@.len() - 1;
            assert(self.marionette_constraints@[n] == (id, con));
            assert forall|j: int|
                0 <= j < m0.len() && (#[trigger] m0[j]).0 != id implies self.marionette_constraints@.contains(
                m0[j],
            ) by {
                assert(self.marionette_constraints@[j] == m0[j]);
            }
            assert forall|j: int|
                0 <= j < self.marionette_constraints@.len()
                    && (#[trigger] self.marionette_constraints@[j]).0 != id implies m0.contains(
                self.marionette_constraints@[j],
            ) by {
                assert(j < n);
                assert(self.marionette_constraints@[j] == m0[j]);
            }
        }
    }

    /// Remove the marionette for a particle; absent ids are ignored.
    pub fn uncontrol_particle(&mut self, id: usize)
        requires
            forall|i: int, j: int|
                0 <= i < j < old(self).marionette_constraints@.len() ==> (
                #[trigger] old(self).marionette_constraints@[i]).0 < (
                #[trigger] old(self).marionette_constraints@[j]).0,
        ensures
            final(self).id_alloc == old(self).id_alloc,
            final(self).constraints == old(self).constraints,
            final(self).dependencies == old(self).dependencies,
            final(self).tmp_constraints == old(self).tmp_constraints,
            forall|i: int|
                0 <= i < final(self).marionette_constraints@.len() ==> (
                #[trigger] final(self).marionette_constraints@[i]).0 != id && old(self).marionette_constraints@.contains(
                    final(self).marionette_constraints@[i],
                ),
            forall|i: int|
                0 <= i < old(self).marionette_constraints@.len() && (
                #[trigger] old(self).marionette_constraints@[i]).0 != id ==> final(self).marionette_constraints@.contains(
                    old(self).marionette_constraints@[i],
                ),
            forall|i2: int, j2: int|
                0 <= i2 < j2 < final(self).marionette_constraints@.len() ==> (
                #[trigger] final(self).marionette_constraints@[i2]).0 < (
                #[trigger] final(self).marionette_constraints@[j2]).0,
    {
        let ghost m0 = self.marionette_constraints@;
        let mut out: Vec<(usize, LeashConstraint)> = Vec::new();
        let mut i: usize = 0;
        while i < self.marionette_constraints.len()
            invariant
                i <= m0.len(),
                *self == *old(self),
                self.marionette_constraints@ == m0,
                m0 == old(self).marionette_constraints@,
                forall|i2: int, j2: int| 0 <= i2 < j2 < m0.len() ==> (#[trigger] m0[i2]).0 < (
                #[trigger] m0[j2]).0,
                forall|j: int|
                    0 <= j < out@.len() ==> (#[trigger] out@[j]).0 != id && m0.contains(out@[j]),
                forall|j: int|
                    0 <= j < i as int && (#[trigger] m0[j]).0 != id ==> out@.contains(m0[j]),
                forall|i2: int, j2: int| 0 <= i2 < j2 < out@.len() ==> (#[trigger] out@[i2]).0 < (
                #[trigger] out@[j2]).0,
                forall|j: int, j2: int|
                    0 <= j < out@.len() && 0 <= j2 < m0.len() && out@[j] == m0[j2] ==> j2 < i as int,
            decreases m0.len() - i,
        {
            let e = self.marionette_constraints[i];
            let ghost out0 = out@;
            if e.0 != id {
                out.push(e);
            }
            proof {
                let ii = i as int;
                assert forall|j2: int| 0 <= j2 < m0.len() && m0[j2] == m0[ii] implies j2 == ii by {
                    if j2 < ii {
                        assert(m0[j2].0 < m0[ii].0);
                    }
                    if j2 > ii {
                        assert(m0[ii].0 < m0[j2].0);
                    }
                }
                if m0[ii].0 != id {
                    assert(out@ == out0.push(m0[ii]));
                    assert(out@[out@.len() - 1] == m0[ii]);
                    assert forall|j: int|
                        0 <= j < ii + 1 && (#[trigger] m0[j]).0 != id implies out@.contains(
                        m0[j],
                    ) by {
                        if j < ii {
                            let w = choose|w: int| 0 <= w < out0.len() && out0[w] == m0[j];
                            assert(out@[w] == m0[j]);
                        } else {
                            assert(out@[out@.len() - 1] == m0[j]);
                        }
                    }
                    assert forall|i2: int, j2: int|
                        0 <= i2 < j2 < out@.len() implies (#[trigger] out@[i2]).0 < (
                    #[trigger] out@[j2]).0 by {
                        if j2 == out@.len() - 1 {
                            let w = choose|w: int| 0 <= w < m0.len() && out0[i2] == m0[w];
                            assert(m0.contains(out0[i2]));
                            let w2 = choose|w2: int| 0 <= w2 < m0.len() && m0[w2] == out0[i2];
                            assert(w2 < ii);
                            assert(m0[w2].0 < m0[ii].0);
                        }
                    }
                } else {
                    assert forall|j: int|
                        0 <= j < ii + 1 && (#[trigger] m0[j]).0 != id implies out@.contains(
                        m0[j],
                    ) by {
                        if j < ii {
                            let w = choose|w: int| 0 <= w < out0.len() && out0[w] == m0[j];
                            assert(out@[w] == m0[j]);
                        }
                    }
                }
            }
            i += 1;
        }
        self.marionette_constraints = out;
    }

    /// Run one projection pass over every constraint: permanent in id
    /// order, then transient in generation order, then marionette in
    /// particle-id order.  Only particle positions move; a particle
    /// with zero inverse mass never moves at all.
    #[verifier::rlimit(100)]
    pub fn solve_constraints(&mut self, pg: &mut ParticleGroup, dt: i64)
        requires
            old(self).wf(old(pg).particles@.len() as nat),
            old(pg).wf(),
        ensures
            solve_rel(*old(self), *final(self), old(pg).particles@, final(pg).particles@, dt as int),
            final(self).wf(old(pg).particles@.len() as nat),
            final(pg).wf(),
            final(pg).particles@.len() == old(pg).particles@.len(),
            final(pg).cells == old(pg).cells,
            final(pg).csize == old(pg).csize,
            final(pg).speed_limit_k == old(pg).speed_limit_k,
            final(pg).posbox == old(pg).posbox,
            final(pg).id_alloc == old(pg).id_alloc,
            forall|k: int|
                0 <= k < old(pg).particles@.len() ==> same_but_pos(
                    old(pg).particles@[k],
                    #[trigger] final(pg).particles@[k],
                ),
            forall|k: int|
                0 <= k < old(pg).particles@.len() && old(pg).particles@[k].imass == 0
                    ==> (#[trigger] final(pg).particles@[k])@.pos == old(pg).particles@[k]@.pos,
            final(self).id_alloc == old(self).id_alloc,
            final(self).dependencies == old(self).dependencies,
            final(self).constraints@.len() == old(self).constraints@.len(),
            forall|i: int|
                0 <= i < old(self).constraints@.len() ==> (#[trigger] final(self).constraints@[i]).0
                    == old(self).constraints@[i].0,
            final(self).tmp_constraints@.len() == old(self).tmp_constraints@.len(),
            final(self).marionette_constraints@.len() == old(self).marionette_constraints@.len(),
            forall|i: int|
                0 <= i < old(self).marionette_constraints@.len() ==> (
                #[trigger] final(self).marionette_constraints@[i]).0 == old(
                    self,
                ).marionette_constraints@[i].0,
    {
        let ghost n = old(pg).particles@.len() as nat;
        let ghost parts0 = pg.particles@;
        let ghost cons0 = old(self).constraints@;
        let mut i: usize = 0;
        while i < self.constraints.len()
            invariant
                old(self).wf(n),
                i <= self.constraints@.len(),
                pg.particles@.len() == parts0.len(),
                parts0 == old(pg).particles@,
                cons0 == old(self).constraints@,
                n == parts0.len() as nat,
                *pg == (ParticleGroup { particles: pg.particles, ..*old(pg) }),
                *self == (ConstraintGroup { constraints: self.constraints, ..*old(self) }),
                self.constraints@.len() == old(self).constraints@.len(),
                forall|j: int|
                    0 <= j < self.constraints@.len() ==> (#[trigger] self.constraints@[j]).0 == old(
                        self,
                    ).constraints@[j].0,
                forall|j: int|
                    i as int <= j < self.constraints@.len() ==> (#[trigger] self.constraints@[j])
                        == cons0[j],
                solve_seq_rel(
                    perm_cons(cons0).take(i as int),
                    perm_cons(self.constraints@).take(i as int),
                    parts0,
                    pg.particles@,
                    dt as int,
                ),
                forall|j: int|
                    0 <= j < self.constraints@.len() ==> (#[trigger] self.constraints@[j]).1.wf(),
                forall|j: int|
                    0 <= j < self.constraints@.len() ==> (#[trigger] self.constraints@[j]).1.ids_in(
                        n,
                    ),
                forall|k: int|
                    0 <= k < parts0.len() ==> (#[trigger] pg.particles@[k]).wf(),
                forall|k: int|
                    0 <= k < parts0.len() ==> same_but_pos(
                        parts0[k],
                        #[trigger] pg.particles@[k],
                    ),
                forall|k: int|
                    0 <= k < parts0.len() && parts0[k].imass == 0
                        ==> (#[trigger] pg.particles@[k])@.pos == parts0[k]@.pos,
            decreases self.constraints@.len() - i,
        {
            let ghost parts_in = pg.particles@;
            let ghost cons_in = self.constraints@;
            let pair = &mut self.constraints[i];
            pair.1.step(&mut pg.particles, dt);
            proof {
                lemma_solve_chain(parts0, parts_in, pg.particles@);
                assert(perm_cons(cons_in).take(i as int) =~= perm_cons(
                    self.constraints@,
                ).take(i as int));
                assert(step_rel(
                    cons0[i as int].1,
                    self.constraints@[i as int].1,
                    parts_in,
                    pg.particles@,
                    dt as int,
                ));
                lemma_solve_seq_snoc(
                    perm_cons(cons0).take(i as int),
                    perm_cons(self.constraints@).take(i as int),
                    cons0[i as int].1,
                    self.constraints@[i as int].1,
                    parts0,
                    parts_in,
                    pg.particles@,
                    dt as int,
                );
                assert(perm_cons(cons0).take(i as int + 1) =~= perm_cons(cons0).take(
                    i as int,
                ).push(cons0[i as int].1));
                assert(perm_cons(self.constraints@).take(i as int + 1) =~= perm_cons(
                    self.constraints@,
                ).take(i as int).push(self.constraints@[i as int].1));
            }
            i += 1;
        }
        let ghost consa = self.constraints@;
        let ghost partsa = pg.particles@;
        proof {
            assert(perm_cons(cons0).take(cons0.len() as int) =~= perm_cons(cons0));
            assert(perm_cons(consa).take(cons0.len() as int) =~= perm_cons(consa));
            assert(solve_seq_rel(perm_cons(cons0), perm_cons(consa), parts0, partsa, dt as int));
        }
        let ghost tmp0 = self.tmp_constraints@;
        let mut i2: usize = 0;
        while i2 < self.tmp_constraints.len()
            invariant
                old(self).wf(n),
                i2 <= self.tmp_constraints@.len(),
                pg.particles@.len() == parts0.len(),
                parts0 == old(pg).particles@,
                tmp0 == old(self).tmp_constraints@,
                n == parts0.len() as nat,
                *pg == (ParticleGroup { particles: pg.particles, ..*old(pg) }),
                *self == (ConstraintGroup {
                    constraints: self.constraints,
                    tmp_constraints: self.tmp_constraints,
                    ..*old(self)
                }),
                self.constraints@ == consa,
                forall|j: int|
                    i2 as int <= j < self.tmp_constraints@.len() ==> (
                    #[trigger] self.tmp_constraints@[j]) == tmp0[j],
                solve_seq_rel(
                    tmp0.take(i2 as int),
                    self.tmp_constraints@.take(i2 as int),
                    partsa,
                    pg.particles@,
                    dt as int,
                ),
                self.constraints@.len() == old(self).constraints@.len(),
                forall|j: int|
                    0 <= j < self.constraints@.len() ==> (#[trigger] self.constraints@[j]).0 == old(
                        self,
                    ).constraints@[j].0,
                forall|j: int|
                    0 <= j < self.constraints@.len() ==> (#[trigger] self.constraints@[j]).1.wf(),
                forall|j: int|
                    0 <= j < self.constraints@.len() ==> (#[trigger] self.constraints@[j]).1.ids_in(
                        n,
                    ),
                self.tmp_constraints@.len() == old(self).tmp_constraints@.len(),
                forall|j: int|
                    0 <= j < self.tmp_constraints@.len() ==> (
                    #[trigger] self.tmp_constraints@[j]).wf(),
                forall|j: int|
                    0 <= j < self.tmp_constraints@.len() ==> (
                    #[trigger] self.tmp_constraints@[j]).ids_in(n),
                forall|k: int|
                    0 <= k < parts0.len() ==> (#[trigger] pg.particles@[k]).wf(),
                forall|k: int|
                    0 <= k < parts0.len() ==> same_but_pos(
                        parts0[k],
                        #[trigger] pg.particles@[k],
                    ),
                forall|k: int|
                    0 <= k < parts0.len() && parts0[k].imass == 0
                        ==> (#[trigger] pg.particles@[k])@.pos == parts0[k]@.pos,
            decreases self.tmp_constraints@.len() - i2,
        {
            let ghost parts_in = pg.particles@;
            let ghost tmp_in = self.tmp_constraints@;
            let c = &mut self.tmp_constraints[i2];
            c.step(&mut pg.particles, dt);
            proof {
                lemma_solve_chain(parts0, parts_in, pg.particles@);
                assert(tmp_in.take(i2 as int) =~= self.tmp_constraints@.take(i2 as int));
                assert(step_rel(
                    tmp0[i2 as int],
                    self.tmp_constraints@[i2 as int],
                    parts_in,
                    pg.particles@,
                    dt as int,
                ));
                lemma_solve_seq_snoc(
                    tmp0.take(i2 as int),
                    self.tmp_constraints@.take(i2 as int),
                    tmp0[i2 as int],
                    self.tmp_constraints@[i2 as int],
                    partsa,
                    parts_in,
                    pg.particles@,
                    dt as int,
                );
                assert(tmp0.take(i2 as int + 1) =~= tmp0.take(i2 as int).push(tmp0[i2 as int]));
                assert(self.tmp_constraints@.take(i2 as int + 1) =~= self.tmp_constraints@.take(
                    i2 as int,
                ).push(self.tmp_constraints@[i2 as int]));
            }
            i2 += 1;
        }
        let ghost tmpb = self.tmp_constraints@;
        let ghost partsb = pg.particles@;
        proof {
            assert(tmp0.take(tmp0.len() as int) =~= tmp0);
            assert(tmpb.take(tmp0.len() as int) =~= tmpb);
            assert(solve_seq_rel(tmp0, tmpb, partsa, partsb, dt as int));
        }
        let ghost mar0 = self.marionette_constraints@;
        let mut i3: usize = 0;
        while i3 < self.marionette_constraints.len()
            invariant
                old(self).wf(n),
                i3 <= self.marionette_constraints@.len(),
                pg.particles@.len() == parts0.len(),
                parts0 == old(pg).particles@,
                mar0 == old(self).marionette_constraints@,
                n == parts0.len() as nat,
                *pg == (ParticleGroup { particles: pg.particles, ..*old(pg) }),
                *self == (ConstraintGroup {
                    constraints: self.constraints,
                    tmp_constraints: self.tmp_constraints,
                    marionette_constraints: self.marionette_constraints,
                    ..*old(self)
                }),
                self.constraints@ == consa,
                self.tmp_constraints@ == tmpb,
                forall|j: int|
                    i3 as int <= j < self.marionette_constraints@.len() ==> (
                    #[trigger] self.marionette_constraints@[j]) == mar0[j],
                solve_seq_rel(
                    mar_cons(mar0).take(i3 as int),
                    mar_cons(self.marionette_constraints@).take(i3 as int),
                    partsb,
                    pg.particles@,
                    dt as int,
                ),
                self.constraints@.len() == old(self).constraints@.len(),
                forall|j: int|
                    0 <= j < self.constraints@.len() ==> (#[trigger] self.constraints@[j]).0 == old(
                        self,
                    ).constraints@[j].0,
                forall|j: int|
                    0 <= j < self.constraints@.len() ==> (#[trigger] self.constraints@[j]).1.wf(),
                forall|j: int|
                    0 <= j < self.constraints@.len() ==> (#[trigger] self.constraints@[j]).1.ids_in(
                        n,
                    ),
                self.tmp_constraints@.len() == old(self).tmp_constraints@.len(),
                forall|j: int|
                    0 <= j < self.tmp_constraints@.len() ==> (
                    #[trigger] self.tmp_constraints@[j]).wf(),
                forall|j: int|
                    0 <= j < self.tmp_constraints@.len() ==> (
                    #[trigger] self.tmp_constraints@[j]).ids_in(n),
                self.marionette_constraints@.len() == old(self).marionette_constraints@.len(),
                forall|j: int|
                    0 <= j < self.marionette_constraints@.len() ==> (
                    #[trigger] self.marionette_constraints@[j]).0 == old(
                        self,
                    ).marionette_constraints@[j].0,
                forall|j: int|
                    0 <= j < self.marionette_constraints@.len() ==> (
                    #[trigger] self.marionette_constraints@[j]).1.wf(),
                forall|j: int|
                    0 <= j < self.marionette_constraints@.len() ==> (
                    #[trigger] self.marionette_constraints@[j]).1.p < n,
                forall|i4: int, j4: int|
                    0 <= i4 < j4 < self.marionette_constraints@.len() ==> (
                    #[trigger] self.marionette_constraints@[i4]).0 < (
                    #[trigger] self.marionette_constraints@[j4]).0,
                forall|k: int|
                    0 <= k < parts0.len() ==> (#[trigger] pg.particles@[k]).wf(),
                forall|k: int|
                    0 <= k < parts0.len() ==> same_but_pos(
                        parts0[k],
                        #[trigger] pg.particles@[k],
                    ),
                forall|k: int|
                    0 <= k < parts0.len() && parts0[k].imass == 0
                        ==> (#[trigger] pg.particles@[k])@.pos == parts0[k]@.pos,
            decreases self.marionette_constraints@.len() - i3,
        {
            let ghost parts_in = pg.particles@;
            let ghost mar_in = self.marionette_constraints@;
            let pair = &mut self.marionette_constraints[i3];
            pair.1.step(&mut pg.particles, dt);
            proof {
                lemma_solve_chain(parts0, parts_in, pg.particles@);
                assert(mar_cons(mar_in).take(i3 as int) =~= mar_cons(
                    self.marionette_constraints@,
                ).take(i3 as int));
                let l0 = mar0[i3 as int].1;
                let l1 = self.marionette_constraints@[i3 as int].1;
                assert(step_rel(
                    Constraint::Leash(l0),
                    Constraint::Leash(l1),
                    parts_in,
                    pg.particles@,
                    dt as int,
                )) by {
                    assert(Constraint::Leash(l0).lock_ids() == seq![l0.p]);
                    assert forall|k: int|
                        0 <= k < parts_in.len() && !Constraint::Leash(l0).lock_ids().contains(
                            k as usize,
                        ) implies #[trigger] pg.particles@[k] == parts_in[k] by {
                        assert(seq![l0.p][0] == l0.p);
                        assert(k != l0.p as int);
                    }
                }
                assert(mar_cons(mar0)[i3 as int] == Constraint::Leash(l0));
                assert(mar_cons(self.marionette_constraints@)[i3 as int] == Constraint::Leash(l1));
                lemma_solve_seq_snoc(
                    mar_cons(mar0).take(i3 as int),
                    mar_cons(self.marionette_constraints@).take(i3 as int),
                    Constraint::Leash(l0),
                    Constraint::Leash(l1),
                    partsb,
                    parts_in,
                    pg.particles@,
                    dt as int,
                );
                assert(mar_cons(mar0).take(i3 as int + 1) =~= mar_cons(mar0).take(i3 as int).push(
                    Constraint::Leash(l0),
                ));
                assert(mar_cons(self.marionette_constraints@).take(i3 as int + 1) =~= mar_cons(
                    self.marionette_constraints@,
                ).take(i3 as int).push(Constraint::Leash(l1)));
            }
            i3 += 1;
        }
        proof {
            assert(mar_cons(mar0).take(mar0.len() as int) =~= mar_cons(mar0));
            assert(mar_cons(self.marionette_constraints@).take(mar0.len() as int) =~= mar_cons(
                self.marionette_constraints@,
            ));
            assert(solve_seq_rel(
                mar_cons(mar0),
                mar_cons(self.marionette_constraints@),
                partsb,
                pg.particles@,
                dt as int,
            ));
            assert(solve_rel(*old(self), *self, parts0, pg.particles@, dt as int));
        }
    }

    /// Remove the permanent constraint under `id`, if present.
    fn remove_constraint(&mut self, id: i32)
        requires
            keys_sorted(old(self).constraints@),
        ensures
            *final(self) == (ConstraintGroup { constraints: final(self).constraints, ..*old(self) }),
            keys_sorted(final(self).constraints@),
            !has_key(final(self).constraints@, id),
            has_key(old(self).constraints@, id) ==> final(self).constraints@.len() == old(
                self,
            ).constraints@.len() - 1,
            !has_key(old(self).constraints@, id) ==> final(self).constraints == old(
                self,
            ).constraints,
            forall|i: int|
                0 <= i < final(self).constraints@.len() ==> old(self).constraints@.contains(
                    #[trigger] final(self).constraints@[i],
                ),
            forall|i: int|
                0 <= i < old(self).constraints@.len() && (#[trigger] old(self).constraints@[i]).0
                    != id ==> final(self).constraints@.contains(old(self).constraints@[i]),
    {
        let ghost s0 = self.constraints@;
        let mut i: usize = 0;
        while i < self.constraints.len()
            invariant
                i <= s0.len(),
                *self == *old(self),
                self.constraints@ == s0,
                s0 == old(self).constraints@,
                keys_sorted(s0),
                forall|k: int| 0 <= k < i as int ==> (#[trigger] s0[k]).0 != id,
            decreases s0.len() - i,
        {
            if self.constraints[i].0 == id {
                let ghost ii = i as int;
                self.constraints.remove(i);
                proof {
                    assert(self.constraints@ == s0.remove(ii));
                    assert forall|k: int|
                        0 <= k < self.constraints@.len() implies s0.contains(
                        #[trigger] self.constraints@[k],
                    ) by {
                        if k < ii {
                            assert(self.constraints@[k] == s0[k]);
                        } else {
                            assert(self.constraints@[k] == s0[k + 1]);
                        }
                    }
                    assert forall|k: int|
                        0 <= k < s0.len() && (#[trigger] s0[k]).0 != id implies self.constraints@.contains(
                        s0[k],
                    ) by {
                        if k < ii {
                            assert(self.constraints@[k] == s0[k]);
                        } else {
                            assert(k > ii);
                            assert(self.constraints@[k - 1] == s0[k]);
                        }
                    }
                    assert forall|p: int, q: int|
                        0 <= p < q < self.constraints@.len() implies (
                    #[trigger] self.constraints@[p]).0 < (#[trigger] self.constraints@[q]).0 by {
                        let p2: int = if p < ii {
                            p
                        } else {
                            p + 1
                        };
                        let q2: int = if q < ii {
                            q
                        } else {
                            q + 1
                        };
                        assert(self.constraints@[p] == s0[p2]);
                        assert(self.constraints@[q] == s0[q2]);
                    }
                    assert(!has_key(self.constraints@, id)) by {
                        if has_key(self.constraints@, id) {
                            let k = choose|k: int|
                                0 <= k < self.constraints@.len() && (
                                #[trigger] self.constraints@[k]).0 == id;
                            let k2: int = if k < ii {
                                k
                            } else {
                                k + 1
                            };
                            assert(s0[k2].0 == id);
                            if k2 < ii {
                                assert(s0[k2].0 < s0[ii].0);
                            }
                            if k2 > ii {
                                assert(s0[ii].0 < s0[k2].0);
                            }
                        }
                    }
                    assert(has_key(s0, id));
                }
                return ;
            }
            i += 1;
        }
        proof {
            assert(!has_key(self.constraints@, id));
        }
    }

    /// The dependents recorded under `id`, as a fresh vector.
    fn get_dependents(&self, id: i32) -> (r: Option<Vec<i32>>)
        requires
            forall|i: int, j: int|
                0 <= i < j < self.dependencies@.len() ==> (#[trigger] self.dependencies@[i]).0 != (
                #[trigger] self.dependencies@[j]).0,
        ensures
            match r {
                Some(v) => has_dep_key(self.dependencies@, id) && v@ == deps_of(
                    self.dependencies@,
                    id,
                ),
                None => !has_dep_key(self.dependencies@, id),
            },
    {
        let mut i: usize = 0;
        while i < self.dependencies.len()
            invariant
                i <= self.dependencies@.len(),
                forall|k: int| 0 <= k < i as int ==> (#[trigger] self.dependencies@[k]).0 != id,
                forall|i2: int, j2: int|
                    0 <= i2 < j2 < self.dependencies@.len() ==> (
                    #[trigger] self.dependencies@[i2]).0 != (#[trigger] self.dependencies@[j2]).0,
            decreases self.dependencies@.len() - i,
        {
            if self.dependencies[i].0 == id {
                let entry = &self.dependencies[i];
                let mut v: Vec<i32> = Vec::new();
                let mut k: usize = 0;
                while k < entry.1.len()
                    invariant
                        k <= entry.1@.len(),
                        v@ == entry.1@.subrange(0, k as int),
                    decreases entry.1@.len() - k,
                {
                    v.push(entry.1[k]);
                    proof {
                        assert(v@ =~= entry.1@.subrange(0, k + 1));
                    }
                    k += 1;
                }
                proof {
                    assert(v@ =~= entry.1@);
                    lemma_deps_unique_lookup(self.dependencies@, i as int, id);
                }
                return Some(v);
            }
            i += 1;
        }
        None
    }

    /// Reset every permanent constraint for the coming sub-step; drop
    /// the ones whose break range is violated, and cascade each removal
    /// to its recorded dependents.
    pub fn pre_iteration(&mut self, pg: &ParticleGroup)
        requires
            old(self).wf(pg.particles@.len() as nat),
        ensures
            final(self).wf(pg.particles@.len() as nat),
            final(self).id_alloc == old(self).id_alloc,
            final(self).dependencies == old(self).dependencies,
            final(self).tmp_constraints == old(self).tmp_constraints,
            final(self).marionette_constraints == old(self).marionette_constraints,
            // every survivor is the pre-iterated image of an old entry
            forall|i: int|
                0 <= i < final(self).constraints@.len() ==> exists|j: int|
                    {
                        &&& 0 <= j < old(self).constraints@.len()
                        &&& (#[trigger] final(self).constraints@[i]).0 == old(
                            self,
                        ).constraints@[j].0
                        &&& final(self).constraints@[i].1 == pre_next_s(
                            old(self).constraints@[j].1,
                            pg.particles@,
                        )
                    },
            // a constraint whose break range is violated is gone
            forall|j: int|
                0 <= j < old(self).constraints@.len() && !pre_alive_s(
                    (#[trigger] old(self).constraints@[j]).1,
                    pg.particles@,
                ) ==> !has_key(final(self).constraints@, old(self).constraints@[j].0),
            // cascade soundness: a removed key takes all its recorded
            // dependents with it
            forall|k: i32, d: i32|
                has_key(old(self).constraints@, k) && !has_key(final(self).constraints@, k)
                    && #[trigger] deps_of(old(self).dependencies@, k).contains(d) ==> !has_key(
                    final(self).constraints@,
                    d,
                ),
            // retention: a constraint whose break range holds is removed
            // only as the recorded dependent of some other removed key,
            // so a live constraint that no removal reaches survives
            forall|j: int|
                0 <= j < old(self).constraints@.len() && pre_alive_s(
                    (#[trigger] old(self).constraints@[j]).1,
                    pg.particles@,
                ) && !has_key(final(self).constraints@, old(self).constraints@[j].0)
                    ==> exists|k: i32|
                    has_key(old(self).constraints@, k) && !has_key(final(self).constraints@, k)
                        && #[trigger] deps_of(old(self).dependencies@, k).contains(
                        old(self).constraints@[j].0,
                    ),
            pre_rel(*old(self), *final(self), pg.particles@),
    {
        let ghost n = pg.particles@.len() as nat;
        let ghost cons0 = self.constraints@;
        let mut removal: Vec<i32> = Vec::new();
        let ghost mut srcs: Seq<int> = Seq::empty();
        let mut i: usize = 0;
        while i < self.constraints.len()
            invariant
                old(self).wf(n),
                n == pg.particles@.len() as nat,
                i <= self.constraints@.len(),
                cons0 == old(self).constraints@,
                *self == (ConstraintGroup { constraints: self.constraints, ..*old(self) }),
                self.constraints@.len() == cons0.len(),
                forall|j: int|
                    0 <= j < cons0.len() ==> (#[trigger] self.constraints@[j]).0 == cons0[j].0,
                forall|j: int|
                    0 <= j < i as int ==> (#[trigger] self.constraints@[j]).1 == pre_next_s(
                        cons0[j].1,
                        pg.particles@,
                    ),
                forall|j: int|
                    i as int <= j < cons0.len() ==> (#[trigger] self.constraints@[j]).1
                        == cons0[j].1,
                forall|j: int|
                    0 <= j < cons0.len() ==> (#[trigger] self.constraints@[j]).1.wf(),
                forall|j: int|
                    0 <= j < cons0.len() ==> (#[trigger] self.constraints@[j]).1.ids_in(n),
                srcs.len() == removal@.len(),
                forall|r: int|
                    0 <= r < removal@.len() ==> 0 <= #[trigger] srcs[r] < i as int && removal@[r]
                        == cons0[srcs[r]].0 && !pre_alive_s(cons0[srcs[r]].1, pg.particles@),
                forall|j: int|
                    0 <= j < i as int && !pre_alive_s((#[trigger] cons0[j]).1, pg.particles@)
                        ==> removal@.contains(cons0[j].0),
            decreases self.constraints@.len() - i,
        {
            let ghost removal0 = removal@;
            let id = self.constraints[i].0;
            let pair = &mut self.constraints[i];
            let alive = pair.1.pre_iteration(&pg.particles);
            if !alive {
                removal.push(id);
                proof {
                    srcs = srcs.push(i as int);
                }
            }
            proof {
                assert forall|j: int|
                    0 <= j < i as int + 1 && !pre_alive_s((#[trigger] cons0[j]).1, pg.particles@)
                        implies removal@.contains(cons0[j].0) by {
                    if j < i as int {
                        let w = choose|w: int| 0 <= w < removal0.len() && removal0[w] == cons0[j].0;
                        assert(removal@[w] == cons0[j].0);
                    } else {
                        assert(removal@[removal@.len() - 1] == cons0[j].0);
                    }
                }
                assert forall|r: int|
                    0 <= r < removal@.len() implies 0 <= #[trigger] srcs[r] < i as int + 1
                        && removal@[r] == cons0[srcs[r]].0 && !pre_alive_s(
                        cons0[srcs[r]].1,
                        pg.particles@,
                    ) by {
                    if r < removal0.len() {
                        assert(removal@[r] == removal0[r]);
                    }
                }
            }
            i += 1;
        }
        let ghost dead0 = removal@;
        let ghost cons1 = self.constraints@;
        // Work the removal list: each removed id takes its dependents
        // with it, transitively.
        while removal.len() > 0
            invariant
                old(self).wf(n),
                *self == (ConstraintGroup { constraints: self.constraints, ..*old(self) }),
                keys_sorted(self.constraints@),
                forall|j: int|
                    0 <= j < self.constraints@.len() ==> cons1.contains(
                        #[trigger] self.constraints@[j],
                    ),
                // dead ids are gone or still queued
                forall|r: int|
                    0 <= r < dead0.len() ==> !has_key(self.constraints@, #[trigger] dead0[r])
                        || removal@.contains(dead0[r]),
                // cascade invariant: a removed key's dependents are gone
                // or still queued
                forall|k: i32, d: i32|
                    has_key(cons1, k) && !has_key(self.constraints@, k)
                        && #[trigger] deps_of(old(self).dependencies@, k).contains(d) ==> (!has_key(
                        self.constraints@,
                        d,
                    ) || removal@.contains(d)),
                // a queued id is dead or a recorded dependent of a
                // removed key
                forall|r: int|
                    0 <= r < removal@.len() ==> dead0.contains(#[trigger] removal@[r]) || exists|
                        k: i32,
                    |
                        has_key(cons1, k) && !has_key(self.constraints@, k) && #[trigger] deps_of(
                            old(self).dependencies@,
                            k,
                        ).contains(removal@[r]),
                // a removed key is dead or a recorded dependent of a
                // removed key
                forall|x: i32|
                    #![trigger has_key(cons1, x), has_key(self.constraints@, x)]
                    has_key(cons1, x) && !has_key(self.constraints@, x) ==> dead0.contains(x)
                        || exists|k: i32|
                        has_key(cons1, k) && !has_key(self.constraints@, k) && #[trigger] deps_of(
                            old(self).dependencies@,
                            k,
                        ).contains(x),
            decreases self.constraints@.len(), removal@.len(),
        {
            let ghost removal0 = removal@;
            let ghost cons_before = self.constraints@;
            let ghost mut pushed: Seq<i32> = Seq::empty();
            let id = match removal.pop() {
                Some(x) => x,
                None => {
                    proof {
                        assert(false);
                    }
                    0
                },
            };
            proof {
                assert(removal@ == removal0.drop_last());
                assert(id == removal0.last());
                lemma_drop_last_contains(removal0);
            }
            let found = {
                let mut f = false;
                let mut k: usize = 0;
                while k < self.constraints.len() && !f
                    invariant
                        k <= self.constraints@.len(),
                        f ==> has_key(self.constraints@, id),
                        !f ==> forall|j: int|
                            0 <= j < k as int ==> (#[trigger] self.constraints@[j]).0 != id,
                    decreases self.constraints@.len() - k + (if f { 0int } else { 1int }),
                {
                    if self.constraints[k].0 == id {
                        f = true;
                    } else {
                        k += 1;
                    }
                }
                f
            };
            if !found {
                proof {
                    assert(!has_key(self.constraints@, id)) by {
                        if has_key(self.constraints@, id) {
                            let w = choose|w: int|
                                0 <= w < self.constraints@.len() && (
                                #[trigger] self.constraints@[w]).0 == id;
                        }
                    }
                }
            }
            if found {
                self.remove_constraint(id);
                let ghost cons_removed = self.constraints@;
                if let Some(deps) = self.get_dependents(id) {
                    proof {
                        assert(removal@ =~= removal0.drop_last() + deps@.subrange(0, 0));
                    }
                    let mut di: usize = 0;
                    while di < deps.len()
                        invariant
                            di <= deps@.len(),
                            deps@ == deps_of(old(self).dependencies@, id),
                            *self == (ConstraintGroup {
                                constraints: self.constraints,
                                ..*old(self)
                            }),
                            self.constraints@ == cons_removed,
                            forall|r: int|
                                0 <= r < deps@.len() && r < di as int ==> removal@.contains(
                                    (#[trigger] deps@[r]),
                                ),
                            forall|x: i32| removal0.drop_last().contains(x) ==> removal@.contains(x),
                            removal@ == removal0.drop_last() + deps@.subrange(0, di as int),
                        decreases deps@.len() - di,
                    {
                        let ghost removal_in = removal@;
                        removal.push(deps[di]);
                        proof {
                            assert(removal@ == removal_in.push(deps@[di as int]));
                            assert(removal@ =~= removal0.drop_last() + deps@.subrange(
                                0,
                                di as int + 1,
                            ));
                            lemma_push_keeps_contains(removal_in, deps@[di as int]);
                            assert forall|r: int|
                                0 <= r < deps@.len() && r < di as int + 1 implies removal@.contains(
                                #[trigger] deps@[r],
                            ) by {
                                if r < di as int {
                                    assert(removal_in.contains(deps@[r]));
                                } else {
                                    assert(removal@[removal@.len() - 1] == deps@[r]);
                                }
                            }
                        }
                        di += 1;
                    }
                    proof {
                        pushed = deps@;
                        assert(deps@.subrange(0, deps@.len() as int) =~= deps@);
                        assert(removal@ =~= removal0.drop_last() + pushed);
                    }
                }
            }
            proof {
                let cur = self.constraints@;
                let deps_all = old(self).dependencies@;
                // entries only ever shrink, so membership in the
                // original list is preserved
                assert forall|j: int| 0 <= j < cur.len() implies cons1.contains(
                    #[trigger] cur[j],
                ) by {
                    assert(cons_before.contains(cur[j]));
                    let w = choose|w: int| 0 <= w < cons_before.len() && cons_before[w] == cur[j];
                    assert(cons1.contains(cons_before[w]));
                }
                // a key absent before stays absent
                assert forall|x: i32|
                    !has_key(cons_before, x) implies !has_key(cur, x) by {
                    if has_key(cur, x) {
                        let w = choose|w: int| 0 <= w < cur.len() && (#[trigger] cur[w]).0 == x;
                        assert(cons_before.contains(cur[w]));
                        let w2 = choose|w2: int|
                            0 <= w2 < cons_before.len() && cons_before[w2] == cur[w];
                        assert(cons_before[w2].0 == x);
                    }
                }
                // the popped id is gone now
                assert(!has_key(cur, id));
                // surviving queue entries: everything but the popped one
                assert forall|x: i32|
                    removal0.contains(x) && x != id implies removal@.contains(x) by {
                    let w = choose|w: int| 0 <= w < removal0.len() && removal0[w] == x;
                    if w < removal0.len() - 1 {
                        assert(removal0.drop_last()[w] == x);
                        assert(removal0.drop_last().contains(x));
                    }
                }
                // dead ids stay covered
                assert forall|r: int|
                    0 <= r < dead0.len() implies !has_key(cur, #[trigger] dead0[r])
                        || removal@.contains(dead0[r]) by {
                    if dead0[r] == id {
                    } else {
                        if has_key(cur, dead0[r]) {
                            assert(has_key(cons_before, dead0[r]));
                            assert(removal0.contains(dead0[r]));
                        }
                    }
                }
                // the cascade invariant is repaired for the popped id and
                // kept for every other key
                assert forall|k: i32, d: i32|
                    has_key(cons1, k) && !has_key(cur, k) && #[trigger] deps_of(
                        deps_all,
                        k,
                    ).contains(d) implies (!has_key(cur, d) || removal@.contains(d)) by {
                    if k == id {
                        if has_key(cons_before, id) {
                            // removed this iteration: its dependents were
                            // all queued just now
                            let r = choose|r: int|
                                0 <= r < deps_of(deps_all, id).len() && deps_of(deps_all, id)[r]
                                    == d;
                            assert(removal@.contains(d));
                        } else {
                            assert(!has_key(cons_before, k));
                            assert(!has_key(cur, d) || removal0.contains(d));
                            if removal0.contains(d) && has_key(cur, d) {
                                assert(d != id);
                            }
                        }
                    } else {
                        if !has_key(cons_before, k) {
                            assert(!has_key(cur, d) || removal0.contains(d));
                            if removal0.contains(d) && has_key(cur, d) {
                                assert(d != id);
                            }
                        } else {
                            // only the popped id was removed, so k is
                            // still present: vacuous
                            let w = choose|w: int|
                                0 <= w < cons_before.len() && (#[trigger] cons_before[w]).0 == k;
                            assert(cur.contains(cons_before[w]));
                            let w2 = choose|w2: int|
                                0 <= w2 < cur.len() && cur[w2] == cons_before[w];
                            assert(has_key(cur, k));
                        }
                    }
                }
                // shape of the queue after this turn
                assert(removal@ =~= removal0.drop_last() + pushed);
                // when dependents were queued, their source was removed
                // just now
                if pushed.len() > 0 {
                    assert(pushed == deps_of(deps_all, id));
                    assert(!has_key(cur, id));
                    assert(has_key(cons1, id)) by {
                        let w = choose|w: int|
                            0 <= w < cons_before.len() && (#[trigger] cons_before[w]).0 == id;
                        assert(cons1.contains(cons_before[w]));
                        let w2 = choose|w2: int|
                            0 <= w2 < cons1.len() && cons1[w2] == cons_before[w];
                        assert(cons1[w2].0 == id);
                    }
                }
                // every queued id is dead or a recorded dependent of a
                // removed key
                assert forall|r: int|
                    0 <= r < removal@.len() implies dead0.contains(#[trigger] removal@[r])
                        || exists|k: i32|
                        has_key(cons1, k) && !has_key(cur, k) && #[trigger] deps_of(
                            deps_all,
                            k,
                        ).contains(removal@[r]) by {
                    let nprev = removal0.len() - 1;
                    if r < nprev {
                        assert(removal@[r] == removal0[r]);
                        if !dead0.contains(removal0[r]) {
                            let k = choose|k: i32|
                                has_key(cons1, k) && !has_key(cons_before, k) && #[trigger] deps_of(
                                    deps_all,
                                    k,
                                ).contains(removal0[r]);
                            assert(!has_key(cur, k));
                            assert(deps_of(deps_all, k).contains(removal@[r]));
                        }
                    } else {
                        assert(removal@[r] == pushed[r - nprev]);
                        assert(pushed.len() > 0);
                        assert(deps_of(deps_all, id).contains(removal@[r]));
                    }
                }
                // every removed key is dead or a recorded dependent of a
                // removed key
                assert forall|x: i32|
                    #![trigger has_key(cons1, x), has_key(cur, x)]
                    has_key(cons1, x) && !has_key(cur, x) implies dead0.contains(x) || exists|
                        k: i32,
                    |
                        has_key(cons1, k) && !has_key(cur, k) && #[trigger] deps_of(
                            deps_all,
                            k,
                        ).contains(x) by {
                    if has_key(cons_before, x) {
                        // only the popped id left the list this turn
                        assert(x == id) by {
                            if x != id {
                                let w = choose|w: int|
                                    0 <= w < cons_before.len() && (#[trigger] cons_before[w]).0
                                        == x;
                                assert(cur.contains(cons_before[w]));
                                let w2 = choose|w2: int|
                                    0 <= w2 < cur.len() && cur[w2] == cons_before[w];
                                assert(has_key(cur, x));
                            }
                        }
                        // the popped id was queued, so the queue
                        // invariant names its reason
                        assert(removal0[removal0.len() - 1] == id);
                        if !dead0.contains(id) {
                            let k = choose|k: i32|
                                has_key(cons1, k) && !has_key(cons_before, k) && #[trigger] deps_of(
                                    deps_all,
                                    k,
                                ).contains(removal0[removal0.len() - 1]);
                            assert(!has_key(cur, k));
                            assert(deps_of(deps_all, k).contains(x));
                        }
                    } else {
                        if !dead0.contains(x) {
                            let k = choose|k: i32|
                                has_key(cons1, k) && !has_key(cons_before, k) && #[trigger] deps_of(
                                    deps_all,
                                    k,
                                ).contains(x);
                            assert(!has_key(cur, k));
                        }
                    }
                }
            }
        }
        proof {
            assert forall|j: int|
                0 <= j < cons0.len() && !pre_alive_s((#[trigger] cons0[j]).1, pg.particles@)
                    implies !has_key(self.constraints@, cons0[j].0) by {
                assert(dead0.contains(cons0[j].0));
            }
            assert forall|k: i32, d: i32|
                has_key(cons0, k) && !has_key(self.constraints@, k) && #[trigger] deps_of(
                    old(self).dependencies@,
                    k,
                ).contains(d) implies !has_key(self.constraints@, d) by {
                assert(has_key(cons1, k)) by {
                    let w = choose|w: int|
                        0 <= w < cons0.len() && (#[trigger] cons0[w]).0 == k;
                    assert(cons1[w].0 == k);
                }
                assert(!removal@.contains(d)) by {
                    if removal@.contains(d) {
                        let w = choose|w: int| 0 <= w < removal@.len() && removal@[w] == d;
                    }
                }
            }
            assert forall|i2: int|
                0 <= i2 < self.constraints@.len() implies {
                &&& (#[trigger] self.constraints@[i2]).1.wf()
                &&& self.constraints@[i2].1.ids_in(n)
                &&& self.constraints@[i2].0 < self.id_alloc
            } by {
                assert(cons1.contains(self.constraints@[i2]));
                let j = choose|j: int| 0 <= j < cons1.len() && cons1[j] == self.constraints@[i2];
                assert(cons1[j].1.wf());
                assert(cons1[j].1.ids_in(n));
                assert(cons1[j].0 == cons0[j].0);
            }
            assert forall|i2: int|
                0 <= i2 < self.constraints@.len() implies exists|j: int|
                    {
                        &&& 0 <= j < cons0.len()
                        &&& (#[trigger] self.constraints@[i2]).0 == cons0[j].0
                        &&& self.constraints@[i2].1 == pre_next_s(cons0[j].1, pg.particles@)
                    } by {
                assert(cons1.contains(self.constraints@[i2]));
                let j = choose|j: int| 0 <= j < cons1.len() && cons1[j] == self.constraints@[i2];
                assert(cons1[j].0 == cons0[j].0);
                assert(cons1[j].1 == pre_next_s(cons0[j].1, pg.particles@));
            }
            // retention: with the queue drained, a removed key was dead
            // or a dependent of a removed key; a live constraint can
            // only have gone the second way
            assert forall|j: int|
                0 <= j < cons0.len() && pre_alive_s((#[trigger] cons0[j]).1, pg.particles@)
                    && !has_key(self.constraints@, cons0[j].0) implies exists|k: i32|
                    has_key(cons0, k) && !has_key(self.constraints@, k) && #[trigger] deps_of(
                        old(self).dependencies@,
                        k,
                    ).contains(cons0[j].0) by {
                let x = cons0[j].0;
                assert(has_key(cons1, x)) by {
                    assert(cons1[j].0 == x);
                }
                assert(!dead0.contains(x)) by {
                    if dead0.contains(x) {
                        let r = choose|r: int| 0 <= r < dead0.len() && dead0[r] == x;
                        let s = srcs[r];
                        assert(cons0[s].0 == x && !pre_alive_s(cons0[s].1, pg.particles@));
                        if s < j {
                            assert(cons0[s].0 < cons0[j].0);
                        }
                        if s > j {
                            assert(cons0[j].0 < cons0[s].0);
                        }
                    }
                }
                let k = choose|k: i32|
                    has_key(cons1, k) && !has_key(self.constraints@, k) && #[trigger] deps_of(
                        old(self).dependencies@,
                        k,
                    ).contains(x);
                assert(has_key(cons0, k)) by {
                    let w = choose|w: int| 0 <= w < cons1.len() && (#[trigger] cons1[w]).0 == k;
                    assert(cons0[w].0 == k);
                }
            }
        }
    }

    /// Snapshot of every permanent constraint, rendered under its
    /// stable id.
    pub fn pr_constraints(&self) -> (r: Vec<PrConstraint>)
        ensures
            r@.len() == self.constraints@.len(),
            forall|i: int|
                0 <= i < r@.len() ==> match self.constraints@[i].1 {
                    Constraint::Distance(d) => (#[trigger] r@[i]).id == self.constraints@[i].0
                        && r@[i].particles@ == d.ps.ids@,
                    Constraint::Volume(v) => (#[trigger] r@[i]).id == v.id && r@[i].particles@
                        == v.ps.ids@,
                    Constraint::Leash(l) => (#[trigger] r@[i]).id == self.constraints@[i].0
                        && r@[i].particles@ == seq![l.p],
                },
    {
        let mut r: Vec<PrConstraint> = Vec::new();
        let mut i: usize = 0;
        while i < self.constraints.len()
            invariant
                i <= self.constraints@.len(),
                r@.len() == i as int,
                forall|j: int|
                    0 <= j < r@.len() ==> match self.constraints@[j].1 {
                        Constraint::Distance(d) => (#[trigger] r@[j]).id == self.constraints@[j].0
                            && r@[j].particles@ == d.ps.ids@,
                        Constraint::Volume(v) => (#[trigger] r@[j]).id == v.id && r@[j].particles@
                            == v.ps.ids@,
                        Constraint::Leash(l) => (#[trigger] r@[j]).id == self.constraints@[j].0
                            && r@[j].particles@ == seq![l.p],
                    },
            decreases self.constraints@.len() - i,
        {
            let id = self.constraints[i].0;
            let pr = self.constraints[i].1.render(id as isize);
            r.push(pr);
            i += 1;
        }
        r
    }
}

impl Default for ConstraintGroup {
    /// Empty group.
    fn default() -> (r: ConstraintGroup)
        ensures
            forall|n: nat| r.wf(n),
            r.id_alloc == 0,
            r.constraints@.len() == 0,
            r.dependencies@.len() == 0,
            r.tmp_constraints@.len() == 0,
            r.marionette_constraints@.len() == 0,
    {
        ConstraintGroup {
            id_alloc: 0,
            constraints: Vec::new(),
            dependencies: Vec::new(),
            tmp_constraints: Vec::new(),
            marionette_constraints: Vec::new(),
        }
    }
}

/// Composing two position-only passes gives a position-only pass, and
/// immovable particles stay immovable across the composition.
proof fn lemma_solve_chain(p0: Seq<Particle>, p1: Seq<Particle>, p2: Seq<Particle>)
    requires
        p0.len() == p1.len(),
        p1.len() == p2.len(),
        forall|k: int| 0 <= k < p0.len() ==> same_but_pos(p0[k], #[trigger] p1[k]),
        forall|k: int| 0 <= k < p1.len() ==> same_but_pos(p1[k], #[trigger] p2[k]),
        forall|k: int|
            0 <= k < p0.len() && p0[k].imass == 0 ==> (#[trigger] p1[k])@.pos == p0[k]@.pos,
        forall|k: int|
            0 <= k < p1.len() && p1[k].imass == 0 ==> (#[trigger] p2[k])@.pos == p1[k]@.pos,
    ensures
        forall|k: int| 0 <= k < p0.len() ==> same_but_pos(p0[k], #[trigger] p2[k]),
        forall|k: int|
            0 <= k < p0.len() && p0[k].imass == 0 ==> (#[trigger] p2[k])@.pos == p0[k]@.pos,
{
    assert forall|k: int| 0 <= k < p0.len() implies same_but_pos(p0[k], #[trigger] p2[k]) by {
        assert(same_but_pos(p0[k], p1[k]));
        assert(same_but_pos(p1[k], p2[k]));
    }
    assert forall|k: int|
        0 <= k < p0.len() && p0[k].imass == 0 implies (#[trigger] p2[k])@.pos == p0[k]@.pos by {
        assert(same_but_pos(p0[k], p1[k]));
        assert(p1[k].imass == 0);
    }
}

/// Pushing keeps every previous member.
proof fn lemma_push_keeps_contains(s: Seq<i32>, x: i32)
    ensures
        forall|y: i32| s.contains(y) ==> s.push(x).contains(y),
{
    assert forall|y: i32| s.contains(y) implies s.push(x).contains(y) by {
        let w = choose|w: int| 0 <= w < s.len() && s[w] == y;
        assert(s.push(x)[w] == y);
    }
}

/// Members of a list are the last element or members of the rest.
proof fn lemma_drop_last_contains(s: Seq<i32>)
    requires
        s.len() > 0,
    ensures
        forall|y: i32| s.drop_last().contains(y) ==> s.contains(y),
        forall|y: i32| s.contains(y) ==> y == s.last() || s.drop_last().contains(y),
{
    assert forall|y: i32| s.drop_last().contains(y) implies s.contains(y) by {
        let w = choose|w: int| 0 <= w < s.drop_last().len() && s.drop_last()[w] == y;
        assert(s[w] == y);
    }
    assert forall|y: i32| s.contains(y) implies y == s.last() || s.drop_last().contains(y) by {
        let w = choose|w: int| 0 <= w < s.len() && s[w] == y;
        if w < s.len() - 1 {
            assert(s.drop_last()[w] == y);
        }
    }
}

/// With unique keys, the chosen dependency entry is the one found.
proof fn lemma_deps_unique_lookup(s: Seq<(i32, Vec<i32>)>, i: int, key: i32)
    requires
        0 <= i < s.len(),
        s[i].0 == key,
        forall|i2: int, j2: int| 0 <= i2 < j2 < s.len() ==> (#[trigger] s[i2]).0 != (
        #[trigger] s[j2]).0,
    ensures
        has_dep_key(s, key),
        deps_of(s, key) == s[i].1@,
{
    assert(has_dep_key(s, key));
    let j = choose|j: int| 0 <= j < s.len() && (#[trigger] s[j]).0 == key;
    if j != i {
        if j < i {
            assert(s[j].0 != s[i].0);
        } else {
            assert(s[i].0 != s[j].0);
        }
    }
}

/// An update at one key leaves every other key's dependents unchanged.
proof fn lemma_deps_other(s0: Seq<(i32, Vec<i32>)>, s1: Seq<(i32, Vec<i32>)>, i: int, k2: i32)
    requires
        s0.len() == s1.len(),
        0 <= i < s0.len(),
        forall|j: int| 0 <= j < s0.len() && j != i ==> s0[j] == s1[j],
        s0[i].0 == s1[i].0,
        s0[i].0 != k2,
        forall|i2: int, j2: int| 0 <= i2 < j2 < s0.len() ==> (#[trigger] s0[i2]).0 != (
        #[trigger] s0[j2]).0,
    ensures
        deps_of(s1, k2) == deps_of(s0, k2),
{
    if has_dep_key(s0, k2) {
        let j0 = choose|j0: int| 0 <= j0 < s0.len() && (#[trigger] s0[j0]).0 == k2;
        assert(j0 != i);
        assert(s1[j0].0 == k2);
        assert(has_dep_key(s1, k2));
        let j1 = choose|j1: int| 0 <= j1 < s1.len() && (#[trigger] s1[j1]).0 == k2;
        assert(j1 != i);
        assert(s0[j1] == s1[j1]);
        assert(s0[j1].0 == k2);
        if j0 != j1 {
            if j0 < j1 {
                assert(s0[j0].0 != s0[j1].0);
            } else {
                assert(s0[j1].0 != s0[j0].0);
            }
        }
    } else {
        if has_dep_key(s1, k2) {
            let j = choose|j: int| 0 <= j < s1.len() && (#[trigger] s1[j]).0 == k2;
            assert(j != i);
            assert(s0[j].0 == k2);
        }
    }
}

/// Appending a new key leaves every other key's dependents unchanged.
proof fn lemma_deps_push_other(s0: Seq<(i32, Vec<i32>)>, s1: Seq<(i32, Vec<i32>)>, k2: i32)
    requires
        s1.len() == s0.len() + 1,
        forall|j: int| 0 <= j < s0.len() ==> s0[j] == s1[j],
        s1[s0.len() as int].0 != k2,
        forall|i2: int, j2: int| 0 <= i2 < j2 < s0.len() ==> (#[trigger] s0[i2]).0 != (
        #[trigger] s0[j2]).0,
    ensures
        deps_of(s1, k2) == deps_of(s0, k2),
{
    if has_dep_key(s0, k2) {
        let j = choose|j: int| 0 <= j < s0.len() && (#[trigger] s0[j]).0 == k2;
        assert(s1[j].0 == k2);
        assert(has_dep_key(s1, k2));
        let j1 = choose|j1: int| 0 <= j1 < s1.len() && (#[trigger] s1[j1]).0 == k2;
        assert(j1 != s0.len());
        assert(s0[j1] == s1[j1]);
        let j0 = choose|j0: int| 0 <= j0 < s0.len() && (#[trigger] s0[j0]).0 == k2;
        assert(s0[j0].0 == k2 && s0[j1].0 == k2);
        if j0 != j1 {
            if j0 < j1 {
                assert(s0[j0].0 != s0[j1].0);
            } else {
                assert(s0[j1].0 != s0[j0].0);
            }
        }
    } else {
        if has_dep_key(s1, k2) {
            let j = choose|j: int| 0 <= j < s1.len() && (#[trigger] s1[j]).0 == k2;
            assert(j != s0.len());
            assert(s0[j].0 == k2);
        }
    }
}

} // verus!
