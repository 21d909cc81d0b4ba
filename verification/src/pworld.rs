//! The world loop: configuration, per-frame sequencing, construction
//! from templates, snapshot export, and the pause/step scheduler.
//!
//! One rendered frame is `ppr` sub-steps; each sub-step runs
//! pre-iteration (breakage), integration, collision generation and
//! `iteration` projection passes.  The real-time pacing around this
//! (wall clocks, channels and sleeps) lives with the embedding
//! program, which calls `frame_tick` and `handle_message` and sends
//! the snapshots it is handed.

use crate::constraint::Constraint;
use crate::constraint::constraint_template::ConstraintTemplate;
use crate::constraint::distance::DistanceConstraint;
use crate::constraint::leash::LeashConstraint;
use crate::constraint::volume::VolumeConstraint;
use crate::constraint_group::ConstraintGroup;
use crate::constraint_group::pre_rel;
use crate::constraint_group::solve_rel;
use crate::controller_message::ControllerMessage;
use crate::fixed::FX_ONE;
use crate::fixed::fx_div;
use crate::fixed::fx_div_s;
use crate::fixed::fx_mul;
use crate::fixed::fx_mul_s;
use crate::particle::Particle;
use crate::particle::same_but_pos;
use crate::particle_group::ParticleGroup;
use crate::particle_group::coll_rel;
use crate::particle_group::pg_update_rel;
use crate::physical_model::PhysicalModel;
use crate::posbox::Posbox;
use crate::pr_model::PrModel;
use crate::vec2::V2;
use crate::vec2::v2_add;
use crate::vec2::v2_add_s;
use vstd::prelude::*;

verus! {

/// The relation of one projection pass over the whole constraint set
/// (`ConstraintGroup::solve_constraints`): only particle positions
/// move, an immovable particle not at all, the collections keep their
/// sizes and keys, and the new state is the in-order fold of
/// `Constraint::step` over permanent, transient, then marionette
/// constraints.
pub open spec fn solve_pass_rel(
    cg0: ConstraintGroup,
    pg0: ParticleGroup,
    cg1: ConstraintGroup,
    pg1: ParticleGroup,
    dt: int,
) -> bool {
    &&& cg1.wf(pg0.particles@.len() as nat)
    &&& pg1.wf()
    &&& pg1 == (ParticleGroup { particles: pg1.particles, ..pg0 })
    &&& pg1.particles@.len() == pg0.particles@.len()
    &&& forall|k: int|
        0 <= k < pg0.particles@.len() ==> same_but_pos(
            pg0.particles@[k],
            #[trigger] pg1.particles@[k],
        )
    &&& forall|k: int|
        0 <= k < pg0.particles@.len() && pg0.particles@[k].imass == 0
            ==> (#[trigger] pg1.particles@[k])@.pos == pg0.particles@[k]@.pos
    &&& cg1.id_alloc == cg0.id_alloc
    &&& cg1.dependencies == cg0.dependencies
    &&& cg1.constraints@.len() == cg0.constraints@.len()
    &&& forall|i: int|
        0 <= i < cg0.constraints@.len() ==> (#[trigger] cg1.constraints@[i]).0
            == cg0.constraints@[i].0
    &&& cg1.tmp_constraints@.len() == cg0.tmp_constraints@.len()
    &&& cg1.marionette_constraints@.len() == cg0.marionette_constraints@.len()
    &&& forall|i: int|
        0 <= i < cg0.marionette_constraints@.len() ==> (
        #[trigger] cg1.marionette_constraints@[i]).0 == cg0.marionette_constraints@[i].0
    &&& solve_rel(cg0, cg1, pg0.particles@, pg1.particles@, dt)
}

/// `k` successive projection passes.
pub open spec fn solve_iters_rel(
    cg0: ConstraintGroup,
    pg0: ParticleGroup,
    cg1: ConstraintGroup,
    pg1: ParticleGroup,
    k: int,
    dt: int,
) -> bool
    decreases k,
{
    if k <= 0 {
        cg1 == cg0 && pg1 == pg0
    } else {
        exists|cgm: ConstraintGroup, pgm: ParticleGroup|
            #[trigger] solve_pass_rel(cg0, pg0, cgm, pgm, dt) && solve_iters_rel(
                cgm,
                pgm,
                cg1,
                pg1,
                k - 1,
                dt,
            )
    }
}

/// Extending a chain of projection passes by one more pass.
proof fn lemma_solve_iters_snoc(
    cg0: ConstraintGroup,
    pg0: ParticleGroup,
    cg1: ConstraintGroup,
    pg1: ParticleGroup,
    cg2: ConstraintGroup,
    pg2: ParticleGroup,
    k: int,
    dt: int,
)
    requires
        k >= 0,
        solve_iters_rel(cg0, pg0, cg1, pg1, k, dt),
        solve_pass_rel(cg1, pg1, cg2, pg2, dt),
    ensures
        solve_iters_rel(cg0, pg0, cg2, pg2, k + 1, dt),
    decreases k,
{
    if k <= 0 {
        assert(solve_pass_rel(cg0, pg0, cg2, pg2, dt));
        assert(solve_iters_rel(cg2, pg2, cg2, pg2, 0, dt));
    } else {
        let (cgm, pgm): (ConstraintGroup, ParticleGroup) = choose|
            cgm: ConstraintGroup,
            pgm: ParticleGroup,
        |
            #[trigger] solve_pass_rel(cg0, pg0, cgm, pgm, dt) && solve_iters_rel(
                cgm,
                pgm,
                cg1,
                pg1,
                k - 1,
                dt,
            );
        lemma_solve_iters_snoc(cgm, pgm, cg1, pg1, cg2, pg2, k - 1, dt);
        assert(solve_iters_rel(cgm, pgm, cg2, pg2, k, dt));
    }
}

/// The relation of one sub-step (`PWorld::update_frame`): for a
/// non-zero `dt`, pre-iteration over the old particles, then
/// integration with clamp and hash rebuild, then replacement of the
/// transient set by the broad-phase output, then `iteration`
/// projection passes; a zero `dt` does nothing.
pub open spec fn sub_step_rel(w0: PWorld, w1: PWorld, dt: int, iteration: int) -> bool {
    if dt == 0 {
        w1 == w0
    } else {
        &&& w1 == (PWorld { pg: w1.pg, cg: w1.cg, ..w0 })
        &&& exists|cg_pre: ConstraintGroup|
            {
                &&& #[trigger] pre_rel(w0.cg, cg_pre, w0.pg.particles@)
                &&& exists|pg_int: ParticleGroup|
                    {
                        &&& #[trigger] pg_update_rel(w0.pg, pg_int, dt)
                        &&& exists|cg_tmp: ConstraintGroup|
                            {
                                &&& cg_tmp == (ConstraintGroup {
                                    tmp_constraints: cg_tmp.tmp_constraints,
                                    ..cg_pre
                                })
                                &&& coll_rel(pg_int, cg_tmp.tmp_constraints@)
                                &&& #[trigger] solve_iters_rel(
                                    cg_tmp,
                                    pg_int,
                                    w1.cg,
                                    w1.pg,
                                    iteration,
                                    dt,
                                )
                            }
                    }
            }
    }
}

/// The `ppr`-fold of the sub-step relation: the physics block of `k`
/// sub-steps at the world's own `dt` and iteration count.
pub open spec fn run_iters_rel(w0: PWorld, w1: PWorld, k: int) -> bool
    decreases k,
{
    if k <= 0 {
        w1 == w0
    } else {
        exists|wm: PWorld|
            #[trigger] sub_step_rel(w0, wm, w0.dt as int, w0.iteration as int) && run_iters_rel(
                wm,
                w1,
                k - 1,
            )
    }
}

/// Extending a chain of sub-steps by one more sub-step.
proof fn lemma_run_iters_snoc(w0: PWorld, w1: PWorld, w2: PWorld, k: int)
    requires
        k >= 0,
        run_iters_rel(w0, w1, k),
        sub_step_rel(w1, w2, w0.dt as int, w0.iteration as int),
    ensures
        run_iters_rel(w0, w2, k + 1),
    decreases k,
{
    if k <= 0 {
        assert(w1 == w0);
        assert(sub_step_rel(w0, w2, w0.dt as int, w0.iteration as int));
        assert(run_iters_rel(w2, w2, 0));
    } else {
        let wm = choose|wm: PWorld|
            #[trigger] sub_step_rel(w0, wm, w0.dt as int, w0.iteration as int) && run_iters_rel(
                wm,
                w1,
                k - 1,
            );
        assert(wm.dt == w0.dt && wm.iteration == w0.iteration);
        lemma_run_iters_snoc(wm, w1, w2, k - 1);
        assert(run_iters_rel(wm, w2, k));
    }
}

/// The physics world.  `forward_frames` is the scheduler token:
/// -1 runs continuously, 0 is paused, n > 0 emits n more frames and
/// then pauses.
pub struct PWorld {
    pub dt: i64,
    pub ppr: usize,
    pub time_scale: i64,
    pub iteration: usize,
    pub forward_frames: i32,
    pub first_frame: bool,
    pub pg: ParticleGroup,
    pub cg: ConstraintGroup,
}

impl PWorld {
    /// Both groups are well formed and agree on the particle count.
    pub open spec fn wf(self) -> bool {
        &&& self.pg.wf()
        &&& self.cg.wf(self.pg.particles@.len() as nat)
        &&& self.forward_frames >= -1
    }

    /// Replace the bounding box.
    pub fn with_posbox(self, posbox: Posbox) -> (r: PWorld)
        ensures
            r == (PWorld { pg: ParticleGroup { posbox, ..self.pg }, ..self }),
    {
        PWorld { pg: self.pg.with_posbox(posbox), ..self }
    }

    /// Replace the real-time dilation factor.
    pub fn with_time_scale(self, time_scale: i64) -> (r: PWorld)
        ensures
            r == (PWorld { time_scale, ..self }),
    {
        PWorld { time_scale, ..self }
    }

    /// Replace the sub-step length.
    pub fn with_dt(self, dt: i64) -> (r: PWorld)
        ensures
            r == (PWorld { dt, ..self }),
    {
        PWorld { dt, ..self }
    }

    /// Start paused, but with one frame owed so clients see the
    /// initial configuration.
    pub fn with_paused(self) -> (r: PWorld)
        ensures
            r == (PWorld { forward_frames: 1i32, ..self }),
    {
        PWorld { forward_frames: 1, ..self }
    }

    /// Slow the simulation down by a factor: shorter sub-steps, longer
    /// real time per frame.
    pub fn with_slow_down(self, k: i64) -> (r: PWorld)
        requires
            k != 0,
        ensures
            r == (PWorld {
                dt: fx_div_s(self.dt as int, k as int) as i64,
                time_scale: fx_mul_s(self.time_scale as int, k as int) as i64,
                ..self
            }),
    {
        let dt = fx_div(self.dt, k);
        let time_scale = fx_mul(self.time_scale, k);
        PWorld { dt, time_scale, ..self }
    }

    /// Replace the number of sub-steps per rendered frame.
    pub fn with_ppr(self, ppr: usize) -> (r: PWorld)
        ensures
            r == (PWorld { ppr, ..self }),
    {
        PWorld { ppr, ..self }
    }

    /// Instantiate a physical model at a world-space offset: allocate
    /// its particles (under gravity), build its constraints, and record
    /// its dependency pairs.  Returns the new permanent constraint ids
    /// in template order, so callers may attach external metadata.
    pub fn add_model(&mut self, physical_model: PhysicalModel, offset: V2) -> (cids: Vec<i32>)
        requires
            old(self).wf(),
            physical_model.wf(),
            old(self).pg.particles@.len() + physical_model.particles@.len() < usize::MAX,
            old(self).cg.id_alloc + physical_model.constraints@.len() < i32::MAX,
        ensures
            final(self).wf(),
            final(self).dt == old(self).dt,
            final(self).ppr == old(self).ppr,
            final(self).time_scale == old(self).time_scale,
            final(self).iteration == old(self).iteration,
            final(self).forward_frames == old(self).forward_frames,
            final(self).first_frame == old(self).first_frame,
            final(self).pg.particles@.len() == old(self).pg.particles@.len()
                + physical_model.particles@.len(),
            // old particles keep their state; new ones take the
            // template position shifted by the offset, under gravity
            forall|i: int|
                0 <= i < old(self).pg.particles@.len() ==> (#[trigger] final(self).pg.particles@[i])
                    == old(self).pg.particles@[i],
            forall|i: int|
                0 <= i < physical_model.particles@.len() ==> {
                    let p = #[trigger] final(self).pg.particles@[old(
                        self,
                    ).pg.particles@.len() + i];
                    &&& p.imass == physical_model.particles@[i].imass
                    &&& p.pos@ == v2_add_s(physical_model.particles@[i].pos@, offset@)
                    &&& p.ppos == p.pos
                    &&& p.accel == (V2 { x: 0, y: 9_800_000_000 })
                },
            cids@.len() == physical_model.constraints@.len(),
            forall|i: int|
                0 <= i < cids@.len() ==> (#[trigger] cids@[i]) == old(self).cg.id_alloc + i,
            // permanent constraints: the old ones unchanged, one new
            // entry per template, in template order under the new ids
            final(self).cg.constraints@.len() == old(self).cg.constraints@.len()
                + physical_model.constraints@.len(),
            forall|i: int|
                0 <= i < old(self).cg.constraints@.len() ==> (
                #[trigger] final(self).cg.constraints@[i]) == old(self).cg.constraints@[i],
            forall|i: int|
                0 <= i < physical_model.constraints@.len() ==> {
                    let entry = #[trigger] final(self).cg.constraints@[old(
                        self,
                    ).cg.constraints@.len() + i];
                    &&& entry.0 == old(self).cg.id_alloc + i
                    &&& template_built(
                        entry.1,
                        physical_model.constraints@[i],
                        old(self).pg.particles@.len() as int,
                        final(self).pg.particles,
                    )
                },
            // every template dependency pair is recorded
            forall|d: int|
                0 <= d < physical_model.dependencies@.len() ==> crate::constraint_group::deps_of(
                    final(self).cg.dependencies@,
                    cids@[(#[trigger] physical_model.dependencies@[d])@[0] as int],
                ).contains(cids@[physical_model.dependencies@[d]@[1] as int]),
    {
        let ghost old_cg_alloc = self.cg.id_alloc;
        let mut cids: Vec<i32> = Vec::new();
        let base = self.pg.len();
        let gravity = V2 { x: 0, y: 9_800_000_000 };
        let mut pi: usize = 0;
        while pi < physical_model.particles.len()
            invariant
                old(self).wf(),
                physical_model.wf(),
                pi <= physical_model.particles@.len(),
                base == old(self).pg.particles@.len(),
                old(self).pg.particles@.len() + physical_model.particles@.len() < usize::MAX,
                gravity == (V2 { x: 0, y: 9_800_000_000i64 }),
                *self == (PWorld { pg: self.pg, ..*old(self) }),
                self.pg.wf(),
                self.pg.csize == old(self).pg.csize,
                self.pg.speed_limit_k == old(self).pg.speed_limit_k,
                self.pg.posbox == old(self).pg.posbox,
                self.pg.particles@.len() == base + pi as int,
                forall|i: int|
                    0 <= i < base ==> (#[trigger] self.pg.particles@[i]) == old(
                        self,
                    ).pg.particles@[i],
                forall|i: int|
                    0 <= i < pi as int ==> {
                        let p = #[trigger] self.pg.particles@[base + i];
                        &&& p.imass == physical_model.particles@[i].imass
                        &&& p.pos@ == v2_add_s(physical_model.particles@[i].pos@, offset@)
                        &&& p.ppos == p.pos
                        &&& p.accel == gravity
                    },
            decreases physical_model.particles@.len() - pi,
        {
            let t = physical_model.particles[pi];
            let p = Particle::new(0, t.imass, v2_add(t.pos, offset), gravity);
            self.pg.add_pref(p);
            pi += 1;
        }
        let mut ci: usize = 0;
        while ci < physical_model.constraints.len()
            invariant
                old(self).wf(),
                physical_model.wf(),
                ci <= physical_model.constraints@.len(),
                base == old(self).pg.particles@.len(),
                old(self).cg.id_alloc + physical_model.constraints@.len() < i32::MAX,
                old_cg_alloc == old(self).cg.id_alloc,
                *self == (PWorld { pg: self.pg, cg: self.cg, ..*old(self) }),
                self.pg.wf(),
                self.pg.particles@.len() == base + physical_model.particles@.len(),
                forall|i: int|
                    0 <= i < base ==> (#[trigger] self.pg.particles@[i]) == old(
                        self,
                    ).pg.particles@[i],
                forall|i: int|
                    0 <= i < physical_model.particles@.len() ==> {
                        let p = #[trigger] self.pg.particles@[base + i];
                        &&& p.imass == physical_model.particles@[i].imass
                        &&& p.pos@ == v2_add_s(physical_model.particles@[i].pos@, offset@)
                        &&& p.ppos == p.pos
                        &&& p.accel == (V2 { x: 0, y: 9_800_000_000i64 })
                    },
                self.cg.wf(self.pg.particles@.len() as nat),
                self.cg.id_alloc == old_cg_alloc + ci as int,
                self.cg.dependencies == old(self).cg.dependencies,
                self.cg.tmp_constraints == old(self).cg.tmp_constraints,
                self.cg.marionette_constraints == old(self).cg.marionette_constraints,
                cids@.len() == ci as int,
                forall|i: int|
                    0 <= i < ci as int ==> (#[trigger] cids@[i]) == old_cg_alloc + i,
                self.cg.constraints@.len() == old(self).cg.constraints@.len() + ci as int,
                forall|i: int|
                    0 <= i < old(self).cg.constraints@.len() ==> (
                    #[trigger] self.cg.constraints@[i]) == old(self).cg.constraints@[i],
                forall|i: int|
                    0 <= i < ci as int ==> {
                        let entry = #[trigger] self.cg.constraints@[old(
                            self,
                        ).cg.constraints@.len() + i];
                        &&& entry.0 == old_cg_alloc + i
                        &&& template_built(
                            entry.1,
                            physical_model.constraints@[i],
                            base as int,
                            self.pg.particles,
                        )
                    },
            decreases physical_model.constraints@.len() - ci,
        {
            let con: Constraint = match &physical_model.constraints[ci] {
                ConstraintTemplate::Distance(ct) => {
                    let a = base + ct.ps[0];
                    let b = base + ct.ps[1];
                    DistanceConstraint::new_with_l0(a, b, ct.l0).with_compliance(
                        ct.compliance,
                    ).with_ty(ct.ty).build()
                },
                ConstraintTemplate::Volume(ct) => {
                    let mut ids: Vec<usize> = Vec::new();
                    ids.push(base + ct.ps[0]);
                    ids.push(base + ct.ps[1]);
                    ids.push(base + ct.ps[2]);
                    proof {
                        assert(ids@ =~= seq![
                            (base + ct.ps@[0]) as usize,
                            (base + ct.ps@[1]) as usize,
                            (base + ct.ps@[2]) as usize,
                        ]);
                    }
                    VolumeConstraint::new(&self.pg.particles, ids).with_compliance(
                        ct.compliance,
                    ).build()
                },
            };
            let cid = self.cg.add_constraint(con);
            cids.push(cid);
            ci += 1;
        }
        let ghost cons_done = self.cg.constraints;
        let mut di: usize = 0;
        while di < physical_model.dependencies.len()
            invariant
                di <= physical_model.dependencies@.len(),
                physical_model.wf(),
                cids@.len() == physical_model.constraints@.len(),
                self.cg.constraints == cons_done,
                cons_done@.len() == old(self).cg.constraints@.len()
                    + physical_model.constraints@.len(),
                forall|i: int|
                    0 <= i < old(self).cg.constraints@.len() ==> (#[trigger] cons_done@[i]) == old(
                        self,
                    ).cg.constraints@[i],
                forall|i: int|
                    0 <= i < physical_model.constraints@.len() ==> {
                        let entry = #[trigger] cons_done@[old(self).cg.constraints@.len() + i];
                        &&& entry.0 == old_cg_alloc + i
                        &&& template_built(
                            entry.1,
                            physical_model.constraints@[i],
                            base as int,
                            self.pg.particles,
                        )
                    },
                *self == (PWorld { pg: self.pg, cg: self.cg, ..*old(self) }),
                self.pg.wf(),
                self.cg.wf(self.pg.particles@.len() as nat),
                self.cg.id_alloc == old_cg_alloc + cids@.len(),
                self.cg.tmp_constraints == old(self).cg.tmp_constraints,
                self.cg.marionette_constraints == old(self).cg.marionette_constraints,
                self.pg.particles@.len() == base + physical_model.particles@.len(),
                forall|i: int|
                    0 <= i < base ==> (#[trigger] self.pg.particles@[i]) == old(
                        self,
                    ).pg.particles@[i],
                forall|i: int|
                    0 <= i < physical_model.particles@.len() ==> {
                        let p = #[trigger] self.pg.particles@[base + i];
                        &&& p.imass == physical_model.particles@[i].imass
                        &&& p.pos@ == v2_add_s(physical_model.particles@[i].pos@, offset@)
                        &&& p.ppos == p.pos
                        &&& p.accel == (V2 { x: 0, y: 9_800_000_000i64 })
                    },
                base == old(self).pg.particles@.len(),
                old_cg_alloc == old(self).cg.id_alloc,
                forall|i: int|
                    0 <= i < cids@.len() ==> (#[trigger] cids@[i]) == old_cg_alloc + i,
                forall|d: int|
                    0 <= d < di as int ==> crate::constraint_group::deps_of(
                        self.cg.dependencies@,
                        cids@[(#[trigger] physical_model.dependencies@[d])@[0] as int],
                    ).contains(cids@[physical_model.dependencies@[d]@[1] as int]),
            decreases physical_model.dependencies@.len() - di,
        {
            let ghost deps_in = self.cg.dependencies@;
            let dep = physical_model.dependencies[di];
            let key = cids[dep[0]];
            let mut value: Vec<i32> = Vec::new();
            value.push(cids[dep[1]]);
            proof {
                assert(value@ =~= seq![cids@[dep@[1] as int]]);
            }
            self.cg.add_dependency(key, value);
            proof {
                let deps_now = self.cg.dependencies@;
                assert(crate::constraint_group::deps_of(deps_now, key) == crate::constraint_group::deps_of(
                    deps_in,
                    key,
                ) + seq![cids@[dep@[1] as int]]);
                lemma_contains_concat(
                    crate::constraint_group::deps_of(deps_in, key),
                    seq![cids@[dep@[1] as int]],
                );
                assert(crate::constraint_group::deps_of(deps_now, key)[crate::constraint_group::deps_of(
                    deps_now,
                    key,
                ).len() - 1] == cids@[dep@[1] as int]);
                assert forall|d: int|
                    0 <= d < di as int + 1 implies crate::constraint_group::deps_of(
                    deps_now,
                    cids@[(#[trigger] physical_model.dependencies@[d])@[0] as int],
                ).contains(cids@[physical_model.dependencies@[d]@[1] as int]) by {
                    if d < di as int {
                        let k2 = cids@[physical_model.dependencies@[d]@[0] as int];
                        if k2 != key {
                            assert(crate::constraint_group::deps_of(deps_now, k2)
                                == crate::constraint_group::deps_of(deps_in, k2));
                        } else {
                            lemma_contains_concat(
                                crate::constraint_group::deps_of(deps_in, key),
                                seq![cids@[dep@[1] as int]],
                            );
                        }
                    }
                }
            }
            di += 1;
        }
        cids
    }

    /// The rendering snapshot: particle positions by id and constraint
    /// topology.
    pub fn pr_model(&self) -> (r: PrModel)
        ensures
            r.particles@.len() == self.pg.particles@.len(),
            forall|i: int|
                0 <= i < r.particles@.len() ==> (#[trigger] r.particles@[i]).0 == i
                    && r.particles@[i].1.pos == self.pg.particles@[i].pos,
            r.constraints@.len() == self.cg.constraints@.len(),
            forall|i: int|
                0 <= i < r.constraints@.len() ==> match self.cg.constraints@[i].1 {
                    Constraint::Distance(d) => (#[trigger] r.constraints@[i]).id
                        == self.cg.constraints@[i].0 && r.constraints@[i].particles@ == d.ps.ids@,
                    Constraint::Volume(v) => (#[trigger] r.constraints@[i]).id == v.id
                        && r.constraints@[i].particles@ == v.ps.ids@,
                    Constraint::Leash(l) => (#[trigger] r.constraints@[i]).id
                        == self.cg.constraints@[i].0 && r.constraints@[i].particles@ == seq![l.p],
                },
    {
        let ps = self.pg.pr_particles();
        let cs = self.cg.pr_constraints();
        PrModel { particles: ps, constraints: cs }
    }

    /// One sub-step: pre-iteration (breakage and plasticity), particle
    /// integration, collision generation, then `iteration` projection
    /// passes.  A zero `dt` does nothing.
    fn update_frame(&mut self, dt: i64, iteration: usize)
        requires
            old(self).wf(),
        ensures
            final(self).wf(),
            *final(self) == (PWorld { pg: final(self).pg, cg: final(self).cg, ..*old(self) }),
            final(self).pg.posbox == old(self).pg.posbox,
            final(self).pg.particles@.len() == old(self).pg.particles@.len(),
            forall|k: int|
                0 <= k < old(self).pg.particles@.len() ==> (
                #[trigger] final(self).pg.particles@[k]).imass == old(self).pg.particles@[k].imass,
            // an immovable particle inside the bounding box never moves
            forall|k: int|
                0 <= k < old(self).pg.particles@.len() && old(self).pg.particles@[k].imass == 0
                    && !old(self).pg.posbox.hits(old(self).pg.particles@[k]@.pos)
                    ==> (#[trigger] final(self).pg.particles@[k])@.pos == old(
                    self,
                ).pg.particles@[k]@.pos,
            dt == 0 ==> *final(self) == *old(self),
            sub_step_rel(*old(self), *final(self), dt as int, iteration as int),
    {
        if dt == 0 {
            return ;
        }
        self.cg.pre_iteration(&self.pg);
        let ghost cg_pre = self.cg;
        self.pg.update(dt);
        let ghost pg_int = self.pg;
        proof {
            assert forall|k: int|
                0 <= k < old(self).pg.particles@.len() && old(self).pg.particles@[k].imass == 0
                    && !old(self).pg.posbox.hits(old(self).pg.particles@[k]@.pos) implies (
            #[trigger] self.pg.particles@[k])@.pos == old(self).pg.particles@[k]@.pos by {
                assert(self.pg.particles@[k]@ == crate::particle_group::integrate_clamp_s(
                    old(self).pg.particles@[k]@,
                    dt as int,
                    crate::fixed::fx_mul_s(
                        old(self).pg.speed_limit_k as int,
                        old(self).pg.csize as int,
                    ),
                    old(self).pg.posbox,
                ));
            }
        }
        let tmp = self.pg.collision_constraints();
        self.cg.set_tmp_constraints(tmp);
        let ghost cg_tmp = self.cg;
        let mut it: usize = 0;
        while it < iteration
            invariant
                old(self).wf(),
                *self == (PWorld { pg: self.pg, cg: self.cg, ..*old(self) }),
                self.pg.wf(),
                self.cg.wf(self.pg.particles@.len() as nat),
                it <= iteration,
                pre_rel(old(self).cg, cg_pre, old(self).pg.particles@),
                pg_update_rel(old(self).pg, pg_int, dt as int),
                cg_tmp == (ConstraintGroup { tmp_constraints: cg_tmp.tmp_constraints, ..cg_pre }),
                coll_rel(pg_int, cg_tmp.tmp_constraints@),
                solve_iters_rel(cg_tmp, pg_int, self.cg, self.pg, it as int, dt as int),
                self.pg.posbox == old(self).pg.posbox,
                self.pg.particles@.len() == old(self).pg.particles@.len(),
                forall|k: int|
                    0 <= k < old(self).pg.particles@.len() ==> (
                    #[trigger] self.pg.particles@[k]).imass == old(self).pg.particles@[k].imass,
                forall|k: int|
                    0 <= k < old(self).pg.particles@.len() && old(self).pg.particles@[k].imass == 0
                        && !old(self).pg.posbox.hits(old(self).pg.particles@[k]@.pos)
                        ==> (#[trigger] self.pg.particles@[k])@.pos == old(
                        self,
                    ).pg.particles@[k]@.pos,
            decreases iteration - it,
        {
            let ghost parts_in = self.pg.particles@;
            let ghost cg_in = self.cg;
            let ghost pg_in = self.pg;
            self.cg.solve_constraints(&mut self.pg, dt);
            proof {
                assert forall|k: int|
                    0 <= k < old(self).pg.particles@.len() implies (
                #[trigger] self.pg.particles@[k]).imass == old(self).pg.particles@[k].imass by {
                    assert(crate::particle::same_but_pos(parts_in[k], self.pg.particles@[k]));
                }
                assert(solve_pass_rel(cg_in, pg_in, self.cg, self.pg, dt as int));
                lemma_solve_iters_snoc(
                    cg_tmp,
                    pg_int,
                    cg_in,
                    pg_in,
                    self.cg,
                    self.pg,
                    it as int,
                    dt as int,
                );
            }
            it += 1;
        }
        proof {
            assert(solve_iters_rel(cg_tmp, pg_int, self.cg, self.pg, iteration as int, dt as int));
            assert(sub_step_rel(*old(self), *self, dt as int, iteration as int));
        }
    }

    /// Run the physics block of one rendered frame: `ppr` sub-steps.
    pub fn run(&mut self)
        requires
            old(self).wf(),
        ensures
            final(self).wf(),
            *final(self) == (PWorld { pg: final(self).pg, cg: final(self).cg, ..*old(self) }),
            final(self).pg.posbox == old(self).pg.posbox,
            final(self).pg.particles@.len() == old(self).pg.particles@.len(),
            forall|k: int|
                0 <= k < old(self).pg.particles@.len() ==> (
                #[trigger] final(self).pg.particles@[k]).imass == old(self).pg.particles@[k].imass,
            // an immovable particle inside the bounding box never moves
            forall|k: int|
                0 <= k < old(self).pg.particles@.len() && old(self).pg.particles@[k].imass == 0
                    && !old(self).pg.posbox.hits(old(self).pg.particles@[k]@.pos)
                    ==> (#[trigger] final(self).pg.particles@[k])@.pos == old(
                    self,
                ).pg.particles@[k]@.pos,
            run_iters_rel(*old(self), *final(self), old(self).ppr as int),
    {
        let dt = self.dt;
        let iteration = self.iteration;
        let ppr = self.ppr;
        let mut i: usize = 0;
        while i < ppr
            invariant
                old(self).wf(),
                *self == (PWorld { pg: self.pg, cg: self.cg, ..*old(self) }),
                self.pg.wf(),
                self.cg.wf(self.pg.particles@.len() as nat),
                dt == old(self).dt,
                iteration == old(self).iteration,
                ppr == old(self).ppr,
                i <= ppr,
                run_iters_rel(*old(self), *self, i as int),
                self.pg.posbox == old(self).pg.posbox,
                self.pg.particles@.len() == old(self).pg.particles@.len(),
                forall|k: int|
                    0 <= k < old(self).pg.particles@.len() ==> (
                    #[trigger] self.pg.particles@[k]).imass == old(self).pg.particles@[k].imass,
                forall|k: int|
                    0 <= k < old(self).pg.particles@.len() && old(self).pg.particles@[k].imass == 0
                        && !old(self).pg.posbox.hits(old(self).pg.particles@[k]@.pos)
                        ==> (#[trigger] self.pg.particles@[k])@.pos == old(
                        self,
                    ).pg.particles@[k]@.pos,
            decreases ppr - i,
        {
            let ghost w_in = *self;
            self.update_frame(dt, iteration);
            proof {
                assert(sub_step_rel(w_in, *self, dt as int, iteration as int));
                lemma_run_iters_snoc(*old(self), w_in, *self, i as int);
            }
            i += 1;
        }
    }

    /// One turn of the frame scheduler.  While paused (`forward_frames
    /// == 0`) the world is left bit-for-bit unchanged and no snapshot
    /// is owed; otherwise the token counts down (staying at -1 for
    /// continuous play), the physics block runs (skipped on the very
    /// first frame so clients see the initial configuration), and a
    /// snapshot is owed.
    pub fn frame_tick(&mut self) -> (emit: bool)
        requires
            old(self).wf(),
        ensures
            final(self).wf(),
            emit == (old(self).forward_frames != 0),
            old(self).forward_frames == 0 ==> *final(self) == *old(self),
            old(self).forward_frames != 0 ==> {
                &&& final(self).forward_frames as int == (if old(self).forward_frames == -1 {
                    -1
                } else {
                    old(self).forward_frames - 1
                })
                &&& final(self).first_frame == false
                &&& (old(self).first_frame ==> final(self).pg == old(self).pg && final(self).cg
                    == old(self).cg)
                &&& final(self).dt == old(self).dt
                &&& final(self).ppr == old(self).ppr
                &&& final(self).time_scale == old(self).time_scale
                &&& final(self).iteration == old(self).iteration
                &&& final(self).pg.particles@.len() == old(self).pg.particles@.len()
                &&& forall|k: int|
                    0 <= k < old(self).pg.particles@.len() && old(self).pg.particles@[k].imass == 0
                        && !old(self).pg.posbox.hits(old(self).pg.particles@[k]@.pos)
                        ==> (#[trigger] final(self).pg.particles@[k])@.pos == old(
                        self,
                    ).pg.particles@[k]@.pos
                // past the first frame, an emitting tick runs the
                // physics block on the world with the token counted
                // down
                &&& (!old(self).first_frame ==> run_iters_rel(
                    (PWorld { forward_frames: final(self).forward_frames, ..*old(self) }),
                    *final(self),
                    old(self).ppr as int,
                ))
            },
    {
        if self.forward_frames == 0 {
            return false;
        }
        if self.forward_frames != -1 {
            self.forward_frames = self.forward_frames - 1;
        }
        if self.first_frame {
            self.first_frame = false;
        } else {
            let ghost w_pre = *self;
            self.run();
            proof {
                assert(w_pre == (PWorld { forward_frames: self.forward_frames, ..*old(self) }));
                assert(run_iters_rel(w_pre, *self, old(self).ppr as int));
            }
        }
        true
    }

    /// Apply one controller message: pause control is exact; a
    /// marionette request for a dead particle id is dropped.
    pub fn handle_message(&mut self, msg: ControllerMessage)
        requires
            old(self).wf(),
        ensures
            final(self).wf(),
            final(self).pg == old(self).pg,
            final(self).dt == old(self).dt,
            final(self).ppr == old(self).ppr,
            final(self).first_frame == old(self).first_frame,
            msg == ControllerMessage::TogglePause ==> *final(self) == (PWorld {
                forward_frames: if old(self).forward_frames == 0 {
                    -1i32
                } else {
                    0i32
                },
                ..*old(self)
            }),
            msg == ControllerMessage::FrameForward ==> *final(self) == (PWorld {
                forward_frames: if old(self).forward_frames == 0 {
                    1i32
                } else {
                    old(self).forward_frames
                },
                ..*old(self)
            }),
            match msg {
                ControllerMessage::ControlParticle(id, pos) => {
                    if id < old(self).pg.particles@.len() {
                        &&& *final(self) == (PWorld { cg: final(self).cg, ..*old(self) })
                        &&& final(self).cg == (ConstraintGroup {
                            marionette_constraints: final(self).cg.marionette_constraints,
                            ..old(self).cg
                        })
                        &&& exists|i: int|
                            0 <= i < final(self).cg.marionette_constraints@.len() && (
                            #[trigger] final(self).cg.marionette_constraints@[i]) == (
                            id,
                            LeashConstraint { p: id, pos, lambda: 0, compliance: 10 },
                            )
                    } else {
                        *final(self) == *old(self)
                    }
                },
                ControllerMessage::UncontrolParticle(id) => {
                    &&& *final(self) == (PWorld { cg: final(self).cg, ..*old(self) })
                    &&& final(self).cg == (ConstraintGroup {
                        marionette_constraints: final(self).cg.marionette_constraints,
                        ..old(self).cg
                    })
                    &&& forall|i: int|
                        0 <= i < final(self).cg.marionette_constraints@.len() ==> (
                        #[trigger] final(self).cg.marionette_constraints@[i]).0 != id
                },
                _ => true,
            },
    {
        match msg {
            ControllerMessage::TogglePause => {
                if self.forward_frames == 0 {
                    self.forward_frames = -1;
                } else {
                    self.forward_frames = 0;
                }
            },
            ControllerMessage::FrameForward => {
                if self.forward_frames == 0 {
                    self.forward_frames = 1;
                }
            },
            ControllerMessage::ControlParticle(id, pos) => {
                match self.pg.get_pref(id) {
                    Some(_) => {
                        let ghost cg0 = self.cg;
                        let con = LeashConstraint::new_with_pos(id, pos);
                        self.cg.control_particle(id, con);
                        proof {
                            lemma_marionette_wf(
                                cg0,
                                self.cg,
                                id,
                                con,
                                self.pg.particles@.len() as nat,
                            );
                        }
                    },
                    None => {},
                }
            },
            ControllerMessage::UncontrolParticle(id) => {
                let ghost cg0 = self.cg;
                self.cg.uncontrol_particle(id);
                proof {
                    lemma_marionette_wf_removed(cg0, self.cg, id, self.pg.particles@.len() as nat);
                }
            },
        }
    }
}

impl Default for PWorld {
    /// Defaults: dt 0.005 s, 5 sub-steps per frame, 6 projection
    /// iterations, real-time scale 1, playing continuously.
    fn default() -> (r: PWorld)
        ensures
            r.wf(),
            r.dt == 5_000_000i64,
            r.ppr == 5,
            r.time_scale == FX_ONE,
            r.iteration == 6,
            r.forward_frames == -1i32,
            r.first_frame == true,
            r.pg.particles@.len() == 0,
            r.cg.constraints@.len() == 0,
            r.cg.id_alloc == 0,
    {
        PWorld {
            dt: 5_000_000,
            ppr: 5,
            time_scale: FX_ONE,
            iteration: 6,
            forward_frames: -1,
            first_frame: true,
            pg: ParticleGroup::default(),
            cg: ConstraintGroup::default(),
        }
    }
}

/// Membership in a sequence survives appending another.
proof fn lemma_contains_concat(s: Seq<i32>, t: Seq<i32>)
    ensures
        forall|x: i32| s.contains(x) ==> #[trigger] (s + t).contains(x),
{
    assert forall|x: i32| s.contains(x) implies #[trigger] (s + t).contains(x) by {
        let w = choose|w: int| 0 <= w < s.len() && s[w] == x;
        assert((s + t)[w] == x);
    }
}

/// The constraint built from one template: ids shifted by the model's
/// particle base, options taken from the template, everything else at
/// its default.
pub open spec fn template_built(
    c: Constraint,
    t: ConstraintTemplate,
    base: int,
    parts: Vec<Particle>,
) -> bool {
    match t {
        ConstraintTemplate::Distance(ct) => c matches Constraint::Distance(d) && {
            &&& (DistanceConstraint {
                compliance: 100i64,
                ty: crate::constraint::distance::DistanceConstraintType::Normal,
                ..d
            }).is_fresh((base + ct.ps@[0]) as usize, (base + ct.ps@[1]) as usize, ct.l0)
            &&& d.compliance == ct.compliance
            &&& d.ty == ct.ty
        },
        ConstraintTemplate::Volume(ct) => c matches Constraint::Volume(v) && {
            &&& v.ps.ids@ == seq![
                (base + ct.ps@[0]) as usize,
                (base + ct.ps@[1]) as usize,
                (base + ct.ps@[2]) as usize,
            ]
            &&& v.id == -1
            &&& v.lambda == 0
            &&& v.compliance == ct.compliance
            &&& v.wf()
            &&& v.s0 as int == crate::constraint::volume::area_s(
                parts@[v.ps_sort.ids@[0] as int].pos@,
                parts@[v.ps_sort.ids@[1] as int].pos@,
                parts@[v.ps_sort.ids@[2] as int].pos@,
            )
        },
    }
}

/// Installing a marionette for a live particle preserves the group
/// invariant.
proof fn lemma_marionette_wf(
    cg0: ConstraintGroup,
    cg1: ConstraintGroup,
    id: usize,
    con: LeashConstraint,
    n: nat,
)
    requires
        cg0.wf(n),
        con.wf(),
        con.p < n,
        cg1 == (ConstraintGroup { marionette_constraints: cg1.marionette_constraints, ..cg0 }),
        forall|i: int, j: int|
            0 <= i < j < cg1.marionette_constraints@.len() ==> (
            #[trigger] cg1.marionette_constraints@[i]).0 < (
            #[trigger] cg1.marionette_constraints@[j]).0,
        forall|i: int|
            0 <= i < cg1.marionette_constraints@.len() && (
            #[trigger] cg1.marionette_constraints@[i]).0 != id
                ==> cg0.marionette_constraints@.contains(cg1.marionette_constraints@[i]),
        exists|i: int|
            0 <= i < cg1.marionette_constraints@.len() && (
            #[trigger] cg1.marionette_constraints@[i]) == (id, con),
    ensures
        cg1.wf(n),
{
    assert forall|i: int|
        0 <= i < cg1.marionette_constraints@.len() implies (
    #[trigger] cg1.marionette_constraints@[i]).1.wf() && cg1.marionette_constraints@[i].1.p
        < n by {
        if cg1.marionette_constraints@[i].0 != id {
            let e = cg1.marionette_constraints@[i];
            assert(cg0.marionette_constraints@.contains(e));
            let w = choose|w: int|
                0 <= w < cg0.marionette_constraints@.len() && cg0.marionette_constraints@[w] == e;
        } else {
            let w = choose|w: int|
                0 <= w < cg1.marionette_constraints@.len() && (
                #[trigger] cg1.marionette_constraints@[w]) == (id, con);
            if w != i {
                if w < i {
                    assert(cg1.marionette_constraints@[w].0 < cg1.marionette_constraints@[i].0);
                } else {
                    assert(cg1.marionette_constraints@[i].0 < cg1.marionette_constraints@[w].0);
                }
            }
        }
    }
}

/// Removing a marionette preserves the group invariant.
proof fn lemma_marionette_wf_removed(cg0: ConstraintGroup, cg1: ConstraintGroup, id: usize, n: nat)
    requires
        cg0.wf(n),
        cg1 == (ConstraintGroup { marionette_constraints: cg1.marionette_constraints, ..cg0 }),
        forall|i: int, j: int|
            0 <= i < j < cg1.marionette_constraints@.len() ==> (
            #[trigger] cg1.marionette_constraints@[i]).0 < (
            #[trigger] cg1.marionette_constraints@[j]).0,
        forall|i: int|
            0 <= i < cg1.marionette_constraints@.len() ==> cg0.marionette_constraints@.contains(
                #[trigger] cg1.marionette_constraints@[i],
            ),
    ensures
        cg1.wf(n),
{
    assert forall|i: int|
        0 <= i < cg1.marionette_constraints@.len() implies (
    #[trigger] cg1.marionette_constraints@[i]).1.wf() && cg1.marionette_constraints@[i].1.p
        < n by {
        let e = cg1.marionette_constraints@[i];
        assert(cg0.marionette_constraints@.contains(e));
        let w = choose|w: int|
            0 <= w < cg0.marionette_constraints@.len() && cg0.marionette_constraints@[w] == e;
    }
}

} // verus!
