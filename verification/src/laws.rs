//! Engine-wide laws, stated and proved over the specification
//! functions that the executable contracts are written against.

use crate::constraint::Constraint;
use crate::constraint::distance::DistanceConstraint;
use crate::constraint::distance::DistanceConstraintType;
use crate::constraint::distance::distance_pre_out;
use crate::constraint::distance::distance_step_degenerate;
use crate::constraint::distance::distance_step_out;
use crate::constraint::distance::lemma_add_zero;
use crate::constraint::distance::lemma_distance_zero_mass;
use crate::constraint::distance::lemma_mul_zero;
use crate::constraint::leash::LeashConstraint;
use crate::constraint::leash::leash_step_out;
use crate::constraint::pre_alive_s;
use crate::constraint::pre_next_s;
use crate::constraint::step_rel;
use crate::constraint::volume::VolumeConstraint;
use crate::constraint::volume::lemma_volume_zero_mass;
use crate::constraint::volume::volume_step_out;
use crate::constraint_group::ConstraintGroup;
use crate::constraint_group::deps_of;
use crate::constraint_group::has_dep_key;
use crate::constraint_group::has_key;
use crate::constraint_group::mar_cons;
use crate::constraint_group::perm_cons;
use crate::constraint_group::pre_rel;
use crate::constraint_group::solve_seq_rel;
use crate::fixed::FX_ONE;
use crate::fixed::absi;
use crate::fixed::fx_div_s;
use crate::fixed::fx_mul_s;
use crate::fixed::fx_sub_s;
use crate::fixed::is_isqrt;
use crate::fixed::isqrt_spec;
use crate::fixed::lemma_isqrt;
use crate::fixed::lemma_mul_nonneg;
use crate::fixed::q_tz;
use crate::particle::Particle;
use crate::particle::ParticleI;
use crate::particle::particle_update_s;
use crate::particle_group::ParticleGroup;
use crate::particle_group::bucket_of;
use crate::particle_group::cell_x;
use crate::particle_group::cell_y;
use crate::particle_group::coll_a;
use crate::particle_group::coll_b;
use crate::particle_group::coll_rel;
use crate::particle_group::hash_contains;
use crate::particle_group::integrate_clamp_s;
use crate::particle_group::pg_update_rel;
use crate::pworld::PWorld;
use crate::pworld::run_iters_rel;
use crate::pworld::solve_iters_rel;
use crate::pworld::solve_pass_rel;
use crate::pworld::sub_step_rel;
use crate::vec2::V2i;
use crate::vec2::mag_sq_s;
use crate::vec2::v2_mag_s;
use crate::vec2::v2_sub_s;
use vstd::prelude::*;

verus! {

/// A coordinate that fits the fixed-point range.
pub open spec fn coord_ok(x: int) -> bool {
    i64::MIN <= x <= i64::MAX
}

/// A ghost vector whose coordinates fit the fixed-point range (true
/// of the view of every stored position).
pub open spec fn v2_ok(v: V2i) -> bool {
    coord_ok(v.x) && coord_ok(v.y)
}

/// Spatial-hash soundness: in a well-formed, fresh particle group
/// (the state `update` and `add_pref` leave behind), every live
/// particle sits in exactly one bucket, and that bucket's key is the
/// floor of its position divided by the cell size.
pub proof fn lemma_spatial_hash_sound(pg: ParticleGroup, id: usize)
    requires
        pg.wf(),
        pg.fresh(),
        id < pg.particles@.len(),
    ensures
        hash_contains(pg.cells@, id),
        0 <= bucket_of(pg.cells@, id) < pg.cells@.len(),
        pg.cells@[bucket_of(pg.cells@, id)].ids@.contains(id),
        forall|bi: int|
            0 <= bi < pg.cells@.len() && (#[trigger] pg.cells@[bi]).ids@.contains(id) ==> bi
                == bucket_of(pg.cells@, id),
        pg.cells@[bucket_of(pg.cells@, id)].cx as int == cell_x(
            pg.particles@[id as int].pos@,
            pg.csize as int,
        ),
        pg.cells@[bucket_of(pg.cells@, id)].cy as int == cell_y(
            pg.particles@[id as int].pos@,
            pg.csize as int,
        ),
{
    assert(hash_contains(pg.cells@, id));
    let b = bucket_of(pg.cells@, id);
    assert(pg.cells@[b].ids@.contains(id));
    let j = choose|j: int| 0 <= j < pg.cells@[b].ids@.len() && pg.cells@[b].ids@[j] == id;
    assert(pg.cells@[b].ids@[j] == id);
}

/// Kinematic immovability: a particle with zero inverse mass is left
/// exactly in place by the integrator and by the projection step of
/// every constraint kind.
pub proof fn lemma_kinematic_immovable(
    p: ParticleI,
    q: ParticleI,
    dc: DistanceConstraint,
    vc: VolumeConstraint,
    lc: LeashConstraint,
    dt: int,
    max_dp: int,
)
    requires
        p.imass == 0,
        v2_ok(p.pos),
        v2_ok(q.pos),
    ensures
        particle_update_s(p, dt, max_dp).pos == p.pos,
        particle_update_s(p, dt, max_dp).ppos == p.ppos,
        distance_step_out(dc, p, q, dt).pos1 == p.pos,
        distance_step_out(dc, q, p, dt).pos2 == p.pos,
        volume_step_out(vc, p, q, q, dt).pos0 == p.pos,
        volume_step_out(vc, q, p, q, dt).pos1 == p.pos,
        volume_step_out(vc, q, q, p, dt).pos2 == p.pos,
        leash_step_out(lc, p, dt).pos == p.pos,
{
    lemma_distance_zero_mass(dc, p, q, dt);
    lemma_distance_zero_mass(dc, q, p, dt);
    lemma_volume_zero_mass(vc, p, q, q, dt);
    lemma_volume_zero_mass(vc, q, p, q, dt);
    lemma_volume_zero_mass(vc, q, q, p, dt);
}

/// The fixed point of a stiff distance constraint: when two particles
/// stand exactly at the rest length and the compliance is zero, one
/// projection step moves nothing and leaves the multiplier unchanged,
/// so the configuration is preserved for arbitrarily many steps.
pub proof fn lemma_stiff_distance_at_rest(c: DistanceConstraint, p1: ParticleI, p2: ParticleI, dt: int)
    requires
        c.compliance == 0,
        v2_ok(p1.pos),
        v2_ok(p2.pos),
        v2_mag_s(v2_sub_s(p1.pos, p2.pos)) == c.l0 as int,
    ensures
        distance_step_out(c, p1, p2, dt).pos1 == p1.pos,
        distance_step_out(c, p1, p2, dt).pos2 == p2.pos,
        distance_step_out(c, p1, p2, dt).lambda == c.lambda as int,
{
    lemma_mul_zero();
    lemma_add_zero(p1.pos.x);
    lemma_add_zero(p1.pos.y);
    lemma_add_zero(p2.pos.x);
    lemma_add_zero(p2.pos.y);
    let dt2 = fx_mul_s(dt, dt);
    if dt2 > 0 {
        let w = crate::fixed::fx_add_s(p1.imass, p2.imass);
        if w != 0 {
            let l = v2_mag_s(v2_sub_s(p1.pos, p2.pos));
            if l != 0 {
                let dl = crate::fixed::fx_sub_s(l, c.l0 as int);
                assert(dl == 0);
                if !((c.ty == DistanceConstraintType::Repulsive && dl >= 0) || (c.ty
                    == DistanceConstraintType::Attractive && dl <= 0)) {
                    let ct = fx_div_s(0, dt2);
                    assert(ct == 0) by {
                        assert(q_tz(0 * FX_ONE, dt2) == absi(0 * FX_ONE) / absi(dt2));
                    }
                    let num = crate::fixed::fx_sub_s(
                        crate::fixed::fx_sub_s(0, dl),
                        fx_mul_s(ct, c.lambda as int),
                    );
                    assert(num == 0);
                    let denom = crate::fixed::fx_add_s(w, ct);
                    let dlambda = fx_div_s(num, denom);
                    assert(dlambda == 0) by {
                        assert(q_tz(0 * FX_ONE, denom) == absi(0 * FX_ONE) / absi(denom));
                    }
                    let out = distance_step_out(c, p1, p2, dt);
                    assert(fx_mul_s(dlambda, v2_sub_s(p1.pos, p2.pos).x) == 0) by {
                        assert(0 * v2_sub_s(p1.pos, p2.pos).x == 0);
                    }
                    assert(fx_mul_s(dlambda, v2_sub_s(p1.pos, p2.pos).y) == 0) by {
                        assert(0 * v2_sub_s(p1.pos, p2.pos).y == 0);
                    }
                    assert(fx_div_s(0, l) == 0) by {
                        assert(q_tz(0 * FX_ONE, l) == absi(0 * FX_ONE) / absi(l));
                    }
                    assert(out.pos1.x == p1.pos.x && out.pos1.y == p1.pos.y);
                    assert(out.pos2.x == p2.pos.x && out.pos2.y == p2.pos.y);
                }
            }
        }
    }
}

/// One sub-step of an isolated, fully stiff pair: both particles are
/// integrated, then the distance constraint projects once.
pub open spec fn stiff_pair_step(
    c: DistanceConstraint,
    p1: ParticleI,
    p2: ParticleI,
    dt: int,
    max_dp: int,
) -> (ParticleI, ParticleI) {
    let q1 = particle_update_s(p1, dt, max_dp);
    let q2 = particle_update_s(p2, dt, max_dp);
    let out = distance_step_out(c, q1, q2, dt);
    (ParticleI { pos: out.pos1, ..q1 }, ParticleI { pos: out.pos2, ..q2 })
}

/// `n` sub-steps of an isolated, fully stiff pair.
pub open spec fn stiff_pair_iter(
    c: DistanceConstraint,
    p1: ParticleI,
    p2: ParticleI,
    dt: int,
    max_dp: int,
    n: nat,
) -> (ParticleI, ParticleI)
    decreases n,
{
    if n == 0 {
        (p1, p2)
    } else {
        let (q1, q2) = stiff_pair_iter(c, p1, p2, dt, max_dp, (n - 1) as nat);
        stiff_pair_step(c, q1, q2, dt, max_dp)
    }
}

/// An isolated pair at rest at the rest length of a fully stiff
/// distance constraint, under zero acceleration, stays exactly in
/// place for arbitrarily many sub-steps.
pub proof fn lemma_stiff_pair_rest(
    c: DistanceConstraint,
    p1: ParticleI,
    p2: ParticleI,
    dt: int,
    max_dp: int,
    n: nat,
)
    requires
        c.compliance == 0,
        v2_ok(p1.pos),
        v2_ok(p2.pos),
        p1.ppos == p1.pos,
        p2.ppos == p2.pos,
        p1.accel == (V2i { x: 0, y: 0 }),
        p2.accel == (V2i { x: 0, y: 0 }),
        max_dp >= 0,
        v2_mag_s(v2_sub_s(p1.pos, p2.pos)) == c.l0 as int,
    ensures
        stiff_pair_iter(c, p1, p2, dt, max_dp, n).0.pos == p1.pos,
        stiff_pair_iter(c, p1, p2, dt, max_dp, n).1.pos == p2.pos,
        stiff_pair_iter(c, p1, p2, dt, max_dp, n).0.ppos == p1.pos,
        stiff_pair_iter(c, p1, p2, dt, max_dp, n).1.ppos == p2.pos,
        stiff_pair_iter(c, p1, p2, dt, max_dp, n).0.accel == p1.accel,
        stiff_pair_iter(c, p1, p2, dt, max_dp, n).1.accel == p2.accel,
        stiff_pair_iter(c, p1, p2, dt, max_dp, n).0.imass == p1.imass,
        stiff_pair_iter(c, p1, p2, dt, max_dp, n).1.imass == p2.imass,
    decreases n,
{
    if n > 0 {
        lemma_stiff_pair_rest(c, p1, p2, dt, max_dp, (n - 1) as nat);
        let (q1, q2) = stiff_pair_iter(c, p1, p2, dt, max_dp, (n - 1) as nat);
        lemma_integrate_at_rest(q1, dt, max_dp);
        lemma_integrate_at_rest(q2, dt, max_dp);
        let r1 = particle_update_s(q1, dt, max_dp);
        let r2 = particle_update_s(q2, dt, max_dp);
        assert(r1.pos == p1.pos && r2.pos == p2.pos);
        lemma_stiff_distance_at_rest(c, r1, r2, dt);
    }
}

/// A particle at rest under zero acceleration does not move: the
/// integrator's tentative displacement is exactly zero.
pub proof fn lemma_integrate_at_rest(p: ParticleI, dt: int, max_dp: int)
    requires
        v2_ok(p.pos),
        p.ppos == p.pos,
        p.accel == (V2i { x: 0, y: 0 }),
        max_dp >= 0,
    ensures
        particle_update_s(p, dt, max_dp).pos == p.pos,
        particle_update_s(p, dt, max_dp).ppos == p.pos,
{
    lemma_mul_zero();
    lemma_add_zero(p.pos.x);
    lemma_add_zero(p.pos.y);
    if p.imass != 0 {
        assert(fx_mul_s(0, dt) == 0) by {
            assert(q_tz(0 * dt, FX_ONE as int) == absi(0 * dt) / absi(FX_ONE as int));
            assert(0 * dt == 0);
        }
        assert(crate::fixed::fx_sub_s(p.pos.x, p.pos.x) == 0);
        assert(crate::fixed::fx_sub_s(p.pos.y, p.pos.y) == 0);
        let z = V2i { x: 0, y: 0 };
        assert(mag_sq_s(z) == 0) by {
            assert(q_tz(0int * 0int, FX_ONE as int) == absi(0int * 0int) / absi(FX_ONE as int));
        }
        assert(v2_mag_s(z) == 0) by {
            lemma_isqrt(0);
            assert(is_isqrt(0, isqrt_spec(0)));
            assert(isqrt_spec(0) * isqrt_spec(0) <= 0);
            assert(isqrt_spec(0) == 0) by (nonlinear_arith)
                requires
                    isqrt_spec(0) >= 0,
                    isqrt_spec(0) * isqrt_spec(0) <= 0,
            ;
        }
    }
}

/// A world that holds exactly an isolated, fully stiff pair at rest:
/// two particles with no implied velocity and zero acceleration,
/// inside the bounding box, joined by one distance constraint exactly
/// at its rest length, farther apart than one collision cell, with no
/// transient or marionette constraints and no recorded dependents.
pub open spec fn stiff_rest_world(w: PWorld, d: DistanceConstraint) -> bool {
    &&& w.pg.particles@.len() == 2
    &&& forall|i: int|
        0 <= i < 2 ==> {
            let p = (#[trigger] w.pg.particles@[i])@;
            &&& p.ppos == p.pos
            &&& p.accel == (V2i { x: 0, y: 0 })
            &&& !w.pg.posbox.hits(p.pos)
        }
    &&& w.pg.csize >= 0
    &&& w.pg.speed_limit_k >= 0
    &&& w.cg.constraints@.len() == 1
    &&& w.cg.constraints@[0].1 == Constraint::Distance(d)
    &&& w.cg.tmp_constraints@.len() == 0
    &&& w.cg.marionette_constraints@.len() == 0
    &&& w.cg.dependencies@.len() == 0
    &&& d.compliance == 0
    &&& d.lambda == 0
    &&& d.ps.ids@ == seq![0usize, 1usize]
    &&& d.ps_sort.ids@ == seq![0usize, 1usize]
    &&& v2_mag_s(v2_sub_s(w.pg.particles@[0]@.pos, w.pg.particles@[1]@.pos)) == d.l0 as int
    &&& d.l0 > w.pg.csize
    &&& d.break_lo <= d.l0 <= d.break_hi
    &&& d.plas_cutoff >= 0
}

/// One projection pass leaves a stiff pair at rest exactly in place
/// and hands the constraint back unchanged.
proof fn lemma_stiff_rest_pass(
    cg0: ConstraintGroup,
    pg0: ParticleGroup,
    cg1: ConstraintGroup,
    pg1: ParticleGroup,
    d: DistanceConstraint,
    dt: int,
)
    requires
        cg0.constraints@.len() == 1,
        cg0.constraints@[0].1 == Constraint::Distance(d),
        cg0.tmp_constraints@.len() == 0,
        cg0.marionette_constraints@.len() == 0,
        d.compliance == 0,
        d.ps_sort.ids@ == seq![0usize, 1usize],
        pg0.particles@.len() == 2,
        v2_mag_s(v2_sub_s(pg0.particles@[0]@.pos, pg0.particles@[1]@.pos)) == d.l0 as int,
        d.l0 > 0,
        solve_pass_rel(cg0, pg0, cg1, pg1, dt),
    ensures
        cg1.constraints@.len() == 1,
        cg1.constraints@[0] == (cg0.constraints@[0].0, Constraint::Distance(d)),
        cg1.tmp_constraints@.len() == 0,
        cg1.marionette_constraints@.len() == 0,
        cg1.dependencies == cg0.dependencies,
        pg1 == (ParticleGroup { particles: pg1.particles, ..pg0 }),
        pg1.particles@.len() == 2,
        pg1.particles@[0]@ == pg0.particles@[0]@,
        pg1.particles@[1]@ == pg0.particles@[1]@,
{
    let p0 = pg0.particles@;
    let p1 = pg1.particles@;
    let (pa, pb): (Seq<Particle>, Seq<Particle>) = choose|pa: Seq<Particle>, pb: Seq<Particle>|
        {
            &&& solve_seq_rel(perm_cons(cg0.constraints@), perm_cons(cg1.constraints@), p0, pa, dt)
            &&& #[trigger] solve_seq_rel(cg0.tmp_constraints@, cg1.tmp_constraints@, pa, pb, dt)
            &&& solve_seq_rel(
                mar_cons(cg0.marionette_constraints@),
                mar_cons(cg1.marionette_constraints@),
                pb,
                p1,
                dt,
            )
        };
    let cs0 = perm_cons(cg0.constraints@);
    let cs1 = perm_cons(cg1.constraints@);
    assert(cs0.len() == 1 && cs0[0] == Constraint::Distance(d));
    let pm = choose|pm: Seq<Particle>|
        #[trigger] step_rel(cs0[0], cs1[0], p0, pm, dt) && solve_seq_rel(
            cs0.drop_first(),
            cs1.drop_first(),
            pm,
            pa,
            dt,
        );
    assert(cs0.drop_first().len() == 0);
    assert(pa == pm);
    let q1 = p0[0]@;
    let q2 = p0[1]@;
    assert(d.ps_sort.ids@[0] == 0usize && d.ps_sort.ids@[1] == 1usize);
    assert(!distance_step_degenerate(q1, q2, dt));
    assert(v2_ok(q1.pos) && v2_ok(q2.pos));
    lemma_stiff_distance_at_rest(d, q1, q2, dt);
    let out = distance_step_out(d, q1, q2, dt);
    assert(out.pos1 == q1.pos && out.pos2 == q2.pos && out.lambda == d.lambda as int);
    match cs1[0] {
        Constraint::Distance(d2) => {
            assert(d2 == (DistanceConstraint { lambda: d2.lambda, ..d }));
            assert(d2.lambda as int == d.lambda as int);
            assert(d2 == d);
        },
        _ => {
            assert(false);
        },
    }
    assert(pm.len() == 2);
    assert(pm[0]@ == (ParticleI { pos: out.pos1, ..q1 }));
    assert(pm[0]@ == q1);
    assert(pm[1]@ == q2);
    // the transient and marionette folds are empty
    assert(cg1.tmp_constraints@.len() == 0 && pb == pa);
    assert(mar_cons(cg0.marionette_constraints@).len() == 0);
    assert(p1 == pb);
    assert(cg1.constraints@[0].1 == cs1[0]);
    assert(cg1.constraints@[0].0 == cg0.constraints@[0].0);
    assert(cg1.constraints@[0] == (cg0.constraints@[0].0, Constraint::Distance(d)));
}

/// Any number of projection passes leaves a stiff pair at rest
/// exactly in place.
proof fn lemma_stiff_rest_passes(
    cg0: ConstraintGroup,
    pg0: ParticleGroup,
    cg1: ConstraintGroup,
    pg1: ParticleGroup,
    d: DistanceConstraint,
    k: int,
    dt: int,
)
    requires
        cg0.constraints@.len() == 1,
        cg0.constraints@[0].1 == Constraint::Distance(d),
        cg0.tmp_constraints@.len() == 0,
        cg0.marionette_constraints@.len() == 0,
        d.compliance == 0,
        d.ps_sort.ids@ == seq![0usize, 1usize],
        pg0.particles@.len() == 2,
        v2_mag_s(v2_sub_s(pg0.particles@[0]@.pos, pg0.particles@[1]@.pos)) == d.l0 as int,
        d.l0 > 0,
        solve_iters_rel(cg0, pg0, cg1, pg1, k, dt),
    ensures
        cg1.constraints@.len() == 1,
        cg1.constraints@[0] == (cg0.constraints@[0].0, Constraint::Distance(d)),
        cg1.tmp_constraints@.len() == 0,
        cg1.marionette_constraints@.len() == 0,
        cg1.dependencies == cg0.dependencies,
        pg1 == (ParticleGroup { particles: pg1.particles, ..pg0 }),
        pg1.particles@.len() == 2,
        pg1.particles@[0]@ == pg0.particles@[0]@,
        pg1.particles@[1]@ == pg0.particles@[1]@,
    decreases k,
{
    if k <= 0 {
        assert(cg1 == cg0 && pg1 == pg0);
    } else {
        let (cgm, pgm): (ConstraintGroup, ParticleGroup) = choose|
            cgm: ConstraintGroup,
            pgm: ParticleGroup,
        |
            #[trigger] solve_pass_rel(cg0, pg0, cgm, pgm, dt) && solve_iters_rel(
                cgm,
                pgm,
                cg1,
                pg1,
                k - 1,
                dt,
            );
        lemma_stiff_rest_pass(cg0, pg0, cgm, pgm, d, dt);
        lemma_stiff_rest_passes(cgm, pgm, cg1, pg1, d, k - 1, dt);
    }
}

/// One whole sub-step leaves a stiff pair at rest exactly in place:
/// pre-iteration keeps the constraint (the length is inside the break
/// range and plasticity sees no strain), integration moves nothing,
/// the broad phase emits nothing, and every projection pass is the
/// identity.
/// Pre-iteration keeps the lone stiff constraint of a pair at rest
/// exactly as it stood: the length sits inside the break range,
/// plasticity sees no strain, and with no recorded dependents no
/// cascade can reach it.
proof fn lemma_stiff_rest_pre(wa: PWorld, cg_pre: ConstraintGroup, d: DistanceConstraint)
    requires
        stiff_rest_world(wa, d),
        pre_rel(wa.cg, cg_pre, wa.pg.particles@),
    ensures
        cg_pre.constraints@.len() == 1,
        cg_pre.constraints@[0] == (wa.cg.constraints@[0].0, Constraint::Distance(d)),
        cg_pre.tmp_constraints == wa.cg.tmp_constraints,
        cg_pre.marionette_constraints == wa.cg.marionette_constraints,
        cg_pre.dependencies == wa.cg.dependencies,
{
    let parts = wa.pg.particles@;
    let key = wa.cg.constraints@[0].0;
    assert(distance_pre_out(d, parts[0]@, parts[1]@) == (true, d.l0 as int)) by {
        let l = v2_mag_s(v2_sub_s(parts[0]@.pos, parts[1]@.pos));
        assert(l == d.l0 as int);
        if d.plas_thresh != 0 {
            assert(fx_sub_s(l, d.l0 as int) == 0);
            assert(absi(0) == 0);
        }
    }
    assert(pre_alive_s(Constraint::Distance(d), parts));
    assert(pre_next_s(Constraint::Distance(d), parts) == Constraint::Distance(d)) by {
        assert((DistanceConstraint { lambda: 0, l0: ((d.l0 as int) as i64), ..d }) == d);
    }
    assert(has_key(wa.cg.constraints@, key)) by {
        assert(wa.cg.constraints@[0].0 == key);
    }
    assert(has_key(cg_pre.constraints@, key)) by {
        if !has_key(cg_pre.constraints@, key) {
            let k = choose|k: i32|
                has_key(wa.cg.constraints@, k) && !has_key(cg_pre.constraints@, k)
                    && #[trigger] deps_of(wa.cg.dependencies@, k).contains(
                    wa.cg.constraints@[0].0,
                );
            assert(!has_dep_key(wa.cg.dependencies@, k));
            assert(deps_of(wa.cg.dependencies@, k) == Seq::<i32>::empty());
            assert(false);
        }
    }
    assert forall|i: int|
        0 <= i < cg_pre.constraints@.len() implies (#[trigger] cg_pre.constraints@[i]).0 == key
            && cg_pre.constraints@[i].1 == Constraint::Distance(d) by {
        let j = choose|j: int|
            {
                &&& 0 <= j < wa.cg.constraints@.len()
                &&& cg_pre.constraints@[i].0 == wa.cg.constraints@[j].0
                &&& cg_pre.constraints@[i].1 == pre_next_s(
                    wa.cg.constraints@[j].1,
                    wa.pg.particles@,
                )
            };
        assert(j == 0);
    }
    assert(cg_pre.constraints@.len() == 1) by {
        if cg_pre.constraints@.len() >= 2 {
            assert(cg_pre.constraints@[0].0 < cg_pre.constraints@[1].0);
            assert(false);
        }
        let w = choose|w: int|
            0 <= w < cg_pre.constraints@.len() && (#[trigger] cg_pre.constraints@[w]).0 == key;
    }
    assert(cg_pre.constraints@[0] == (key, Constraint::Distance(d)));
}

/// Integration moves neither particle of a pair at rest inside the
/// bounding box.
proof fn lemma_stiff_rest_integrate(wa: PWorld, pg_int: ParticleGroup, d: DistanceConstraint, dt: int)
    requires
        stiff_rest_world(wa, d),
        pg_update_rel(wa.pg, pg_int, dt),
    ensures
        pg_int.particles@.len() == 2,
        pg_int.particles@[0]@ == wa.pg.particles@[0]@,
        pg_int.particles@[1]@ == wa.pg.particles@[1]@,
        pg_int.csize == wa.pg.csize,
        pg_int.speed_limit_k == wa.pg.speed_limit_k,
        pg_int.posbox == wa.pg.posbox,
{
    let parts = wa.pg.particles@;
    let mdp = fx_mul_s(wa.pg.speed_limit_k as int, wa.pg.csize as int);
    lemma_mul_nonneg(wa.pg.speed_limit_k as int, wa.pg.csize as int);
    assert forall|i: int| 0 <= i < 2 implies (#[trigger] pg_int.particles@[i])@ == parts[i]@ by {
        let p = parts[i]@;
        assert(v2_ok(p.pos));
        lemma_integrate_at_rest(p, dt, mdp);
        let q = particle_update_s(p, dt, mdp);
        assert(q == p);
        assert(!wa.pg.posbox.hits(q.pos));
        assert(integrate_clamp_s(p, dt, mdp, wa.pg.posbox) == p);
    }
}

#[verifier::rlimit(100)]
proof fn lemma_stiff_rest_sub_step(
    wa: PWorld,
    wb: PWorld,
    d: DistanceConstraint,
    dt: int,
    iteration: int,
)
    requires
        stiff_rest_world(wa, d),
        sub_step_rel(wa, wb, dt, iteration),
    ensures
        stiff_rest_world(wb, d),
        wb == (PWorld { pg: wb.pg, cg: wb.cg, ..wa }),
        wb.pg.particles@[0]@ == wa.pg.particles@[0]@,
        wb.pg.particles@[1]@ == wa.pg.particles@[1]@,
{
    if dt == 0 {
        assert(wb == wa);
    } else {
        let parts = wa.pg.particles@;
        let cg_pre = choose|cg_pre: ConstraintGroup|
            {
                &&& #[trigger] pre_rel(wa.cg, cg_pre, wa.pg.particles@)
                &&& exists|pg_int: ParticleGroup|
                    {
                        &&& #[trigger] pg_update_rel(wa.pg, pg_int, dt)
                        &&& exists|cg_tmp: ConstraintGroup|
                            {
                                &&& cg_tmp == (ConstraintGroup {
                                    tmp_constraints: cg_tmp.tmp_constraints,
                                    ..cg_pre
                                })
                                &&& coll_rel(pg_int, cg_tmp.tmp_constraints@)
                                &&& #[trigger] solve_iters_rel(
                                    cg_tmp,
                                    pg_int,
                                    wb.cg,
                                    wb.pg,
                                    iteration,
                                    dt,
                                )
                            }
                    }
            };
        let pg_int = choose|pg_int: ParticleGroup|
            {
                &&& #[trigger] pg_update_rel(wa.pg, pg_int, dt)
                &&& exists|cg_tmp: ConstraintGroup|
                    {
                        &&& cg_tmp == (ConstraintGroup {
                            tmp_constraints: cg_tmp.tmp_constraints,
                            ..cg_pre
                        })
                        &&& coll_rel(pg_int, cg_tmp.tmp_constraints@)
                        &&& #[trigger] solve_iters_rel(cg_tmp, pg_int, wb.cg, wb.pg, iteration, dt)
                    }
            };
        let cg_tmp = choose|cg_tmp: ConstraintGroup|
            {
                &&& cg_tmp == (ConstraintGroup {
                    tmp_constraints: cg_tmp.tmp_constraints,
                    ..cg_pre
                })
                &&& coll_rel(pg_int, cg_tmp.tmp_constraints@)
                &&& #[trigger] solve_iters_rel(cg_tmp, pg_int, wb.cg, wb.pg, iteration, dt)
            };
        // pre-iteration keeps the constraint; integration moves
        // nothing
        lemma_stiff_rest_pre(wa, cg_pre, d);
        lemma_stiff_rest_integrate(wa, pg_int, d, dt);
        // broad phase: the pair stands farther apart than the cell
        // size, so nothing is emitted
        let res = cg_tmp.tmp_constraints@;
        assert(res.len() == 0) by {
            if res.len() > 0 {
                let a = coll_a(res[0]);
                let b = coll_b(res[0]);
                assert(a < b && (b as int) < 2);
                assert(a == 0usize && b == 1usize);
                assert(v2_mag_s(
                    v2_sub_s(pg_int.particles@[0].pos@, pg_int.particles@[1].pos@),
                ) <= pg_int.csize as int);
                assert(pg_int.particles@[0].pos@ == pg_int.particles@[0]@.pos);
                assert(v2_mag_s(v2_sub_s(parts[0]@.pos, parts[1]@.pos)) == d.l0 as int);
                assert(false);
            }
        }
        // the projection passes are each the identity
        lemma_stiff_rest_passes(
            cg_tmp,
            pg_int,
            wb.cg,
            wb.pg,
            d,
            iteration,
            dt,
        );
        assert(wb.pg.particles@[0]@ == parts[0]@);
        assert(wb.pg.particles@[1]@ == parts[1]@);
        assert(wb.pg.posbox == wa.pg.posbox);
        assert(wb.pg.csize == wa.pg.csize);
        assert(wb.pg.speed_limit_k == wa.pg.speed_limit_k);
        assert(wb.cg.dependencies == wa.cg.dependencies);
        assert(stiff_rest_world(wb, d));
    }
}

/// Energy non-increase for a stiff distance constraint, attached to
/// the world loop: a world holding an isolated, fully stiff pair at
/// rest under zero acceleration is a fixed point of the physics block
/// of `PWorld::run` — across any number of rendered frames neither
/// particle moves at all.
pub proof fn lemma_stiff_pair_rest_run(w0: PWorld, w1: PWorld, d: DistanceConstraint, k: int)
    requires
        stiff_rest_world(w0, d),
        run_iters_rel(w0, w1, k),
    ensures
        stiff_rest_world(w1, d),
        w1.pg.particles@[0]@.pos == w0.pg.particles@[0]@.pos,
        w1.pg.particles@[1]@.pos == w0.pg.particles@[1]@.pos,
    decreases k,
{
    if k > 0 {
        let wm = choose|wm: PWorld|
            #[trigger] sub_step_rel(w0, wm, w0.dt as int, w0.iteration as int) && run_iters_rel(
                wm,
                w1,
                k - 1,
            );
        lemma_stiff_rest_sub_step(w0, wm, d, w0.dt as int, w0.iteration as int);
        lemma_stiff_pair_rest_run(wm, w1, d, k - 1);
    }
}

/// Lock-order totality: a well-formed constraint acquires its
/// particles in strictly ascending id order, so for any two
/// constraints sharing particles the shared ids are reached in the
/// same order by both, and no cyclic wait can arise.
pub proof fn lemma_lock_order_total(c: Constraint)
    requires
        c.wf(),
    ensures
        forall|p: int, q: int|
            0 <= p < q < c.lock_ids().len() ==> c.lock_ids()[p] < c.lock_ids()[q],
{
    match c {
        Constraint::Distance(d) => {
            assert(d.ps_sort.ids@[0] < d.ps_sort.ids@[1]);
        },
        Constraint::Volume(v) => {
            assert forall|p: int, q: int|
                0 <= p < q < v.ps_sort.ids@.len() implies v.ps_sort.ids@[p] < v.ps_sort.ids@[q] by {
                assert(v.ps_sort.ids@[p] <= v.ps_sort.ids@[q]);
                assert(v.ps_sort.ids@[p] != v.ps_sort.ids@[q]);
            }
        },
        Constraint::Leash(_) => {},
    }
}

} // verus!
