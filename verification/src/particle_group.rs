//! The particle store and its uniform-grid spatial hash.
//!
//! Particles are owned by `particles`, indexed by their stable id
//! (ids are handed out densely and never reused).  The spatial hash
//! keys each particle by the integer cell `floor(position / csize)`;
//! after every `update` and `add_pref` each live particle sits in
//! exactly one bucket whose key matches its position.

use crate::constraint::Constraint;
use crate::constraint::distance::DistanceConstraint;
use crate::fixed::FX_ONE;
use crate::fixed::absi;
use crate::fixed::fx_mul;
use crate::fixed::fx_mul_s;
use crate::fixed::lemma_isqrt;
use crate::fixed::lemma_mul_nonneg;
use crate::fixed::q_tz;
use crate::fixed::sat64;
use crate::particle::Particle;
use crate::particle::ParticleI;
use crate::particle::particle_update_s;
use crate::posbox::Posbox;
use crate::pr_model::PrParticle;
use crate::vec2::V2;
use crate::vec2::V2i;
use crate::vec2::mag_sq_s;
use crate::vec2::v2_mag_s;
use crate::vec2::v2_sub_s;
use vstd::arithmetic::div_mod::lemma_fundamental_div_mod;
use vstd::arithmetic::div_mod::lemma_fundamental_div_mod_converse;
use vstd::prelude::*;

verus! {

/// One cell of the spatial hash: its integer cell coordinate and the
/// ids of the particles resident in it.
#[derive(Clone, Debug)]
pub struct Bucket {
    pub cx: i64,
    pub cy: i64,
    pub ids: Vec<usize>,
}

/// Floor division of a coordinate by a positive cell size.
pub fn floor_div(x: i64, c: i64) -> (r: i64)
    requires
        c > 0,
    ensures
        r as int == (x as int) / (c as int),
{
    if x >= 0 {
        ((x as u64) / (c as u64)) as i64
    } else {
        let a: u128 = (-(x as i128)) as u128;
        let cu: u128 = c as u128;
        let q: u128 = (a + cu - 1) / cu;
        proof {
            lemma_floor_div_neg(x as int, c as int);
            lemma_fundamental_div_mod((a + cu - 1) as int, cu as int);
            assert(q as int <= a as int) by (nonlinear_arith)
                requires
                    cu as int >= 1,
                    a as int >= 1,
                    q as int >= 0,
                    (a + cu - 1) as int == (cu as int) * (q as int) + ((a + cu - 1) as int) % (
                    cu as int),
                    ((a + cu - 1) as int) % (cu as int) >= 0,
            ;
        }
        (-(q as i128)) as i64
    }
}

/// For a negative numerator, the floor quotient is the negated ceiling
/// quotient of the magnitude.
proof fn lemma_floor_div_neg(x: int, c: int)
    requires
        x < 0,
        c > 0,
    ensures
        x / c == -((-x + c - 1) / c),
{
    let a = -x;
    let q0 = a / c;
    let r0 = a % c;
    lemma_fundamental_div_mod(a, c);
    assert(a == q0 * c + r0);
    if r0 == 0 {
        assert(a + c - 1 == q0 * c + (c - 1));
        lemma_fundamental_div_mod_converse(a + c - 1, c, q0, c - 1);
        assert(x == (-q0) * c + 0) by (nonlinear_arith)
            requires
                x == -a,
                a == q0 * c,
        ;
        lemma_fundamental_div_mod_converse(x, c, -q0, 0);
    } else {
        assert(a + c - 1 == (q0 + 1) * c + (r0 - 1)) by (nonlinear_arith)
            requires
                a == q0 * c + r0,
        ;
        lemma_fundamental_div_mod_converse(a + c - 1, c, q0 + 1, r0 - 1);
        assert(x == (-q0 - 1) * c + (c - r0)) by (nonlinear_arith)
            requires
                x == -a,
                a == q0 * c + r0,
        ;
        lemma_fundamental_div_mod_converse(x, c, -q0 - 1, c - r0);
    }
}

/// The cell coordinate of a position: componentwise floor division.
pub open spec fn cell_x(p: V2i, csize: int) -> int {
    p.x / csize
}

/// See `cell_x`.
pub open spec fn cell_y(p: V2i, csize: int) -> int {
    p.y / csize
}

/// Whether some bucket of `cells` holds `id`.
pub open spec fn hash_contains(cells: Seq<Bucket>, id: usize) -> bool {
    exists|bi: int| 0 <= bi < cells.len() && (#[trigger] cells[bi]).ids@.contains(id)
}

/// The index of the bucket holding `id`.
pub open spec fn bucket_of(cells: Seq<Bucket>, id: usize) -> int {
    choose|bi: int| 0 <= bi < cells.len() && (#[trigger] cells[bi]).ids@.contains(id)
}

/// Membership in `cells1` agrees with membership in `cells0` for
/// every id but `id`.
pub open spec fn same_membership_except(cells1: Seq<Bucket>, cells0: Seq<Bucket>, id: usize) -> bool {
    forall|id2: usize|
        id2 != id ==> (hash_contains(cells1, id2) <==> #[trigger] hash_contains(cells0, id2))
}

/// The particle store with its spatial hash.
pub struct ParticleGroup {
    pub id_alloc: usize,
    pub csize: i64,
    pub speed_limit_k: i64,
    pub posbox: Posbox,
    pub particles: Vec<Particle>,
    pub cells: Vec<Bucket>,
}

impl ParticleGroup {
    /// Structural invariant: dense ids, a positive cell size, a
    /// velocity-limit factor in (0, 1], and a hash that partitions the
    /// live ids (each id in exactly one bucket, no duplicates, distinct
    /// non-empty cells).
    pub open spec fn wf(self) -> bool {
        &&& self.csize > 0
        &&& 0 < self.speed_limit_k <= FX_ONE
        &&& self.id_alloc == self.particles@.len()
        &&& forall|i: int|
            0 <= i < self.particles@.len() ==> (#[trigger] self.particles@[i]).id == i
        &&& forall|i: int| 0 <= i < self.particles@.len() ==> (#[trigger] self.particles@[i]).wf()
        &&& forall|bi: int|
            0 <= bi < self.cells@.len() ==> (#[trigger] self.cells@[bi]).ids@.no_duplicates()
        &&& forall|bi: int| 0 <= bi < self.cells@.len() ==> (#[trigger] self.cells@[bi]).ids@.len() > 0
        &&& forall|bi: int, j: int|
            0 <= bi < self.cells@.len() && 0 <= j < (#[trigger] self.cells@[bi]).ids@.len()
                ==> (#[trigger] self.cells@[bi].ids@[j]) < self.particles@.len()
        &&& forall|bi: int, bj: int|
            0 <= bi < self.cells@.len() && 0 <= bj < self.cells@.len() && bi != bj ==> !((
            #[trigger] self.cells@[bi]).cx == (#[trigger] self.cells@[bj]).cx && self.cells@[bi].cy
                == self.cells@[bj].cy)
        &&& forall|bi: int, bj: int, id: usize|
            0 <= bi < self.cells@.len() && 0 <= bj < self.cells@.len() && bi != bj && #[trigger] self.cells@[bi].ids@.contains(id) ==> !(#[trigger] self.cells@[bj].ids@.contains(id))
        &&& forall|id: usize| id < self.particles@.len() ==> hash_contains(self.cells@, id)
    }

    /// The hash is fresh: every bucket's key is the cell of each of its
    /// members' current positions.
    pub open spec fn fresh(self) -> bool {
        forall|bi: int, j: int|
            0 <= bi < self.cells@.len() && 0 <= j < self.cells@[bi].ids@.len() ==> {
                let id = #[trigger] self.cells@[bi].ids@[j];
                &&& self.cells@[bi].cx as int == cell_x(
                    self.particles@[id as int].pos@,
                    self.csize as int,
                )
                &&& self.cells@[bi].cy as int == cell_y(
                    self.particles@[id as int].pos@,
                    self.csize as int,
                )
            }
    }

    /// The number of live particles.
    pub fn len(&self) -> (r: usize)
        ensures
            r == self.particles@.len(),
    {
        self.particles.len()
    }

    /// Replace the bounding box.
    pub fn with_posbox(self, posbox: Posbox) -> (r: ParticleGroup)
        ensures
            r == (ParticleGroup { posbox, ..self }),
    {
        ParticleGroup { posbox, ..self }
    }

    /// The cell coordinate of a position.
    fn get_cpos(&self, p: V2) -> (r: (i64, i64))
        requires
            self.csize > 0,
        ensures
            r.0 as int == cell_x(p@, self.csize as int),
            r.1 as int == cell_y(p@, self.csize as int),
    {
        (floor_div(p.x, self.csize), floor_div(p.y, self.csize))
    }

    /// The index of the bucket with the given key, if it exists.
    fn bucket_index(&self, cx: i64, cy: i64) -> (r: Option<usize>)
        ensures
            match r {
                Some(bi) => bi < self.cells@.len() && self.cells@[bi as int].cx == cx
                    && self.cells@[bi as int].cy == cy,
                None => forall|bi: int|
                    0 <= bi < self.cells@.len() ==> !((#[trigger] self.cells@[bi]).cx == cx
                        && self.cells@[bi].cy == cy),
            },
    {
        let mut bi: usize = 0;
        while bi < self.cells.len()
            invariant
                bi <= self.cells@.len(),
                forall|k: int|
                    0 <= k < bi as int ==> !((#[trigger] self.cells@[k]).cx == cx && self.cells@[k].cy
                        == cy),
            decreases self.cells@.len() - bi,
        {
            if self.cells[bi].cx == cx && self.cells[bi].cy == cy {
                return Some(bi);
            }
            bi += 1;
        }
        None
    }

    /// Append `id` to the bucket keyed `(cx, cy)`, creating the bucket
    /// if none exists.  Membership of every other id is untouched.
    fn hash_insert(&mut self, cx: i64, cy: i64, id: usize)
        requires
            forall|bi: int|
                0 <= bi < old(self).cells@.len() ==> (#[trigger] old(self).cells@[bi]).ids@.no_duplicates(),
            forall|bi: int|
                0 <= bi < old(self).cells@.len() ==> (#[trigger] old(self).cells@[bi]).ids@.len() > 0,
            forall|bi: int, bj: int|
                0 <= bi < old(self).cells@.len() && 0 <= bj < old(self).cells@.len() && bi != bj
                    ==> !((#[trigger] old(self).cells@[bi]).cx == (
                #[trigger] old(self).cells@[bj]).cx && old(self).cells@[bi].cy
                    == old(self).cells@[bj].cy),
            forall|bi: int, bj: int, id2: usize|
                0 <= bi < old(self).cells@.len() && 0 <= bj < old(self).cells@.len() && bi != bj
                    && #[trigger] old(self).cells@[bi].ids@.contains(id2)
                    ==> !(#[trigger] old(self).cells@[bj].ids@.contains(id2)),
            !hash_contains(old(self).cells@, id),
        ensures
            final(self).particles == old(self).particles,
            final(self).csize == old(self).csize,
            final(self).speed_limit_k == old(self).speed_limit_k,
            final(self).posbox == old(self).posbox,
            final(self).id_alloc == old(self).id_alloc,
            forall|bi: int|
                0 <= bi < final(self).cells@.len() ==> (#[trigger] final(self).cells@[bi]).ids@.no_duplicates(),
            forall|bi: int|
                0 <= bi < final(self).cells@.len() ==> (#[trigger] final(self).cells@[bi]).ids@.len() > 0,
            forall|bi: int, bj: int|
                0 <= bi < final(self).cells@.len() && 0 <= bj < final(self).cells@.len() && bi != bj
                    ==> !((#[trigger] final(self).cells@[bi]).cx == (
                #[trigger] final(self).cells@[bj]).cx && final(self).cells@[bi].cy
                    == final(self).cells@[bj].cy),
            forall|bi: int, bj: int, id2: usize|
                0 <= bi < final(self).cells@.len() && 0 <= bj < final(self).cells@.len() && bi != bj
                    && #[trigger] final(self).cells@[bi].ids@.contains(id2)
                    ==> !(#[trigger] final(self).cells@[bj].ids@.contains(id2)),
            hash_contains(final(self).cells@, id),
            same_membership_except(final(self).cells@, old(self).cells@, id),
            // every membership pins down the same key as before, and the
            // new id sits under (cx, cy)
            forall|bi: int, j: int|
                0 <= bi < final(self).cells@.len() && 0 <= j < final(self).cells@[bi].ids@.len()
                    ==> {
                    let id2 = #[trigger] final(self).cells@[bi].ids@[j];
                    if id2 == id {
                        final(self).cells@[bi].cx == cx && final(self).cells@[bi].cy == cy
                    } else {
                        exists|bk: int, j2: int|
                            {
                                &&& 0 <= bk < old(self).cells@.len()
                                &&& 0 <= j2 < old(self).cells@[bk].ids@.len()
                                &&& #[trigger] old(self).cells@[bk].ids@[j2] == id2
                                &&& old(self).cells@[bk].cx == final(self).cells@[bi].cx
                                &&& old(self).cells@[bk].cy == final(self).cells@[bi].cy
                            }
                    }
                },
    {
        let ghost cells0 = self.cells@;
        let r = self.bucket_index(cx, cy);
        match r {
            Some(bi) => {
                let bucket = &mut self.cells[bi];
                bucket.ids.push(id);
                proof {
                    let bii = bi as int;
                    assert(self.cells@.len() == cells0.len());
                    assert(self.cells@[bii].ids@ == cells0[bii].ids@.push(id));
                    assert(forall|bk: int|
                        0 <= bk < cells0.len() && bk != bii ==> #[trigger] self.cells@[bk]
                            == cells0[bk]);
                    assert(self.cells@[bii].cx == cells0[bii].cx && self.cells@[bii].cy
                        == cells0[bii].cy);
                    assert forall|bk: int|
                        0 <= bk < self.cells@.len() implies (
                    #[trigger] self.cells@[bk]).ids@.no_duplicates() by {
                        if bk == bii {
                            assert(self.cells@[bk].ids@ == cells0[bk].ids@.push(id));
                            assert(!cells0[bk].ids@.contains(id));
                            lemma_push_no_duplicates(cells0[bk].ids@, id);
                        }
                    }
                    assert(self.cells@[bii].ids@.contains(id)) by {
                        assert(self.cells@[bii].ids@[cells0[bii].ids@.len() as int] == id);
                    }
                    assert forall|id2: usize| #[trigger]
                        self.cells@[bii].ids@.contains(id2) implies (cells0[bii].ids@.contains(id2)
                        || id2 == id) by {
                        let j = choose|j: int|
                            0 <= j < self.cells@[bii].ids@.len() && self.cells@[bii].ids@[j] == id2;
                        if j < cells0[bii].ids@.len() {
                            assert(cells0[bii].ids@[j] == id2);
                        }
                    }
                    assert forall|id2: usize|
                        cells0[bii].ids@.contains(id2) implies #[trigger] self.cells@[bii].ids@.contains(
                        id2,
                    ) by {
                        let j = choose|j: int|
                            0 <= j < cells0[bii].ids@.len() && cells0[bii].ids@[j] == id2;
                        assert(self.cells@[bii].ids@[j] == id2);
                    }
                    assert forall|id2: usize|
                        id2 != id implies (hash_contains(self.cells@, id2) <==> #[trigger] hash_contains(
                        cells0,
                        id2,
                    )) by {
                        if hash_contains(self.cells@, id2) {
                            let bk = choose|bk: int|
                                0 <= bk < self.cells@.len() && (#[trigger] self.cells@[bk]).ids@.contains(
                                    id2,
                                );
                            assert(cells0[bk].ids@.contains(id2));
                        }
                        if hash_contains(cells0, id2) {
                            let bk = choose|bk: int|
                                0 <= bk < cells0.len() && (#[trigger] cells0[bk]).ids@.contains(id2);
                            assert(self.cells@[bk].ids@.contains(id2));
                        }
                    }
                    assert(same_membership_except(self.cells@, cells0, id));
                }
            },
            None => {
                let mut ids: Vec<usize> = Vec::new();
                ids.push(id);
                self.cells.push(Bucket { cx, cy, ids });
                proof {
                    let n = self.cells@.len() - 1;
                    assert(self.cells@[n].ids@ =~= seq![id]);
                    assert(self.cells@[n].ids@.contains(id)) by {
                        assert(self.cells@[n].ids@[0] == id);
                    }
                    assert(hash_contains(self.cells@, id));
                    assert forall|id2: usize|
                        id2 != id implies (hash_contains(self.cells@, id2) <==> #[trigger] hash_contains(
                        cells0,
                        id2,
                    )) by {
                        let n = self.cells@.len() - 1;
                        if hash_contains(self.cells@, id2) {
                            let bk = choose|bk: int|
                                0 <= bk < self.cells@.len() && (#[trigger] self.cells@[bk]).ids@.contains(
                                    id2,
                                );
                            if bk < n {
                                assert(cells0[bk].ids@.contains(id2));
                            } else {
                                assert(self.cells@[n].ids@ == seq![id]);
                                assert(id2 == id);
                            }
                        }
                        if hash_contains(cells0, id2) {
                            let bk = choose|bk: int|
                                0 <= bk < cells0.len() && (#[trigger] cells0[bk]).ids@.contains(id2);
                            assert(self.cells@[bk].ids@.contains(id2));
                        }
                    }
                    assert(same_membership_except(self.cells@, cells0, id));
                }
            },
        }
    }
}

/// One whole integration step of a particle: Verlet update with the
/// displacement cap, then the hard position clamp; a clamped particle
/// also has its previous position set, so it starts the next step with
/// zero implied velocity.
pub open spec fn integrate_clamp_s(p: ParticleI, dt: int, max_dp: int, bx: Posbox) -> ParticleI {
    let q = particle_update_s(p, dt, max_dp);
    if bx.hits(q.pos) {
        ParticleI { pos: bx.apply_s(q.pos), ppos: bx.apply_s(q.pos), ..q }
    } else {
        q
    }
}

impl ParticleGroup {
    /// Stamp the particle with the next id and insert it into the
    /// store and into its spatial-hash cell.
    pub fn add_pref(&mut self, p: Particle) -> (id: usize)
        requires
            old(self).wf(),
            p.imass >= 0,
            old(self).particles@.len() < usize::MAX,
        ensures
            final(self).wf(),
            id == old(self).particles@.len(),
            final(self).particles@ == old(self).particles@.push(Particle { id, ..p }),
            final(self).csize == old(self).csize,
            final(self).speed_limit_k == old(self).speed_limit_k,
            final(self).posbox == old(self).posbox,
            old(self).fresh() ==> final(self).fresh(),
    {
        let ghost old_self = *old(self);
        let id = self.particles.len();
        let mut q = p;
        q.set_id(id);
        let pos = q.get_pos();
        self.particles.push(q);
        self.id_alloc = self.particles.len();
        let (cx, cy) = self.get_cpos(pos);
        proof {
            assert(!hash_contains(self.cells@, id)) by {
                if hash_contains(self.cells@, id) {
                    let bi = choose|bi: int|
                        0 <= bi < self.cells@.len() && (#[trigger] self.cells@[bi]).ids@.contains(
                            id,
                        );
                    let j = choose|j: int|
                        0 <= j < self.cells@[bi].ids@.len() && self.cells@[bi].ids@[j] == id;
                    assert(old_self.cells@[bi].ids@[j] < old_self.particles@.len());
                }
            }
        }
        let ghost mid_self = *self;
        self.hash_insert(cx, cy, id);
        proof {
            assert(self.particles@ =~= old_self.particles@.push(Particle { id, ..p }));
            assert forall|bi: int, j: int|
                0 <= bi < self.cells@.len() && 0 <= j < self.cells@[bi].ids@.len() implies (
            #[trigger] self.cells@[bi].ids@[j]) < self.particles@.len() by {
                let id2 = self.cells@[bi].ids@[j];
                assert(self.cells@[bi].ids@.contains(id2));
                if id2 != id {
                    lemma_member_key(old_self.cells@, self.cells@, bi, j, id, id2);
                    assert(id2 < old_self.particles@.len());
                }
            }
            assert forall|id2: usize| id2 < self.particles@.len() implies hash_contains(
                self.cells@,
                id2,
            ) by {
                if id2 != id {
                    assert(hash_contains(old_self.cells@, id2));
                }
            }
            assert(self.wf());
            if old_self.fresh() {
                assert forall|bi: int, j: int|
                    0 <= bi < self.cells@.len() && 0 <= j < self.cells@[bi].ids@.len() implies {
                    let id2 = #[trigger] self.cells@[bi].ids@[j];
                    &&& self.cells@[bi].cx as int == cell_x(
                        self.particles@[id2 as int].pos@,
                        self.csize as int,
                    )
                    &&& self.cells@[bi].cy as int == cell_y(
                        self.particles@[id2 as int].pos@,
                        self.csize as int,
                    )
                } by {
                    let id2 = self.cells@[bi].ids@[j];
                    if id2 != id {
                        lemma_member_key(old_self.cells@, self.cells@, bi, j, id, id2);
                    }
                }
            }
        }
        id
    }

    /// Integrate every particle one sub-step, clamp it into the
    /// bounding box, and rebuild the spatial hash.
    pub fn update(&mut self, dt: i64)
        requires
            old(self).wf(),
        ensures
            final(self).wf(),
            final(self).fresh(),
            final(self).csize == old(self).csize,
            final(self).speed_limit_k == old(self).speed_limit_k,
            final(self).posbox == old(self).posbox,
            final(self).particles@.len() == old(self).particles@.len(),
            forall|i: int|
                0 <= i < old(self).particles@.len() ==> (#[trigger] final(self).particles@[i])@
                    == integrate_clamp_s(
                    old(self).particles@[i]@,
                    dt as int,
                    fx_mul_s(old(self).speed_limit_k as int, old(self).csize as int),
                    old(self).posbox,
                ),
    {
        let ghost old_self = *old(self);
        let max_dp = fx_mul(self.speed_limit_k, self.csize);
        proof {
            lemma_mul_nonneg(self.speed_limit_k as int, self.csize as int);
        }
        let mut i: usize = 0;
        while i < self.particles.len()
            invariant
                i <= self.particles@.len(),
                self.particles@.len() == old_self.particles@.len(),
                self.csize == old_self.csize,
                self.speed_limit_k == old_self.speed_limit_k,
                self.posbox == old_self.posbox,
                self.id_alloc == old_self.id_alloc,
                self.cells == old_self.cells,
                max_dp >= 0,
                max_dp as int == fx_mul_s(old_self.speed_limit_k as int, old_self.csize as int),
                forall|j: int|
                    0 <= j < i as int ==> (#[trigger] self.particles@[j])@ == integrate_clamp_s(
                        old_self.particles@[j]@,
                        dt as int,
                        max_dp as int,
                        old_self.posbox,
                    ),
                forall|j: int|
                    0 <= j < i as int ==> (#[trigger] self.particles@[j]).id
                        == old_self.particles@[j].id && self.particles@[j].imass
                        == old_self.particles@[j].imass,
                forall|j: int|
                    i as int <= j < self.particles@.len() ==> #[trigger] self.particles@[j]
                        == old_self.particles@[j],
            decreases self.particles@.len() - i,
        {
            let mut q = self.particles[i];
            q.update(dt, max_dp);
            let mut pos = q.get_pos();
            let hit = self.posbox.apply(&mut pos);
            if hit {
                q.reset_pos(pos);
            }
            self.particles[i] = q;
            i += 1;
        }
        // Rebuild the spatial hash from scratch: each particle lands in
        // the bucket of its new position.
        self.cells = Vec::new();
        let ghost parts1 = self.particles@;
        let mut k: usize = 0;
        while k < self.particles.len()
            invariant
                k <= self.particles@.len(),
                self.particles@ == parts1,
                self.particles@.len() == old_self.particles@.len(),
                self.csize == old_self.csize,
                self.speed_limit_k == old_self.speed_limit_k,
                self.posbox == old_self.posbox,
                self.id_alloc == old_self.id_alloc,
                self.csize > 0,
                forall|bi: int|
                    0 <= bi < self.cells@.len() ==> (#[trigger] self.cells@[bi]).ids@.no_duplicates(),
                forall|bi: int|
                    0 <= bi < self.cells@.len() ==> (#[trigger] self.cells@[bi]).ids@.len() > 0,
                forall|bi: int, bj: int|
                    0 <= bi < self.cells@.len() && 0 <= bj < self.cells@.len() && bi != bj ==> !((
                    #[trigger] self.cells@[bi]).cx == (#[trigger] self.cells@[bj]).cx
                        && self.cells@[bi].cy == self.cells@[bj].cy),
                forall|bi: int, bj: int, id2: usize|
                    0 <= bi < self.cells@.len() && 0 <= bj < self.cells@.len() && bi != bj
                        && #[trigger] self.cells@[bi].ids@.contains(id2)
                        ==> !(#[trigger] self.cells@[bj].ids@.contains(id2)),
                forall|id2: usize| (hash_contains(self.cells@, id2) <==> id2 < k),
                forall|bi: int, j: int|
                    0 <= bi < self.cells@.len() && 0 <= j < (#[trigger] self.cells@[bi]).ids@.len()
                        ==> (#[trigger] self.cells@[bi].ids@[j]) < self.particles@.len(),
                forall|bi: int, j: int|
                    0 <= bi < self.cells@.len() && 0 <= j < self.cells@[bi].ids@.len() ==> {
                        let id2 = #[trigger] self.cells@[bi].ids@[j];
                        &&& self.cells@[bi].cx as int == cell_x(
                            self.particles@[id2 as int].pos@,
                            self.csize as int,
                        )
                        &&& self.cells@[bi].cy as int == cell_y(
                            self.particles@[id2 as int].pos@,
                            self.csize as int,
                        )
                    },
            decreases self.particles@.len() - k,
        {
            let pos = self.particles[k].get_pos();
            let (cx, cy) = self.get_cpos(pos);
            let ghost cells_before = self.cells@;
            self.hash_insert(cx, cy, k);
            proof {
                assert forall|bi: int, j: int|
                    0 <= bi < self.cells@.len() && 0 <= j < self.cells@[bi].ids@.len() implies {
                    let id2 = #[trigger] self.cells@[bi].ids@[j];
                    &&& self.cells@[bi].cx as int == cell_x(
                        self.particles@[id2 as int].pos@,
                        self.csize as int,
                    )
                    &&& self.cells@[bi].cy as int == cell_y(
                        self.particles@[id2 as int].pos@,
                        self.csize as int,
                    )
                } by {
                    let id2 = self.cells@[bi].ids@[j];
                    assert(self.cells@[bi].ids@.contains(id2));
                    if id2 != k {
                        assert(hash_contains(self.cells@, id2));
                        assert(hash_contains(cells_before, id2));
                        assert(id2 < k);
                        lemma_member_key(cells_before, self.cells@, bi, j, k, id2);
                    }
                }
                assert forall|id2: usize| hash_contains(self.cells@, id2) implies id2 < k + 1 by {
                    if id2 != k {
                        assert(hash_contains(cells_before, id2));
                    }
                }
                assert forall|id2: usize| id2 < k + 1 implies hash_contains(self.cells@, id2) by {
                    if id2 != k {
                        assert(hash_contains(cells_before, id2));
                    }
                }
                assert forall|bi: int, j: int|
                    0 <= bi < self.cells@.len() && 0 <= j < self.cells@[bi].ids@.len() implies (
                #[trigger] self.cells@[bi].ids@[j]) < self.particles@.len() by {
                    let id2 = self.cells@[bi].ids@[j];
                    assert(self.cells@[bi].ids@.contains(id2));
                    assert(hash_contains(self.cells@, id2));
                    assert(id2 < k + 1);
                }
            }
            k += 1;
        }
        proof {
            assert forall|id2: usize| id2 < self.particles@.len() implies hash_contains(
                self.cells@,
                id2,
            ) by {}
        }
    }

    /// Rendering snapshot: every particle's position, in id order.
    pub fn pr_particles(&self) -> (r: Vec<(usize, PrParticle)>)
        ensures
            r@.len() == self.particles@.len(),
            forall|i: int|
                0 <= i < r@.len() ==> (#[trigger] r@[i]).0 == i && r@[i].1.pos
                    == self.particles@[i].pos,
    {
        let mut r: Vec<(usize, PrParticle)> = Vec::new();
        let mut i: usize = 0;
        while i < self.particles.len()
            invariant
                i <= self.particles@.len(),
                r@.len() == i as int,
                forall|j: int|
                    0 <= j < r@.len() ==> (#[trigger] r@[j]).0 == j && r@[j].1.pos
                        == self.particles@[j].pos,
            decreases self.particles@.len() - i,
        {
            r.push((i, self.particles[i].render()));
            i += 1;
        }
        r
    }

    /// The particle with the given id, if it is live.
    pub fn get_pref(&self, id: usize) -> (r: Option<Particle>)
        ensures
            match r {
                Some(p) => id < self.particles@.len() && p == self.particles@[id as int],
                None => id >= self.particles@.len(),
            },
    {
        if id < self.particles.len() {
            Some(self.particles[id])
        } else {
            None
        }
    }
}

/// The first id of an emitted collision pair.
pub open spec fn coll_a(c: Constraint) -> usize {
    match c {
        Constraint::Distance(d) => d.ps.ids@[0],
        _ => 0,
    }
}

/// The second id of an emitted collision pair.
pub open spec fn coll_b(c: Constraint) -> usize {
    match c {
        Constraint::Distance(d) => d.ps.ids@[1],
        _ => 0,
    }
}

/// One emitted collision constraint: a fresh repulsive distance
/// constraint at rest length `csize` over the ordered pair `(a, b)`.
pub open spec fn is_coll_con(c: Constraint, a: usize, b: usize, csize: i64) -> bool {
    c matches Constraint::Distance(d) && {
        &&& (DistanceConstraint {
            ty: crate::constraint::distance::DistanceConstraintType::Normal,
            ..d
        }).is_fresh(a, b, csize)
        &&& d.ty == crate::constraint::distance::DistanceConstraintType::Repulsive
    }
}

/// The index of `id` inside one bucket's list.
pub open spec fn slot_of(b: Bucket, id: usize) -> int {
    choose|j: int| 0 <= j < b.ids@.len() && b.ids@[j] == id
}

/// Strict lexicographic order on scan positions of the broad phase.
pub open spec fn lex4_lt(
    a0: int,
    a1: int,
    a2: int,
    a3: int,
    b0: int,
    b1: int,
    b2: int,
    b3: int,
) -> bool {
    ||| a0 < b0
    ||| (a0 == b0 && a1 < b1)
    ||| (a0 == b0 && a1 == b1 && a2 < b2)
    ||| (a0 == b0 && a1 == b1 && a2 == b2 && a3 < b3)
}

/// The x part of the offset with index `oi` among the nine neighbour
/// offsets.
pub open spec fn offset_dx(oi: int) -> int {
    oi / 3 - 1
}

/// The y part of the offset with index `oi`.
pub open spec fn offset_dy(oi: int) -> int {
    oi % 3 - 1
}

/// The neighbour offset with a given index.
fn offset_of(oi: usize) -> (r: (i64, i64))
    requires
        oi < 9,
    ensures
        r.0 as int == offset_dx(oi as int),
        r.1 as int == offset_dy(oi as int),
        -1 <= r.0 <= 1,
        -1 <= r.1 <= 1,
{
    ((oi / 3) as i64 - 1, (oi % 3) as i64 - 1)
}

impl ParticleGroup {
    /// The unique scan position at which the broad phase can emit the
    /// pair `(a, b)`: the bucket of `a`, the offset index from `a`'s
    /// cell to `b`'s cell, and the slots of `a` and `b` in their
    /// buckets.
    pub open spec fn kappa0(self, c: Constraint) -> int {
        bucket_of(self.cells@, coll_a(c))
    }

    /// See `kappa0`: the offset index.
    pub open spec fn kappa1(self, c: Constraint) -> int {
        let ba = bucket_of(self.cells@, coll_a(c));
        let bb = bucket_of(self.cells@, coll_b(c));
        (self.cells@[bb].cx - self.cells@[ba].cx + 1) * 3 + (self.cells@[bb].cy - self.cells@[ba].cy
            + 1)
    }

    /// See `kappa0`: the slot of the first id.
    pub open spec fn kappa2(self, c: Constraint) -> int {
        slot_of(self.cells@[bucket_of(self.cells@, coll_a(c))], coll_a(c))
    }

    /// See `kappa0`: the slot of the second id.
    pub open spec fn kappa3(self, c: Constraint) -> int {
        slot_of(self.cells@[bucket_of(self.cells@, coll_b(c))], coll_b(c))
    }

    /// Emitted constraints so far are sound: fresh repulsive pairs at
    /// rest length `csize`, ordered, live, and within distance `csize`.
    pub open spec fn coll_sound(self, res: Seq<Constraint>) -> bool {
        forall|i: int|
            0 <= i < res.len() ==> {
                let a = coll_a(#[trigger] res[i]);
                let b = coll_b(res[i]);
                &&& is_coll_con(res[i], a, b, self.csize)
                &&& a < b
                &&& (b as int) < self.particles@.len()
                &&& v2_mag_s(
                    v2_sub_s(self.particles@[a as int].pos@, self.particles@[b as int].pos@),
                ) <= self.csize as int
            }
    }

    /// No unordered pair appears twice in the output.
    pub open spec fn coll_unique(self, res: Seq<Constraint>) -> bool {
        forall|i: int, j: int|
            0 <= i < j < res.len() ==> !(coll_a(#[trigger] res[i]) == coll_a(#[trigger] res[j])
                && coll_b(res[i]) == coll_b(res[j]))
    }

    /// Every emitted constraint's scan position lies strictly before
    /// the given position.
    pub open spec fn coll_before(
        self,
        res: Seq<Constraint>,
        p0: int,
        p1: int,
        p2: int,
        p3: int,
    ) -> bool {
        forall|i: int|
            0 <= i < res.len() ==> lex4_lt(
                self.kappa0(#[trigger] res[i]),
                self.kappa1(res[i]),
                self.kappa2(res[i]),
                self.kappa3(res[i]),
                p0,
                p1,
                p2,
                p3,
            )
    }

    /// The bucket holding a member is the unique one found by
    /// `bucket_of`.
    proof fn lemma_bucket_of_eq(self, bi: int, id: usize)
        requires
            self.wf(),
            0 <= bi < self.cells@.len(),
            self.cells@[bi].ids@.contains(id),
        ensures
            bucket_of(self.cells@, id) == bi,
            hash_contains(self.cells@, id),
    {
        assert(hash_contains(self.cells@, id));
        let bk = bucket_of(self.cells@, id);
        assert(self.cells@[bk].ids@.contains(id));
        if bk != bi {
            assert(false);
        }
    }

    /// The slot of a member in a duplicate-free bucket is unique.
    proof fn lemma_slot_of_eq(b: Bucket, j: int, id: usize)
        requires
            b.ids@.no_duplicates(),
            0 <= j < b.ids@.len(),
            b.ids@[j] == id,
        ensures
            slot_of(b, id) == j,
    {
        assert(b.ids@.contains(id));
        let j2 = slot_of(b, id);
        assert(0 <= j2 < b.ids@.len() && b.ids@[j2] == id);
    }

    /// Generate one repulsive collision constraint for every pair of
    /// distinct particles in neighbouring cells whose distance does not
    /// exceed the cell size.  No unordered pair is emitted twice, and
    /// under a fresh hash no qualifying pair is missed.
    #[verifier::rlimit(100)]
    pub fn collision_constraints(&self) -> (res: Vec<Constraint>)
        requires
            self.wf(),
        ensures
            self.coll_sound(res@),
            self.coll_unique(res@),
            forall|i: int| 0 <= i < res@.len() ==> (#[trigger] res@[i]).wf(),
            forall|i: int|
                0 <= i < res@.len() ==> (#[trigger] res@[i]).ids_in(self.particles@.len() as nat),
            self.fresh() ==> forall|a: usize, b: usize|
                #[trigger] self.cand(a, b) ==> Self::emitted(res@, a, b),
    {
        let ghost n = self.particles@.len();
        let mut res: Vec<Constraint> = Vec::new();
        proof {
            if self.fresh() {
                assert forall|a: usize, b: usize|
                    #[trigger] self.cand(a, b) && !Self::emitted(res@, a, b) implies !lex4_lt(
                    self.kp0(a),
                    self.kp1(a, b),
                    self.kp2(a),
                    self.kp3(b),
                    0,
                    0,
                    0,
                    0,
                ) by {
                    self.lemma_kappa_props(a, b);
                }
            }
        }
        let mut bi: usize = 0;
        while bi < self.cells.len()
            invariant
                self.wf(),
                bi <= self.cells@.len(),
                self.coll_sound(res@),
                self.coll_unique(res@),
                self.coll_before(res@, bi as int, 0, 0, 0),
                self.fresh() ==> self.coll_missing_ge(res@, bi as int, 0, 0, 0),
            decreases self.cells@.len() - bi,
        {
            let cx = self.cells[bi].cx;
            let cy = self.cells[bi].cy;
            let mut oi: usize = 0;
            while oi < 9
                invariant
                    self.wf(),
                    bi < self.cells@.len(),
                    cx == self.cells@[bi as int].cx,
                    cy == self.cells@[bi as int].cy,
                    oi <= 9,
                    self.coll_sound(res@),
                    self.coll_unique(res@),
                    self.coll_before(res@, bi as int, oi as int, 0, 0),
                    self.fresh() ==> self.coll_missing_ge(res@, bi as int, oi as int, 0, 0),
                decreases 9 - oi,
            {
                let (dx, dy) = offset_of(oi);
                let skip = (dx == -1 && cx == i64::MIN) || (dx == 1 && cx == i64::MAX) || (dy == -1
                    && cy == i64::MIN) || (dy == 1 && cy == i64::MAX);
                if !skip {
                    let cx2 = cx + dx;
                    let cy2 = cy + dy;
                    match self.bucket_index(cx2, cy2) {
                        Some(bj) => {
                            let mut j1: usize = 0;
                            while j1 < self.cells[bi].ids.len()
                                invariant
                                    self.wf(),
                                    bi < self.cells@.len(),
                                    bj < self.cells@.len(),
                                    cx == self.cells@[bi as int].cx,
                                    cy == self.cells@[bi as int].cy,
                                    self.cells@[bj as int].cx as int == cx + offset_dx(oi as int),
                                    self.cells@[bj as int].cy as int == cy + offset_dy(oi as int),
                                    oi < 9,
                                    j1 <= self.cells@[bi as int].ids@.len(),
                                    self.coll_sound(res@),
                                    self.coll_unique(res@),
                                    self.coll_before(res@, bi as int, oi as int, j1 as int, 0),
                                    self.fresh() ==> self.coll_missing_ge(
                                        res@,
                                        bi as int,
                                        oi as int,
                                        j1 as int,
                                        0,
                                    ),
                                decreases self.cells@[bi as int].ids@.len() - j1,
                            {
                                let a = self.cells[bi].ids[j1];
                                let mut j2: usize = 0;
                                while j2 < self.cells[bj].ids.len()
                                    invariant
                                        self.wf(),
                                        bi < self.cells@.len(),
                                        bj < self.cells@.len(),
                                        cx == self.cells@[bi as int].cx,
                                        cy == self.cells@[bi as int].cy,
                                        self.cells@[bj as int].cx as int == cx + offset_dx(
                                            oi as int,
                                        ),
                                        self.cells@[bj as int].cy as int == cy + offset_dy(
                                            oi as int,
                                        ),
                                        oi < 9,
                                        j1 < self.cells@[bi as int].ids@.len(),
                                        a == self.cells@[bi as int].ids@[j1 as int],
                                        j2 <= self.cells@[bj as int].ids@.len(),
                                        self.coll_sound(res@),
                                        self.coll_unique(res@),
                                        self.coll_before(
                                            res@,
                                            bi as int,
                                            oi as int,
                                            j1 as int,
                                            j2 as int,
                                        ),
                                        self.fresh() ==> self.coll_missing_ge(
                                            res@,
                                            bi as int,
                                            oi as int,
                                            j1 as int,
                                            j2 as int,
                                        ),
                                    decreases self.cells@[bj as int].ids@.len() - j2,
                                {
                                    let ghost res0 = res@;
                                    let b = self.cells[bj].ids[j2];
                                    let mut pushed = false;
                                    if a < b {
                                        let pa = self.particles[a].get_pos();
                                        let pb = self.particles[b].get_pos();
                                        let dl = crate::vec2::v2_mag(crate::vec2::v2_sub(pa, pb));
                                        if dl <= self.csize {
                                            let con = DistanceConstraint::new_with_l0(
                                                a,
                                                b,
                                                self.csize,
                                            ).repulsive_only().build();
                                            proof {
                                                self.lemma_bucket_of_eq(bi as int, a);
                                                self.lemma_bucket_of_eq(bj as int, b);
                                                Self::lemma_slot_of_eq(
                                                    self.cells@[bi as int],
                                                    j1 as int,
                                                    a,
                                                );
                                                Self::lemma_slot_of_eq(
                                                    self.cells@[bj as int],
                                                    j2 as int,
                                                    b,
                                                );
                                                lemma_fundamental_div_mod(oi as int, 3);
                                                assert(self.kappa0(con) == bi as int);
                                                assert(self.kappa1(con) == oi as int);
                                                assert(self.kappa2(con) == j1 as int);
                                                assert(self.kappa3(con) == j2 as int);
                                                lemma_emitted_push(res@, con);
                                            }
                                            let ghost cong = con;
                                            let ghost res_pre = res@;
                                            res.push(con);
                                            pushed = true;
                                            proof {
                                                assert(res@ == res_pre.push(cong));
                                                assert(res@[res@.len() - 1] == cong);
                                                assert(coll_a(cong) == a && coll_b(cong) == b);
                                                assert(Self::emitted(res@, a, b));
                                            }
                                        }
                                    }
                                    proof {
                                        if self.fresh() {
                                            assert forall|a2: usize, b2: usize|
                                                #[trigger] self.cand(a2, b2) && !Self::emitted(
                                                    res@,
                                                    a2,
                                                    b2,
                                                ) implies !lex4_lt(
                                                self.kp0(a2),
                                                self.kp1(a2, b2),
                                                self.kp2(a2),
                                                self.kp3(b2),
                                                bi as int,
                                                oi as int,
                                                j1 as int,
                                                j2 as int + 1,
                                            ) by {
                                                assert(!Self::emitted(res0, a2, b2));
                                                assert(!lex4_lt(
                                                    self.kp0(a2),
                                                    self.kp1(a2, b2),
                                                    self.kp2(a2),
                                                    self.kp3(b2),
                                                    bi as int,
                                                    oi as int,
                                                    j1 as int,
                                                    j2 as int,
                                                ));
                                                if lex4_lt(
                                                    self.kp0(a2),
                                                    self.kp1(a2, b2),
                                                    self.kp2(a2),
                                                    self.kp3(b2),
                                                    bi as int,
                                                    oi as int,
                                                    j1 as int,
                                                    j2 as int + 1,
                                                ) {
                                                    self.lemma_kappa_props(a2, b2);
                                                    assert(self.kp0(a2) == bi as int && self.kp1(
                                                        a2,
                                                        b2,
                                                    ) == oi as int && self.kp2(a2) == j1 as int
                                                        && self.kp3(b2) == j2 as int);
                                                    self.lemma_kappa_at(
                                                        a2,
                                                        b2,
                                                        bi as int,
                                                        oi as int,
                                                        bj as int,
                                                    );
                                                    assert(a2 == a && b2 == b);
                                                    lemma_close_filter(
                                                        self.particles@[a2 as int].pos@,
                                                        self.particles@[b2 as int].pos@,
                                                        self.csize as int,
                                                    );
                                                    assert(pushed);
                                                    assert(Self::emitted(res@, a2, b2));
                                                }
                                            }
                                        }
                                    }
                                    j2 += 1;
                                }
                                proof {
                                    if self.fresh() {
                                        lemma_lex_step_slot1(
                                            *self,
                                            res@,
                                            bi as int,
                                            oi as int,
                                            j1 as int,
                                            bj as int,
                                        );
                                    }
                                }
                                j1 += 1;
                            }
                            proof {
                                if self.fresh() {
                                    lemma_lex_step_offset_scanned(
                                        *self,
                                        res@,
                                        bi as int,
                                        oi as int,
                                        bj as int,
                                    );
                                }
                            }
                        },
                        None => {
                            proof {
                                if self.fresh() {
                                    assert forall|a2: usize, b2: usize|
                                        #[trigger] self.cand(a2, b2) && !Self::emitted(
                                            res@,
                                            a2,
                                            b2,
                                        ) implies !lex4_lt(
                                        self.kp0(a2),
                                        self.kp1(a2, b2),
                                        self.kp2(a2),
                                        self.kp3(b2),
                                        bi as int,
                                        oi as int + 1,
                                        0,
                                        0,
                                    ) by {
                                        if lex4_lt(
                                            self.kp0(a2),
                                            self.kp1(a2, b2),
                                            self.kp2(a2),
                                            self.kp3(b2),
                                            bi as int,
                                            oi as int + 1,
                                            0,
                                            0,
                                        ) {
                                            self.lemma_kappa_props(a2, b2);
                                            assert(self.kp0(a2) == bi as int && self.kp1(a2, b2)
                                                == oi as int);
                                            self.lemma_kappa_key(a2, b2, bi as int, oi as int);
                                            let bb = bucket_of(self.cells@, b2);
                                            assert(self.cells@[bb].cx == cx2 && self.cells@[bb].cy
                                                == cy2);
                                        }
                                    }
                                }
                            }
                        },
                    }
                } else {
                    proof {
                        if self.fresh() {
                            assert forall|a2: usize, b2: usize|
                                #[trigger] self.cand(a2, b2) && !Self::emitted(
                                    res@,
                                    a2,
                                    b2,
                                ) implies !lex4_lt(
                                self.kp0(a2),
                                self.kp1(a2, b2),
                                self.kp2(a2),
                                self.kp3(b2),
                                bi as int,
                                oi as int + 1,
                                0,
                                0,
                            ) by {
                                if lex4_lt(
                                    self.kp0(a2),
                                    self.kp1(a2, b2),
                                    self.kp2(a2),
                                    self.kp3(b2),
                                    bi as int,
                                    oi as int + 1,
                                    0,
                                    0,
                                ) {
                                    self.lemma_kappa_props(a2, b2);
                                    assert(self.kp0(a2) == bi as int && self.kp1(a2, b2)
                                        == oi as int);
                                    self.lemma_kappa_key(a2, b2, bi as int, oi as int);
                                }
                            }
                        }
                    }
                }
                oi += 1;
            }
            proof {
                if self.fresh() {
                    assert forall|a2: usize, b2: usize|
                        #[trigger] self.cand(a2, b2) && !Self::emitted(res@, a2, b2) implies !lex4_lt(
                        self.kp0(a2),
                        self.kp1(a2, b2),
                        self.kp2(a2),
                        self.kp3(b2),
                        bi as int + 1,
                        0,
                        0,
                        0,
                    ) by {
                        if lex4_lt(
                            self.kp0(a2),
                            self.kp1(a2, b2),
                            self.kp2(a2),
                            self.kp3(b2),
                            bi as int + 1,
                            0,
                            0,
                            0,
                        ) {
                            self.lemma_kappa_props(a2, b2);
                            assert(self.kp0(a2) == bi as int && self.kp1(a2, b2) >= 9);
                        }
                    }
                }
            }
            bi += 1;
        }
        proof {
            if self.fresh() {
                assert forall|a: usize, b: usize| #[trigger] self.cand(a, b) implies Self::emitted(
                    res@,
                    a,
                    b,
                ) by {
                    if !Self::emitted(res@, a, b) {
                        self.lemma_kappa_props(a, b);
                        assert(!lex4_lt(
                            self.kp0(a),
                            self.kp1(a, b),
                            self.kp2(a),
                            self.kp3(b),
                            self.cells@.len() as int,
                            0,
                            0,
                            0,
                        ));
                        assert(self.kp0(a) < self.cells@.len());
                    }
                }
            }
        }
        res
    }
}

/// The scan position may pass from the end of one inner row to the
/// start of the next: nothing lies strictly between them.
proof fn lemma_lex_step_slot1(
    pg: ParticleGroup,
    res: Seq<Constraint>,
    bi: int,
    oi: int,
    j1: int,
    bj: int,
)
    requires
        pg.wf(),
        pg.fresh(),
        0 <= bi < pg.cells@.len(),
        0 <= bj < pg.cells@.len(),
        0 <= oi < 9,
        pg.cells@[bj].cx as int == pg.cells@[bi].cx + offset_dx(oi),
        pg.cells@[bj].cy as int == pg.cells@[bi].cy + offset_dy(oi),
        pg.coll_missing_ge(res, bi, oi, j1, pg.cells@[bj].ids@.len() as int),
    ensures
        pg.coll_missing_ge(res, bi, oi, j1 + 1, 0),
{
    assert forall|a2: usize, b2: usize|
        #[trigger] pg.cand(a2, b2) && !ParticleGroup::emitted(res, a2, b2) implies !lex4_lt(
        pg.kp0(a2),
        pg.kp1(a2, b2),
        pg.kp2(a2),
        pg.kp3(b2),
        bi,
        oi,
        j1 + 1,
        0,
    ) by {
        if lex4_lt(pg.kp0(a2), pg.kp1(a2, b2), pg.kp2(a2), pg.kp3(b2), bi, oi, j1 + 1, 0) {
            pg.lemma_kappa_props(a2, b2);
            assert(pg.kp0(a2) == bi && pg.kp1(a2, b2) == oi && pg.kp2(a2) == j1 && pg.kp3(b2)
                >= pg.cells@[bj].ids@.len());
            pg.lemma_kappa_at(a2, b2, bi, oi, bj);
        }
    }
}

/// After the whole bucket row is scanned, the position may pass to the
/// next offset.
proof fn lemma_lex_step_offset_scanned(
    pg: ParticleGroup,
    res: Seq<Constraint>,
    bi: int,
    oi: int,
    bj: int,
)
    requires
        pg.wf(),
        pg.fresh(),
        0 <= bi < pg.cells@.len(),
        0 <= bj < pg.cells@.len(),
        0 <= oi < 9,
        pg.cells@[bj].cx as int == pg.cells@[bi].cx + offset_dx(oi),
        pg.cells@[bj].cy as int == pg.cells@[bi].cy + offset_dy(oi),
        pg.coll_missing_ge(res, bi, oi, pg.cells@[bi].ids@.len() as int, 0),
    ensures
        pg.coll_missing_ge(res, bi, oi + 1, 0, 0),
{
    assert forall|a2: usize, b2: usize|
        #[trigger] pg.cand(a2, b2) && !ParticleGroup::emitted(res, a2, b2) implies !lex4_lt(
        pg.kp0(a2),
        pg.kp1(a2, b2),
        pg.kp2(a2),
        pg.kp3(b2),
        bi,
        oi + 1,
        0,
        0,
    ) by {
        if lex4_lt(pg.kp0(a2), pg.kp1(a2, b2), pg.kp2(a2), pg.kp3(b2), bi, oi + 1, 0, 0) {
            pg.lemma_kappa_props(a2, b2);
            assert(pg.kp0(a2) == bi && pg.kp1(a2, b2) == oi && pg.kp2(a2)
                >= pg.cells@[bi].ids@.len());
            pg.lemma_kappa_at(a2, b2, bi, oi, bj);
        }
    }
}

/// Floors distribute sub-additively over a sum of non-negatives.
proof fn lemma_floor_sum(p: int, q: int, s: int)
    requires
        p >= 0,
        q >= 0,
        s > 0,
    ensures
        p / s + q / s <= (p + q) / s,
{
    lemma_fundamental_div_mod(p, s);
    lemma_fundamental_div_mod(q, s);
    let qp = p / s;
    let qq = q / s;
    assert(p + q >= s * (qp + qq)) by (nonlinear_arith)
        requires
            p == s * qp + p % s,
            q == s * qq + q % s,
            p % s >= 0,
            q % s >= 0,
    ;
    vstd::arithmetic::div_mod::lemma_div_multiples_vanish(qp + qq, s);
    vstd::arithmetic::div_mod::lemma_div_is_ordered(s * (qp + qq), p + q, s);
}

/// A pair within true Euclidean distance `c` also passes the
/// fixed-point distance filter: rounding in the filter only ever
/// rounds the measured length down.
proof fn lemma_close_filter(pa: V2i, pb: V2i, c: int)
    requires
        i64::MIN <= pa.x <= i64::MAX,
        i64::MIN <= pa.y <= i64::MAX,
        i64::MIN <= pb.x <= i64::MAX,
        i64::MIN <= pb.y <= i64::MAX,
        0 < c <= i64::MAX,
        (pa.x - pb.x) * (pa.x - pb.x) + (pa.y - pb.y) * (pa.y - pb.y) <= c * c,
    ensures
        v2_mag_s(v2_sub_s(pa, pb)) <= c,
{
    let s = FX_ONE as int;
    let dx = pa.x - pb.x;
    let dy = pa.y - pb.y;
    assert(dx * dx >= 0 && dy * dy >= 0) by (nonlinear_arith);
    assert(absi(dx) <= c && absi(dy) <= c) by (nonlinear_arith)
        requires
            dx * dx + dy * dy <= c * c,
            dx * dx >= 0,
            dy * dy >= 0,
            c > 0,
    ;
    let sub = v2_sub_s(pa, pb);
    assert(sub.x == dx && sub.y == dy);
    let q1 = crate::fixed::fx_mul_s(dx, dx);
    let q2 = crate::fixed::fx_mul_s(dy, dy);
    assert(0 <= q1 <= (dx * dx) / s && 0 <= q2 <= (dy * dy) / s) by {
        assert(q_tz(dx * dx, s) == absi(dx * dx) / absi(s));
        assert(q_tz(dy * dy, s) == absi(dy * dy) / absi(s));
        vstd::arithmetic::div_mod::lemma_div_pos_is_pos(dx * dx, s);
        vstd::arithmetic::div_mod::lemma_div_pos_is_pos(dy * dy, s);
    }
    lemma_floor_sum(dx * dx, dy * dy, s);
    vstd::arithmetic::div_mod::lemma_div_is_ordered(dx * dx + dy * dy, c * c, s);
    assert(q1 + q2 <= (c * c) / s);
    let m = sat64(q1 + q2);
    assert(m >= 0);
    assert(m <= q1 + q2);
    assert(m * s <= c * c) by {
        lemma_fundamental_div_mod(c * c, s);
        assert(m <= (c * c) / s);
        assert(m * s <= ((c * c) / s) * s) by (nonlinear_arith)
            requires
                m <= (c * c) / s,
                s > 0,
        ;
        assert(((c * c) / s) * s <= c * c) by (nonlinear_arith)
            requires
                c * c == s * ((c * c) / s) + (c * c) % s,
                (c * c) % s >= 0,
        ;
    }
    assert(mag_sq_s(sub) == m);
    lemma_isqrt(m * s);
    let r = crate::fixed::isqrt_spec(m * s);
    assert(r * r <= m * s);
    assert(r <= c) by (nonlinear_arith)
        requires
            r >= 0,
            c > 0,
            r * r <= m * s,
            m * s <= c * c,
    ;
}

/// Positions within distance `c` of each other sit in the same or an
/// adjacent cell of the size-`c` grid.
proof fn lemma_cell_adjacent(u: int, v: int, c: int)
    requires
        c > 0,
        absi(u - v) <= c,
    ensures
        v / c - 1 <= u / c <= v / c + 1,
{
    vstd::arithmetic::div_mod::lemma_div_is_ordered(u, v + c, c);
    vstd::arithmetic::div_mod::lemma_div_is_ordered(v - c, u, c);
    vstd::arithmetic::div_mod::lemma_div_plus_one(v, c);
    vstd::arithmetic::div_mod::lemma_div_minus_one(v, c);
}

impl ParticleGroup {
    /// The true squared distance between two live particles does not
    /// exceed the squared cell size.
    pub open spec fn close_pair(self, a: usize, b: usize) -> bool {
        let pa = self.particles@[a as int].pos@;
        let pb = self.particles@[b as int].pos@;
        (pa.x - pb.x) * (pa.x - pb.x) + (pa.y - pb.y) * (pa.y - pb.y) <= (self.csize as int) * (
        self.csize as int)
    }

    /// The ordered pair `(a, b)` appears in the output.
    pub open spec fn emitted(res: Seq<Constraint>, a: usize, b: usize) -> bool {
        exists|i: int|
            0 <= i < res.len() && coll_a(#[trigger] res[i]) == a && coll_b(res[i]) == b
    }

    /// A valid candidate of the broad phase under a fresh hash.
    pub open spec fn cand(self, a: usize, b: usize) -> bool {
        &&& a < b
        &&& (b as int) < self.particles@.len()
        &&& self.close_pair(a, b)
    }

    /// All scan-position components of a candidate pair, grounded.
    proof fn lemma_kappa_props(self, a: usize, b: usize)
        requires
            self.wf(),
            self.fresh(),
            self.cand(a, b),
        ensures
            ({
                let ba = bucket_of(self.cells@, a);
                let bb = bucket_of(self.cells@, b);
                &&& 0 <= ba < self.cells@.len()
                &&& 0 <= bb < self.cells@.len()
                &&& self.cells@[ba].ids@.contains(a)
                &&& self.cells@[bb].ids@.contains(b)
                &&& 0 <= slot_of(self.cells@[ba], a) < self.cells@[ba].ids@.len()
                &&& self.cells@[ba].ids@[slot_of(self.cells@[ba], a)] == a
                &&& 0 <= slot_of(self.cells@[bb], b) < self.cells@[bb].ids@.len()
                &&& self.cells@[bb].ids@[slot_of(self.cells@[bb], b)] == b
                &&& self.cells@[ba].cx - 1 <= self.cells@[bb].cx <= self.cells@[ba].cx + 1
                &&& self.cells@[ba].cy - 1 <= self.cells@[bb].cy <= self.cells@[ba].cy + 1
                &&& forall|bi: int|
                    0 <= bi < self.cells@.len() && (#[trigger] self.cells@[bi]).ids@.contains(a)
                        ==> bi == ba
                &&& forall|bi: int|
                    0 <= bi < self.cells@.len() && (#[trigger] self.cells@[bi]).ids@.contains(b)
                        ==> bi == bb
            }),
    {
        assert(hash_contains(self.cells@, a));
        assert(hash_contains(self.cells@, b));
        let ba = bucket_of(self.cells@, a);
        let bb = bucket_of(self.cells@, b);
        assert(self.cells@[ba].ids@.contains(a));
        assert(self.cells@[bb].ids@.contains(b));
        let ja = choose|j: int| 0 <= j < self.cells@[ba].ids@.len() && self.cells@[ba].ids@[j] == a;
        let jb = choose|j: int| 0 <= j < self.cells@[bb].ids@.len() && self.cells@[bb].ids@[j] == b;
        assert(self.cells@[ba].ids@[ja] == a);
        assert(self.cells@[bb].ids@[jb] == b);
        let pa = self.particles@[a as int].pos@;
        let pb = self.particles@[b as int].pos@;
        let c = self.csize as int;
        assert((pa.x - pb.x) * (pa.x - pb.x) >= 0) by (nonlinear_arith);
        assert((pa.y - pb.y) * (pa.y - pb.y) >= 0) by (nonlinear_arith);
        assert(absi(pa.x - pb.x) <= c && absi(pa.y - pb.y) <= c) by (nonlinear_arith)
            requires
                (pa.x - pb.x) * (pa.x - pb.x) + (pa.y - pb.y) * (pa.y - pb.y) <= c * c,
                (pa.x - pb.x) * (pa.x - pb.x) >= 0,
                (pa.y - pb.y) * (pa.y - pb.y) >= 0,
                c > 0,
        ;
        lemma_cell_adjacent(pb.x, pa.x, c);
        lemma_cell_adjacent(pb.y, pa.y, c);
        assert(self.cells@[ba].cx as int == pa.x / c);
        assert(self.cells@[ba].cy as int == pa.y / c);
        assert(self.cells@[bb].cx as int == pb.x / c);
        assert(self.cells@[bb].cy as int == pb.y / c);
    }
}

impl ParticleGroup {
    /// Scan-position components of a candidate pair: the bucket of
    /// `a`, the offset index from `a`'s cell to `b`'s cell, and the
    /// slots of `a` and `b` in their buckets.
    pub open spec fn kp0(self, a: usize) -> int {
        bucket_of(self.cells@, a)
    }

    /// See `kp0`.
    pub open spec fn kp1(self, a: usize, b: usize) -> int {
        let ba = bucket_of(self.cells@, a);
        let bb = bucket_of(self.cells@, b);
        (self.cells@[bb].cx - self.cells@[ba].cx + 1) * 3 + (self.cells@[bb].cy - self.cells@[ba].cy
            + 1)
    }

    /// See `kp0`.
    pub open spec fn kp2(self, a: usize) -> int {
        slot_of(self.cells@[bucket_of(self.cells@, a)], a)
    }

    /// See `kp0`.
    pub open spec fn kp3(self, b: usize) -> int {
        slot_of(self.cells@[bucket_of(self.cells@, b)], b)
    }

    /// Every candidate pair not yet emitted still lies at or after the
    /// given scan position.
    pub open spec fn coll_missing_ge(
        self,
        res: Seq<Constraint>,
        p0: int,
        p1: int,
        p2: int,
        p3: int,
    ) -> bool {
        forall|a: usize, b: usize|
            #[trigger] self.cand(a, b) && !Self::emitted(res, a, b) ==> !lex4_lt(
                self.kp0(a),
                self.kp1(a, b),
                self.kp2(a),
                self.kp3(b),
                p0,
                p1,
                p2,
                p3,
            )
    }

    /// A candidate pair whose scan offset is `oi` has `b` in the
    /// bucket whose key is `a`'s key shifted by the offset.
    proof fn lemma_kappa_key(self, a: usize, b: usize, bi: int, oi: int)
        requires
            self.wf(),
            self.fresh(),
            self.cand(a, b),
            0 <= bi < self.cells@.len(),
            0 <= oi < 9,
            self.kp0(a) == bi,
            self.kp1(a, b) == oi,
        ensures
            ({
                let bb = bucket_of(self.cells@, b);
                &&& 0 <= bb < self.cells@.len()
                &&& self.cells@[bb].cx as int == self.cells@[bi].cx + offset_dx(oi)
                &&& self.cells@[bb].cy as int == self.cells@[bi].cy + offset_dy(oi)
            }),
    {
        self.lemma_kappa_props(a, b);
        let bb = bucket_of(self.cells@, b);
        let u = self.cells@[bb].cx - self.cells@[bi].cx + 1;
        let v = self.cells@[bb].cy - self.cells@[bi].cy + 1;
        assert(0 <= u <= 2 && 0 <= v <= 2);
        assert(oi == u * 3 + v);
        lemma_fundamental_div_mod_converse(oi, 3, u, v);
        assert(u == oi / 3 && v == oi % 3);
    }

    /// A candidate pair at an exact scan position is exactly the pair
    /// the scan reads there.
    proof fn lemma_kappa_at(self, a: usize, b: usize, bi: int, oi: int, bj: int)
        requires
            self.wf(),
            self.fresh(),
            self.cand(a, b),
            0 <= bi < self.cells@.len(),
            0 <= bj < self.cells@.len(),
            0 <= oi < 9,
            self.cells@[bj].cx as int == self.cells@[bi].cx + offset_dx(oi),
            self.cells@[bj].cy as int == self.cells@[bi].cy + offset_dy(oi),
            self.kp0(a) == bi,
            self.kp1(a, b) == oi,
        ensures
            bucket_of(self.cells@, b) == bj,
            0 <= self.kp2(a) < self.cells@[bi].ids@.len(),
            self.cells@[bi].ids@[self.kp2(a)] == a,
            0 <= self.kp3(b) < self.cells@[bj].ids@.len(),
            self.cells@[bj].ids@[self.kp3(b)] == b,
    {
        self.lemma_kappa_props(a, b);
        self.lemma_kappa_key(a, b, bi, oi);
        let bb = bucket_of(self.cells@, b);
        if bb != bj {
            assert(!(self.cells@[bb].cx == self.cells@[bj].cx && self.cells@[bb].cy
                == self.cells@[bj].cy));
        }
        let ja = choose|j: int| 0 <= j < self.cells@[bi].ids@.len() && self.cells@[bi].ids@[j] == a;
        Self::lemma_slot_of_eq(self.cells@[bi], ja, a);
        let jb = choose|j: int| 0 <= j < self.cells@[bj].ids@.len() && self.cells@[bj].ids@[j] == b;
        Self::lemma_slot_of_eq(self.cells@[bj], jb, b);
    }
}

/// Pushing a constraint keeps every pair already emitted, and adds
/// exactly its own pair.
proof fn lemma_emitted_push(res: Seq<Constraint>, c: Constraint)
    ensures
        forall|a: usize, b: usize|
            #[trigger] ParticleGroup::emitted(res, a, b) ==> ParticleGroup::emitted(
                res.push(c),
                a,
                b,
            ),
        forall|a: usize, b: usize|
            #[trigger] ParticleGroup::emitted(res.push(c), a, b) ==> ParticleGroup::emitted(
                res,
                a,
                b,
            ) || (coll_a(c) == a && coll_b(c) == b),
{
    assert forall|a: usize, b: usize|
        #[trigger] ParticleGroup::emitted(res, a, b) implies ParticleGroup::emitted(
        res.push(c),
        a,
        b,
    ) by {
        let i = choose|i: int|
            0 <= i < res.len() && coll_a(#[trigger] res[i]) == a && coll_b(res[i]) == b;
        assert(res.push(c)[i] == res[i]);
        assert(coll_a(res.push(c)[i]) == a && coll_b(res.push(c)[i]) == b);
    }
    assert forall|a: usize, b: usize|
        #[trigger] ParticleGroup::emitted(res.push(c), a, b) implies ParticleGroup::emitted(
        res,
        a,
        b,
    ) || (coll_a(c) == a && coll_b(c) == b) by {
        let i = choose|i: int|
            0 <= i < res.push(c).len() && coll_a(#[trigger] res.push(c)[i]) == a && coll_b(
                res.push(c)[i],
            ) == b;
        if i < res.len() {
            assert(res[i] == res.push(c)[i]);
        }
    }
}

impl Default for ParticleGroup {
    /// Empty group: cell size 0.08, velocity-limit factor 1, bounding
    /// box (-1000, 1000) on both axes, all in fixed point.
    fn default() -> (r: ParticleGroup)
        ensures
            r.wf(),
            r.fresh(),
            r.particles@.len() == 0,
            r.cells@.len() == 0,
            r.csize == 80_000_000i64,
            r.speed_limit_k == FX_ONE,
            r.posbox == (Posbox {
                xmin: -1_000_000_000_000i64,
                xmax: 1_000_000_000_000i64,
                ymin: -1_000_000_000_000i64,
                ymax: 1_000_000_000_000i64,
            }),
    {
        ParticleGroup {
            id_alloc: 0,
            csize: 80_000_000,
            speed_limit_k: FX_ONE,
            posbox: Posbox {
                xmin: -1_000_000_000_000,
                xmax: 1_000_000_000_000,
                ymin: -1_000_000_000_000,
                ymax: 1_000_000_000_000,
            },
            particles: Vec::new(),
            cells: Vec::new(),
        }
    }
}

/// A membership surviving `hash_insert` keeps the key it had before.
proof fn lemma_member_key(
    cells0: Seq<Bucket>,
    cells1: Seq<Bucket>,
    bi: int,
    j: int,
    id: usize,
    id2: usize,
)
    requires
        0 <= bi < cells1.len(),
        0 <= j < cells1[bi].ids@.len(),
        cells1[bi].ids@[j] == id2,
        id2 != id,
        forall|bk: int, j2: int|
            0 <= bk < cells1.len() && 0 <= j2 < cells1[bk].ids@.len() ==> {
                let id3 = #[trigger] cells1[bk].ids@[j2];
                id3 == id || exists|bm: int, jm: int|
                    {
                        &&& 0 <= bm < cells0.len()
                        &&& 0 <= jm < cells0[bm].ids@.len()
                        &&& #[trigger] cells0[bm].ids@[jm] == id3
                        &&& cells0[bm].cx == cells1[bk].cx
                        &&& cells0[bm].cy == cells1[bk].cy
                    }
            },
    ensures
        exists|bm: int, jm: int|
            {
                &&& 0 <= bm < cells0.len()
                &&& 0 <= jm < cells0[bm].ids@.len()
                &&& #[trigger] cells0[bm].ids@[jm] == id2
                &&& cells0[bm].cx == cells1[bi].cx
                &&& cells0[bm].cy == cells1[bi].cy
            },
{
}

/// The relation of one whole integration pass
/// (`ParticleGroup::update`): every particle integrated one sub-step
/// and clamped into the bounding box, the configuration kept, and the
/// spatial hash rebuilt fresh over the new positions.
pub open spec fn pg_update_rel(pg0: ParticleGroup, pg1: ParticleGroup, dt: int) -> bool {
    &&& pg1.wf()
    &&& pg1.fresh()
    &&& pg1.csize == pg0.csize
    &&& pg1.speed_limit_k == pg0.speed_limit_k
    &&& pg1.posbox == pg0.posbox
    &&& pg1.particles@.len() == pg0.particles@.len()
    &&& forall|i: int|
        0 <= i < pg0.particles@.len() ==> (#[trigger] pg1.particles@[i])@ == integrate_clamp_s(
            pg0.particles@[i]@,
            dt,
            fx_mul_s(pg0.speed_limit_k as int, pg0.csize as int),
            pg0.posbox,
        )
}

/// The relation of the broad phase
/// (`ParticleGroup::collision_constraints`): the emitted constraints
/// are sound and pairwise distinct, each is well formed over the live
/// particles, and — under a fresh hash — every qualifying pair is
/// emitted.
pub open spec fn coll_rel(pg: ParticleGroup, res: Seq<Constraint>) -> bool {
    &&& pg.coll_sound(res)
    &&& pg.coll_unique(res)
    &&& forall|i: int| 0 <= i < res.len() ==> (#[trigger] res[i]).wf()
    &&& forall|i: int| 0 <= i < res.len() ==> (#[trigger] res[i]).ids_in(pg.particles@.len() as nat)
    &&& pg.fresh() ==> forall|a: usize, b: usize|
        #[trigger] pg.cand(a, b) ==> ParticleGroup::emitted(res, a, b)
}

/// Pushing a fresh element keeps a list duplicate-free.
proof fn lemma_push_no_duplicates(s: Seq<usize>, id: usize)
    requires
        s.no_duplicates(),
        !s.contains(id),
    ensures
        s.push(id).no_duplicates(),
{
    let t = s.push(id);
    assert forall|i: int, j: int| 0 <= i < j < t.len() implies t[i] != t[j] by {
        if j == t.len() - 1 {
            assert(t[i] == s[i]);
            assert(s.contains(s[i]));
        }
    }
}

} // verus!
