//! Correlation of permanent constraint ids with texture metadata, and
//! compilation of a rendering snapshot into a textured model.

use crate::face::Face;
use crate::face::FaceGroup;
use crate::pr_model::PrConstraint;
use crate::pr_model::PrModel;
use crate::render_model::RenderModel;
use std::collections::HashMap;
use vstd::prelude::*;

verus! {

broadcast use vstd::std_specs::hash::group_hash_axioms;

/// Texture metadata of one triangle: which texture, and which three
/// entries of its uv table.
#[derive(Clone, Copy, Debug)]
pub struct FaceInfo {
    pub texture_id: i32,
    pub uvid: [usize; 3],
}

impl FaceInfo {
    /// The unindexed face: texture -1, uv entries 0.
    pub fn unindexed() -> (r: FaceInfo)
        ensures
            r.texture_id == -1,
            r.uvid@ == seq![0usize, 0usize, 0usize],
    {
        let r = FaceInfo { texture_id: -1, uvid: [0, 0, 0] };
        proof {
            assert(r.uvid@ =~= seq![0usize, 0usize, 0usize]);
        }
        r
    }
}

/// The texture id under which a triangle constraint files: its mapped
/// metadata's texture, or -1 when the id carries none.
pub open spec fn tid_of(m: Map<isize, FaceInfo>, id: isize) -> i32 {
    if m.contains_key(id) {
        m[id].texture_id
    } else {
        -1i32
    }
}

/// The uv indices of a triangle constraint's face: the mapped
/// metadata's, or all zero when the id carries none.
pub open spec fn uvid_of(m: Map<isize, FaceInfo>, id: isize) -> Seq<usize> {
    if m.contains_key(id) {
        m[id].uvid@
    } else {
        seq![0usize, 0usize, 0usize]
    }
}

/// Whether a snapshot constraint yields a face: exactly the
/// three-particle constraints do.
pub open spec fn yields_face(c: PrConstraint) -> bool {
    c.particles@.len() == 3
}

/// The face compiled from a triangle constraint: its three particle
/// ids in order, under the uv indices of its metadata.
pub open spec fn face_is(f: Face, c: PrConstraint, m: Map<isize, FaceInfo>) -> bool {
    &&& f.vid@ == c.particles@
    &&& f.uvid@ == uvid_of(m, c.id)
}

/// The triangle constraints filing under texture `tid`, in snapshot
/// order.
pub open spec fn tris_of_tid(m: Map<isize, FaceInfo>, cs: Seq<PrConstraint>, tid: i32) -> Seq<
    PrConstraint,
>
    decreases cs.len(),
{
    if cs.len() == 0 {
        Seq::empty()
    } else {
        let rest = tris_of_tid(m, cs.drop_last(), tid);
        if yields_face(cs.last()) && tid_of(m, cs.last().id) == tid {
            rest.push(cs.last())
        } else {
            rest
        }
    }
}

/// Every entry of `tris_of_tid` is one of the listed constraints, a
/// triangle, and files under the asked texture.
proof fn lemma_tris_elem(m: Map<isize, FaceInfo>, cs: Seq<PrConstraint>, tid: i32)
    ensures
        forall|t: int|
            0 <= t < tris_of_tid(m, cs, tid).len() ==> exists|j: int|
                0 <= j < cs.len() && #[trigger] tris_of_tid(m, cs, tid)[t] == cs[j] && yields_face(
                    cs[j],
                ) && tid_of(m, cs[j].id) == tid,
    decreases cs.len(),
{
    if cs.len() > 0 {
        lemma_tris_elem(m, cs.drop_last(), tid);
        let rest = tris_of_tid(m, cs.drop_last(), tid);
        assert forall|t: int|
            0 <= t < tris_of_tid(m, cs, tid).len() implies exists|j: int|
                0 <= j < cs.len() && #[trigger] tris_of_tid(m, cs, tid)[t] == cs[j] && yields_face(
                    cs[j],
                ) && tid_of(m, cs[j].id) == tid by {
            if t < rest.len() {
                assert(tris_of_tid(m, cs, tid)[t] == rest[t]);
                let j = choose|j: int|
                    0 <= j < cs.drop_last().len() && #[trigger] rest[t] == cs.drop_last()[j]
                        && yields_face(cs.drop_last()[j]) && tid_of(m, cs.drop_last()[j].id) == tid;
                assert(cs.drop_last()[j] == cs[j]);
                assert(tris_of_tid(m, cs, tid)[t] == cs[j]);
            } else {
                assert(tris_of_tid(m, cs, tid)[t] == cs.last());
                assert(cs.last() == cs[cs.len() - 1]);
            }
        }
    }
}

/// The map from permanent constraint id to its texture metadata.
pub struct TextureIndexer {
    pub texture_map: HashMap<isize, FaceInfo>,
}

impl TextureIndexer {
    /// An empty indexer.
    pub fn new() -> (r: TextureIndexer)
        ensures
            r.texture_map@ == Map::<isize, FaceInfo>::empty(),
    {
        TextureIndexer { texture_map: HashMap::new() }
    }

    /// Record the metadata of freshly added constraints: `faces` maps
    /// an index into `cids` to its face info, and `cids` are the
    /// constraint ids returned by model construction.
    pub fn add_faces(&mut self, cids: Vec<i32>, faces: Vec<(usize, FaceInfo)>)
        requires
            vstd::std_specs::hash::obeys_key_model::<isize>(),
            forall|i: int| 0 <= i < faces@.len() ==> (#[trigger] faces@[i]).0 < cids@.len(),
            forall|i: int, j: int|
                0 <= i < j < faces@.len() ==> cids@[(#[trigger] faces@[i]).0 as int] != cids@[(
                #[trigger] faces@[j]).0 as int],
            forall|i: int|
                0 <= i < faces@.len() ==> !old(self).texture_map@.contains_key(
                    cids@[(#[trigger] faces@[i]).0 as int] as isize,
                ),
        ensures
            forall|i: int|
                0 <= i < faces@.len() ==> final(self).texture_map@.contains_key(
                    cids@[(#[trigger] faces@[i]).0 as int] as isize,
                ) && final(self).texture_map@[cids@[faces@[i].0 as int] as isize] == faces@[i].1,
            forall|k: isize|
                final(self).texture_map@.contains_key(k) ==> old(self).texture_map@.contains_key(k)
                    || exists|i: int|
                    0 <= i < faces@.len() && cids@[(#[trigger] faces@[i]).0 as int] as isize == k,
            forall|k: isize|
                #[trigger] old(self).texture_map@.contains_key(k) ==> final(self).texture_map@.contains_key(k) && final(self).texture_map@[k] == old(self).texture_map@[k],
    {
        let ghost m0 = self.texture_map@;
        let mut i: usize = 0;
        while i < faces.len()
            invariant
                vstd::std_specs::hash::obeys_key_model::<isize>(),
                i <= faces@.len(),
                forall|j: int| 0 <= j < faces@.len() ==> (#[trigger] faces@[j]).0 < cids@.len(),
                forall|j: int, j2: int|
                    0 <= j < j2 < faces@.len() ==> cids@[(#[trigger] faces@[j]).0 as int] != cids@[(
                    #[trigger] faces@[j2]).0 as int],
                forall|j: int|
                    0 <= j < faces@.len() ==> !m0.contains_key(
                        cids@[(#[trigger] faces@[j]).0 as int] as isize,
                    ),
                forall|j: int|
                    0 <= j < i as int ==> self.texture_map@.contains_key(
                        cids@[(#[trigger] faces@[j]).0 as int] as isize,
                    ) && self.texture_map@[cids@[faces@[j].0 as int] as isize] == faces@[j].1,
                forall|k: isize|
                    self.texture_map@.contains_key(k) ==> m0.contains_key(k) || exists|j: int|
                        0 <= j < i as int && cids@[(#[trigger] faces@[j]).0 as int] as isize == k,
                forall|k: isize|
                    #[trigger] m0.contains_key(k) ==> self.texture_map@.contains_key(k)
                        && self.texture_map@[k] == m0[k],
            decreases faces@.len() - i,
        {
            let idx = faces[i].0;
            let fi = faces[i].1;
            let key = cids[idx] as isize;
            let ghost pre = self.texture_map@;
            self.texture_map.insert(key, fi);
            proof {
                assert(self.texture_map@ == pre.insert(key, fi));
                assert forall|k: isize|
                    self.texture_map@.contains_key(k) implies m0.contains_key(k) || exists|j: int|
                        0 <= j < i as int + 1 && cids@[(#[trigger] faces@[j]).0 as int] as isize
                            == k by {
                    if k == key {
                        assert(cids@[(faces@[i as int]).0 as int] as isize == k);
                    }
                }
                assert forall|k: isize|
                    m0.contains_key(k) implies self.texture_map@.contains_key(k)
                        && self.texture_map@[k] == m0[k] by {
                    assert(!m0.contains_key(cids@[(faces@[i as int]).0 as int] as isize));
                    assert(k != key);
                    assert(pre.contains_key(k) && pre[k] == m0[k]);
                    assert(self.texture_map@[k] == pre[k]);
                }
            }
            i += 1;
        }
    }

    /// Compile a rendering snapshot: copy the vertices, and turn every
    /// three-particle constraint into a textured face, falling back to
    /// the unindexed face when the constraint id carries no metadata.
    pub fn compile_model(&self, pr_model: &PrModel) -> (r: RenderModel)
        requires
            vstd::std_specs::hash::obeys_key_model::<isize>(),
        ensures
            r.vs@.len() == pr_model.particles@.len(),
            forall|i: int|
                0 <= i < r.vs@.len() ==> (#[trigger] r.vs@[i]).0 == pr_model.particles@[i].0
                    && r.vs@[i].1 == pr_model.particles@[i].1.pos,
            forall|gi: int, gj: int|
                0 <= gi < gj < r.face_groups@.len() ==> (#[trigger] r.face_groups@[gi]).0 != (
                #[trigger] r.face_groups@[gj]).0,
            // each group holds, in snapshot order, exactly one face per
            // triangle constraint filing under its texture id
            forall|gi: int|
                0 <= gi < r.face_groups@.len() ==> {
                    let q = tris_of_tid(
                        self.texture_map@,
                        pr_model.constraints@,
                        (#[trigger] r.face_groups@[gi]).0,
                    );
                    &&& r.face_groups@[gi].1.faces@.len() == q.len()
                    &&& forall|fi: int|
                        0 <= fi < q.len() ==> face_is(
                            #[trigger] r.face_groups@[gi].1.faces@[fi],
                            q[fi],
                            self.texture_map@,
                        )
                },
            // every triangle constraint has its group
            forall|ci: int|
                0 <= ci < pr_model.constraints@.len() && yields_face(
                    #[trigger] pr_model.constraints@[ci],
                ) ==> exists|gi: int|
                    0 <= gi < r.face_groups@.len() && (#[trigger] r.face_groups@[gi]).0 == tid_of(
                        self.texture_map@,
                        pr_model.constraints@[ci].id,
                    ),
    {
        let mut result = RenderModel::new();
        let mut i: usize = 0;
        while i < pr_model.particles.len()
            invariant
                i <= pr_model.particles@.len(),
                result.vs@.len() == i as int,
                result.face_groups@.len() == 0,
                forall|j: int|
                    0 <= j < i as int ==> (#[trigger] result.vs@[j]).0 == pr_model.particles@[j].0
                        && result.vs@[j].1 == pr_model.particles@[j].1.pos,
            decreases pr_model.particles@.len() - i,
        {
            let (id, p) = pr_model.particles[i];
            result.vs.push((id, p.pos));
            i += 1;
        }
        let ghost m = self.texture_map@;
        let ghost cs = pr_model.constraints@;
        let mut ci: usize = 0;
        while ci < pr_model.constraints.len()
            invariant
                vstd::std_specs::hash::obeys_key_model::<isize>(),
                m == self.texture_map@,
                cs == pr_model.constraints@,
                ci <= pr_model.constraints@.len(),
                result.vs@.len() == pr_model.particles@.len(),
                forall|j: int|
                    0 <= j < result.vs@.len() ==> (#[trigger] result.vs@[j]).0
                        == pr_model.particles@[j].0 && result.vs@[j].1
                        == pr_model.particles@[j].1.pos,
                forall|gi: int, gj: int|
                    0 <= gi < gj < result.face_groups@.len() ==> (
                    #[trigger] result.face_groups@[gi]).0 != (#[trigger] result.face_groups@[gj]).0,
                forall|gi: int|
                    0 <= gi < result.face_groups@.len() ==> {
                        let q = tris_of_tid(
                            m,
                            cs.take(ci as int),
                            (#[trigger] result.face_groups@[gi]).0,
                        );
                        &&& result.face_groups@[gi].1.faces@.len() == q.len()
                        &&& forall|fi: int|
                            0 <= fi < q.len() ==> face_is(
                                #[trigger] result.face_groups@[gi].1.faces@[fi],
                                q[fi],
                                m,
                            )
                    },
                forall|cj: int|
                    0 <= cj < ci as int && yields_face(#[trigger] cs[cj]) ==> exists|gi: int|
                        0 <= gi < result.face_groups@.len() && (
                        #[trigger] result.face_groups@[gi]).0 == tid_of(m, cs[cj].id),
            decreases pr_model.constraints@.len() - ci,
        {
            let ghost groups0 = result.face_groups@;
            let con = &pr_model.constraints[ci];
            proof {
                assert(cs.take(ci as int + 1).drop_last() =~= cs.take(ci as int));
                assert(cs.take(ci as int + 1).last() == cs[ci as int]);
            }
            if con.particles.len() == 3 {
                let texind = match self.texture_map.get(&con.id) {
                    Some(ind) => *ind,
                    None => FaceInfo::unindexed(),
                };
                proof {
                    assert(texind.texture_id == tid_of(m, cs[ci as int].id));
                    assert(texind.uvid@ == uvid_of(m, cs[ci as int].id));
                }
                let face = Face {
                    vid: [con.particles[0], con.particles[1], con.particles[2]],
                    uvid: texind.uvid,
                };
                proof {
                    assert(face.vid@ =~= cs[ci as int].particles@);
                    assert(face_is(face, cs[ci as int], m));
                }
                let ghost mut pidx: int = 0;
                let mut gi: usize = 0;
                let mut placed = false;
                while gi < result.face_groups.len() && !placed
                    invariant
                        gi <= result.face_groups@.len(),
                        result.vs@.len() == pr_model.particles@.len(),
                        forall|j: int|
                            0 <= j < result.vs@.len() ==> (#[trigger] result.vs@[j]).0
                                == pr_model.particles@[j].0 && result.vs@[j].1
                                == pr_model.particles@[j].1.pos,
                        forall|a: int, b: int|
                            0 <= a < b < result.face_groups@.len() ==> (
                            #[trigger] result.face_groups@[a]).0 != (
                            #[trigger] result.face_groups@[b]).0,
                        result.face_groups@.len() == groups0.len(),
                        forall|a: int|
                            0 <= a < groups0.len() ==> (#[trigger] result.face_groups@[a]).0
                                == groups0[a].0,
                        !placed ==> result.face_groups@ == groups0,
                        !placed ==> forall|a: int|
                            0 <= a < gi as int ==> (#[trigger] result.face_groups@[a]).0
                                != texind.texture_id,
                        placed ==> {
                            &&& 0 <= pidx < groups0.len()
                            &&& result.face_groups@[pidx].0 == texind.texture_id
                            &&& result.face_groups@[pidx].1.faces@
                                == groups0[pidx].1.faces@.push(face)
                            &&& forall|a: int|
                                0 <= a < groups0.len() && a != pidx ==> (
                                #[trigger] result.face_groups@[a]) == groups0[a]
                        },
                    decreases result.face_groups@.len() - gi + (if placed {
                        0int
                    } else {
                        1int
                    }),
                {
                    if result.face_groups[gi].0 == texind.texture_id {
                        let entry = &mut result.face_groups[gi];
                        entry.1.faces.push(face);
                        placed = true;
                        proof {
                            pidx = gi as int;
                        }
                    } else {
                        gi += 1;
                    }
                }
                if !placed {
                    let mut faces: Vec<Face> = Vec::new();
                    faces.push(face);
                    result.face_groups.push((texind.texture_id, FaceGroup { faces }));
                    proof {
                        pidx = groups0.len() as int;
                        assert(result.face_groups@[pidx].1.faces@ =~= Seq::<Face>::empty().push(
                            face,
                        ));
                        // no earlier group files under this texture, so
                        // no earlier triangle does either
                        assert(tris_of_tid(m, cs.take(ci as int), texind.texture_id) =~= Seq::<
                            PrConstraint,
                        >::empty()) by {
                            lemma_tris_elem(m, cs.take(ci as int), texind.texture_id);
                            let q = tris_of_tid(m, cs.take(ci as int), texind.texture_id);
                            if q.len() > 0 {
                                let j = choose|j: int|
                                    0 <= j < cs.take(ci as int).len() && #[trigger] q[0] == cs.take(
                                        ci as int,
                                    )[j] && yields_face(cs.take(ci as int)[j]) && tid_of(
                                        m,
                                        cs.take(ci as int)[j].id,
                                    ) == texind.texture_id;
                                assert(cs.take(ci as int)[j] == cs[j]);
                                let g = choose|g: int|
                                    0 <= g < groups0.len() && (#[trigger] groups0[g]).0 == tid_of(
                                        m,
                                        cs[j].id,
                                    );
                                assert(groups0[g].0 == texind.texture_id);
                            }
                        }
                    }
                }
                proof {
                    let tid = texind.texture_id;
                    let groups1 = result.face_groups@;
                    let csn = cs.take(ci as int + 1);
                    assert forall|g: int| 0 <= g < groups1.len() implies {
                        let q = tris_of_tid(m, csn, (#[trigger] groups1[g]).0);
                        &&& groups1[g].1.faces@.len() == q.len()
                        &&& forall|fi: int|
                            0 <= fi < q.len() ==> face_is(
                                #[trigger] groups1[g].1.faces@[fi],
                                q[fi],
                                m,
                            )
                    } by {
                        let gtid = groups1[g].0;
                        let q0 = tris_of_tid(m, cs.take(ci as int), gtid);
                        let q = tris_of_tid(m, csn, gtid);
                        if gtid == tid {
                            assert(q =~= q0.push(cs[ci as int]));
                            assert(g == pidx) by {
                                if g < groups0.len() && g != pidx {
                                    assert(groups1[g] == groups0[g]);
                                    if pidx < groups0.len() {
                                        assert(groups1[pidx as int].0 == tid);
                                        if g < pidx {
                                            assert(groups1[g].0 != groups1[pidx as int].0);
                                        } else {
                                            assert(groups1[pidx as int].0 != groups1[g].0);
                                        }
                                    } else {
                                        assert(groups0[g].0 != tid);
                                    }
                                }
                            }
                            assert(groups1[g].1.faces@.len() == q.len());
                            assert forall|fi: int| 0 <= fi < q.len() implies face_is(
                                #[trigger] groups1[g].1.faces@[fi],
                                q[fi],
                                m,
                            ) by {
                                if fi < q.len() - 1 {
                                    assert(groups1[g].1.faces@[fi] == groups0[g].1.faces@[fi]);
                                    assert(q[fi] == q0[fi]);
                                } else {
                                    assert(groups1[g].1.faces@[fi] == face);
                                    assert(q[fi] == cs[ci as int]);
                                }
                            }
                        } else {
                            assert(q =~= q0);
                            assert(g < groups0.len() && groups1[g] == groups0[g]) by {
                                if g == pidx && placed {
                                    assert(groups1[g].0 == tid);
                                }
                                if !placed {
                                    assert(g < groups0.len()) by {
                                        if g == groups0.len() as int {
                                            assert(groups1[g].0 == tid);
                                        }
                                    }
                                }
                            }
                        }
                    }
                    assert forall|cj: int|
                        0 <= cj < ci as int + 1 && yields_face(#[trigger] cs[cj]) implies exists|
                        g: int,
                    |
                        0 <= g < result.face_groups@.len() && (#[trigger] result.face_groups@[g]).0
                            == tid_of(m, cs[cj].id) by {
                        if cj < ci as int {
                            let g = choose|g: int|
                                0 <= g < groups0.len() && (#[trigger] groups0[g]).0 == tid_of(
                                    m,
                                    cs[cj].id,
                                );
                            assert(result.face_groups@[g].0 == tid_of(m, cs[cj].id));
                        } else {
                            assert(result.face_groups@[pidx].0 == tid_of(m, cs[cj].id));
                        }
                    }
                }
            } else {
                proof {
                    assert forall|g: int| 0 <= g < result.face_groups@.len() implies {
                        let q = tris_of_tid(
                            m,
                            cs.take(ci as int + 1),
                            (#[trigger] result.face_groups@[g]).0,
                        );
                        &&& result.face_groups@[g].1.faces@.len() == q.len()
                        &&& forall|fi: int|
                            0 <= fi < q.len() ==> face_is(
                                #[trigger] result.face_groups@[g].1.faces@[fi],
                                q[fi],
                                m,
                            )
                    } by {
                        let gtid = result.face_groups@[g].0;
                        assert(tris_of_tid(m, cs.take(ci as int + 1), gtid) =~= tris_of_tid(
                            m,
                            cs.take(ci as int),
                            gtid,
                        ));
                    }
                }
            }
            ci += 1;
        }
        proof {
            assert(cs.take(cs.len() as int) =~= cs);
        }
        result
    }
}

} // verus!
