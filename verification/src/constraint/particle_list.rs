//! Ordered lists of particle ids held by constraints.
//!
//! Each constraint keeps two lists over the same particles: the
//! insertion order, used for reporting, and the ascending-id order,
//! used during projection so that every constraint acquires its
//! particles along one global order.

use vstd::prelude::*;
use vstd::seq_lib::to_multiset_insert;
use vstd::seq_lib::to_multiset_remove;

verus! {

/// Ascending order of an id sequence.
pub open spec fn sorted_ids(s: Seq<usize>) -> bool {
    forall|p: int, q: int| 0 <= p < q < s.len() ==> s[p] <= s[q]
}

/// Replacing one element rewrites the multiset accordingly.
proof fn lemma_update_to_multiset(s: Seq<usize>, i: int, v: usize)
    requires
        0 <= i < s.len(),
    ensures
        s.update(i, v).to_multiset() == s.to_multiset().remove(s[i]).insert(v),
{
    assert(s.update(i, v) =~= s.remove(i).insert(i, v));
    to_multiset_remove(s, i);
    to_multiset_insert(s.remove(i), i, v);
}

/// Swapping two elements preserves the multiset.
proof fn lemma_swap_to_multiset(s: Seq<usize>, i: int, j: int)
    requires
        0 <= i < s.len(),
        0 <= j < s.len(),
        i != j,
    ensures
        s.update(i, s[j]).update(j, s[i]).to_multiset() == s.to_multiset(),
{
    broadcast use vstd::multiset::group_multiset_axioms;

    let s1 = s.update(i, s[j]);
    lemma_update_to_multiset(s, i, v1(s, i, j));
    lemma_update_to_multiset(s1, j, s[i]);
    assert(s1[j] == s[j]);
    vstd::seq_lib::to_multiset_contains(s, s[i]);
    vstd::seq_lib::to_multiset_contains(s, s[j]);
    assert(s.update(i, s[j]).update(j, s[i]).to_multiset() =~= s.to_multiset());
}

// Helper naming the swapped-in value, so the lemma above reads evenly.
spec fn v1(s: Seq<usize>, i: int, j: int) -> usize {
    s[j]
}

/// Sort a short id vector ascending, in place.
fn sort_ids(v: &mut Vec<usize>)
    ensures
        final(v)@.to_multiset() == old(v)@.to_multiset(),
        final(v)@.len() == old(v)@.len(),
        sorted_ids(final(v)@),
{
    let n = v.len();
    let mut i: usize = 1;
    while i < n
        invariant
            v@.len() == n,
            1 <= i,
            i <= n || n == 0,
            v@.to_multiset() == old(v)@.to_multiset(),
            sorted_ids(v@.subrange(0, if i < n { i as int } else { n as int })),
        decreases n - i,
    {
        proof {
            let s = v@.subrange(0, i as int);
            assert forall|p: int, q: int|
                0 <= p < q <= i as int && q != i as int implies v@[p] <= v@[q] by {
                assert(s[p] == v@[p] && s[q] == v@[q]);
            }
        }
        let mut j: usize = i;
        while j > 0 && v[j - 1] > v[j]
            invariant
                v@.len() == n,
                0 <= j <= i < n,
                v@.to_multiset() == old(v)@.to_multiset(),
                forall|p: int, q: int|
                    0 <= p < q <= i as int && q != j as int ==> v@[p] <= v@[q],
            decreases j,
        {
            let a = v[j - 1];
            let b = v[j];
            proof {
                lemma_swap_to_multiset(v@, j - 1, j as int);
            }
            v[j - 1] = b;
            v[j] = a;
            j -= 1;
        }
        i += 1;
        proof {
            let w = v@.subrange(0, if i < n { i as int } else { n as int });
            assert(sorted_ids(w));
        }
    }
    proof {
        if n > 0 {
            assert(v@.subrange(0, n as int) =~= v@);
        } else {
            assert(sorted_ids(v@));
        }
    }
}

/// A list of particle ids, optionally held in ascending order.
#[derive(Clone, Debug)]
pub struct ParticleList {
    pub ids: Vec<usize>,
}

impl ParticleList {
    /// Wrap a list of particle ids; with `sort` the list is put in
    /// ascending id order (the global lock order).
    pub fn new(particles: Vec<usize>, sort: bool) -> (r: ParticleList)
        ensures
            r.ids@.to_multiset() == particles@.to_multiset(),
            r.ids@.len() == particles@.len(),
            !sort ==> r.ids@ == particles@,
            sort ==> sorted_ids(r.ids@),
    {
        if sort {
            let mut v = particles;
            sort_ids(&mut v);
            ParticleList { ids: v }
        } else {
            ParticleList { ids: particles }
        }
    }

    /// The ids, as a fresh vector.
    pub fn ids(&self) -> (r: Vec<usize>)
        ensures
            r@ == self.ids@,
    {
        let mut r: Vec<usize> = Vec::new();
        let mut k: usize = 0;
        while k < self.ids.len()
            invariant
                k <= self.ids@.len(),
                r@ == self.ids@.subrange(0, k as int),
            decreases self.ids@.len() - k,
        {
            r.push(self.ids[k]);
            proof {
                assert(r@ =~= self.ids@.subrange(0, k + 1));
            }
            k += 1;
        }
        proof {
            assert(r@ =~= self.ids@);
        }
        r
    }

    /// Number of ids.
    pub fn len(&self) -> (r: usize)
        ensures
            r == self.ids@.len(),
    {
        self.ids.len()
    }

    /// The id at one index.
    pub fn at(&self, k: usize) -> (r: usize)
        requires
            k < self.ids@.len(),
        ensures
            r == self.ids@[k as int],
    {
        self.ids[k]
    }
}

} // verus!
