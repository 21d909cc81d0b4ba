//! Declarative, value-only descriptions of objects: particles and
//! constraints to instantiate at a world-space offset.

use crate::constraint::constraint_template::ConstraintTemplate;
use crate::particle::ParticleTemplate;
use vstd::prelude::*;

verus! {

/// A physical model: particle templates (positions relative to the
/// model origin), constraint templates (indices into the particle
/// list), and dependency pairs `[a, b]` meaning that permanent
/// constraint `a` depends on `b`.
#[derive(Clone, Debug)]
pub struct PhysicalModel {
    pub particles: Vec<ParticleTemplate>,
    pub constraints: Vec<ConstraintTemplate>,
    pub dependencies: Vec<[usize; 2]>,
}

impl PhysicalModel {
    /// A model is well formed when inverse masses are non-negative,
    /// constraint templates index existing distinct particles, and
    /// dependency pairs index existing constraints.
    pub open spec fn wf(self) -> bool {
        &&& forall|i: int|
            0 <= i < self.particles@.len() ==> (#[trigger] self.particles@[i]).imass >= 0
        &&& forall|i: int|
            0 <= i < self.constraints@.len() ==> match (#[trigger] self.constraints@[i]) {
                ConstraintTemplate::Distance(ct) => {
                    &&& ct.ps@.len() == 2
                    &&& ct.ps@[0] != ct.ps@[1]
                    &&& ct.ps@[0] < self.particles@.len()
                    &&& ct.ps@[1] < self.particles@.len()
                    &&& ct.compliance >= 0
                },
                ConstraintTemplate::Volume(ct) => {
                    &&& ct.ps@.len() == 3
                    &&& ct.ps@.no_duplicates()
                    &&& forall|k: int| 0 <= k < 3 ==> #[trigger] ct.ps@[k] < self.particles@.len()
                    &&& ct.compliance >= 0
                },
            }
        &&& forall|i: int|
            0 <= i < self.dependencies@.len() ==> (#[trigger] self.dependencies@[i])@[0]
                < self.constraints@.len() && self.dependencies@[i]@[1] < self.constraints@.len()
    }

    /// The empty model.
    pub fn new() -> (r: PhysicalModel)
        ensures
            r.particles@.len() == 0,
            r.constraints@.len() == 0,
            r.dependencies@.len() == 0,
    {
        PhysicalModel { particles: Vec::new(), constraints: Vec::new(), dependencies: Vec::new() }
    }

    /// Executable well-formedness test, for embedders that assemble a
    /// model from outside data and must check it before handing it to
    /// `PWorld::add_model`.
    pub fn wf_check(&self) -> (r: bool)
        ensures
            r == self.wf(),
    {
        let n = self.particles.len();
        let mut i: usize = 0;
        while i < self.particles.len()
            invariant
                i <= self.particles@.len(),
                forall|j: int| 0 <= j < i as int ==> (#[trigger] self.particles@[j]).imass >= 0,
            decreases self.particles@.len() - i,
        {
            if self.particles[i].imass < 0 {
                return false;
            }
            i += 1;
        }
        let mut c: usize = 0;
        while c < self.constraints.len()
            invariant
                n == self.particles@.len(),
                c <= self.constraints@.len(),
                forall|j: int|
                    0 <= j < c as int ==> match (#[trigger] self.constraints@[j]) {
                        ConstraintTemplate::Distance(ct) => {
                            &&& ct.ps@.len() == 2
                            &&& ct.ps@[0] != ct.ps@[1]
                            &&& ct.ps@[0] < self.particles@.len()
                            &&& ct.ps@[1] < self.particles@.len()
                            &&& ct.compliance >= 0
                        },
                        ConstraintTemplate::Volume(ct) => {
                            &&& ct.ps@.len() == 3
                            &&& ct.ps@.no_duplicates()
                            &&& forall|k: int|
                                0 <= k < 3 ==> #[trigger] ct.ps@[k] < self.particles@.len()
                            &&& ct.compliance >= 0
                        },
                    },
            decreases self.constraints@.len() - c,
        {
            match &self.constraints[c] {
                ConstraintTemplate::Distance(ct) => {
                    if ct.ps.len() != 2 {
                        return false;
                    }
                    if ct.ps[0] == ct.ps[1] || ct.ps[0] >= n || ct.ps[1] >= n || ct.compliance
                        < 0 {
                        return false;
                    }
                },
                ConstraintTemplate::Volume(ct) => {
                    if ct.ps.len() != 3 {
                        return false;
                    }
                    if ct.ps[0] == ct.ps[1] || ct.ps[0] == ct.ps[2] || ct.ps[1] == ct.ps[2] {
                        return false;
                    }
                    if ct.ps[0] >= n || ct.ps[1] >= n || ct.ps[2] >= n || ct.compliance < 0 {
                        return false;
                    }
                    proof {
                        assert(ct.ps@.no_duplicates()) by {
                            assert forall|a: int, b: int|
                                0 <= a < b < ct.ps@.len() implies ct.ps@[a] != ct.ps@[b] by {
                                assert(0 <= a < 3 && 0 <= b < 3);
                            }
                        }
                    }
                },
            }
            c += 1;
        }
        let mut dd: usize = 0;
        while dd < self.dependencies.len()
            invariant
                dd <= self.dependencies@.len(),
                forall|j: int|
                    0 <= j < dd as int ==> (#[trigger] self.dependencies@[j])@[0]
                        < self.constraints@.len() && self.dependencies@[j]@[1]
                        < self.constraints@.len(),
            decreases self.dependencies@.len() - dd,
        {
            let dep = self.dependencies[dd];
            if dep[0] >= self.constraints.len() || dep[1] >= self.constraints.len() {
                return false;
            }
            dd += 1;
        }
        true
    }
}

} // verus!
