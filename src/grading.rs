//! Test scores with an optional curve added to every score.

use vstd::prelude::*;

verus! {

pub struct TestResult {
    pub scores: Vec<usize>,
    pub curve: Option<usize>,
}

/// Whether adding `curve` to every score stays within `usize`.
pub open spec fn curve_fits(scores: Seq<usize>, curve: Option<usize>) -> bool {
    match curve {
        Some(c) => forall|i: int| 0 <= i < scores.len() ==> scores[i] + c <= usize::MAX,
        None => true,
    }
}

impl TestResult {
    pub fn get_curve(&self) -> (r: &Option<usize>)
        ensures
            *r == self.curve,
    {
        &self.curve
    }

    /// Adds the curve, if there is one, to every score.
    pub fn apply_curve(&mut self)
        requires
            curve_fits(old(self).scores@, old(self).curve),
        ensures
            final(self).curve == old(self).curve,
            final(self).scores@.len() == old(self).scores@.len(),
            forall|i: int|
                0 <= i < old(self).scores@.len() ==> final(self).scores@[i] == old(self).scores@[i]
                    + match old(self).curve {
                    Some(c) => c as int,
                    None => 0,
                },
    {
        if let Some(curve) = self.curve {
            let n = self.scores.len();
            let mut i: usize = 0;
            while i < n
                invariant
                    i <= n,
                    n == self.scores@.len(),
                    self.curve == old(self).curve,
                    self.curve == Some(curve),
                    n == old(self).scores@.len(),
                    curve_fits(old(self).scores@, old(self).curve),
                    forall|j: int| 0 <= j < i ==> self.scores@[j] == old(self).scores@[j] + curve,
                    forall|j: int| i <= j < n ==> self.scores@[j] == old(self).scores@[j],
                decreases n - i,
            {
                let s = self.scores[i];
                self.scores.set(i, s + curve);
                i = i + 1;
            }
        }
    }
}

} // verus!
