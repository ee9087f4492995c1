//! The record reduced-cost fixing produces.

use vstd::prelude::*;

verus! {

/// Tiers provably excludable from any optimum, plus the best integral
/// assignment (in gene form) and value found while probing them.
#[derive(Debug, Clone)]
pub struct UBFixResult {
    /// `(group, tier)` pairs fixed out of the search.
    pub f_1: Vec<(usize, usize)>,
    /// Best integral assignment found during fixing, one mark per group.
    pub x_best: Vec<usize>,
    /// The value of the best lower bound found during fixing.
    pub v_best: i64,
}

impl UBFixResult {
    /// Packs the parts of a finished fixing pass.
    pub fn new(f_1: Vec<(usize, usize)>, x_best: Vec<usize>, v_best: i64) -> (r: UBFixResult)
        ensures
            r == (UBFixResult { f_1, x_best, v_best }),
    {
        UBFixResult { f_1, x_best, v_best }
    }

    /// The record of a run on which no fixing happened.
    pub fn empty() -> (r: UBFixResult)
        ensures
            r.f_1@ =~= Seq::<(usize, usize)>::empty(),
            r.x_best@ =~= Seq::<usize>::empty(),
            r.v_best == 0,
    {
        UBFixResult { f_1: Vec::new(), x_best: Vec::new(), v_best: 0 }
    }
}

} // verus!
