//! The bound record the fractional greedy filler produces.

use vstd::prelude::*;

verus! {

use crate::structure::incremental_edge::GroupEnvelope;

/// The single fractional pick of a greedy fill: tier `tier` of group `group`
/// is taken at the fraction `num / den` (with `0 <= num < den`) of its edge.
#[derive(Debug, Clone, Copy, PartialEq, Eq, Structural)]
pub struct CriticalPick {
    pub group: usize,
    pub tier: usize,
    pub num: i64,
    pub den: i64,
}

/// The bounds one greedy fill yields. Both assignment vectors hold one mark
/// per group in gene form: `0` selects nothing, `k` in `1..=3` selects tier
/// `k - 1`. The LP relaxation value is the exact rational
/// `v_up + v_up_num / v_up_den`; `v_up` alone is its integer floor, since
/// `0 <= v_up_num < v_up_den`.
#[derive(Debug, Clone)]
pub struct LPRelaxationResult {
    /// Tiers discarded as dominated: `(group, tier)` pairs.
    pub f_0: Vec<(usize, usize)>,
    /// Fractional upper-bound assignment: the committed marks; the one
    /// fractional pick, if any, is `critical`.
    pub x_up: Vec<usize>,
    /// Integral lower-bound assignment.
    pub x: Vec<usize>,
    /// Floor of the LP relaxation value.
    pub v_up: i64,
    /// Numerator of the fractional part of the LP relaxation value.
    pub v_up_num: i64,
    /// Denominator of the fractional part of the LP relaxation value.
    pub v_up_den: i64,
    /// Best integral value seen during the fill.
    pub v_low: i64,
    /// The group whose edge no longer fit in full, if the fill ran out of
    /// capacity mid-edge.
    pub critical: Option<CriticalPick>,
    /// The surviving incremental edges, grouped, retained for reuse by fixing.
    pub relaxed: Vec<GroupEnvelope>,
}

impl LPRelaxationResult {
    /// Packs the parts of a finished fill.
    #[allow(clippy::too_many_arguments)]
    pub fn new(
        f_0: Vec<(usize, usize)>,
        x_up: Vec<usize>,
        x: Vec<usize>,
        v_up: i64,
        v_up_num: i64,
        v_up_den: i64,
        v_low: i64,
        critical: Option<CriticalPick>,
        relaxed: Vec<GroupEnvelope>,
    ) -> (r: LPRelaxationResult)
        ensures
            r == (LPRelaxationResult {
                f_0,
                x_up,
                x,
                v_up,
                v_up_num,
                v_up_den,
                v_low,
                critical,
                relaxed,
            }),
    {
        LPRelaxationResult { f_0, x_up, x, v_up, v_up_num, v_up_den, v_low, critical, relaxed }
    }

    /// The record of a run on which no preprocessing happened.
    pub fn empty() -> (r: LPRelaxationResult)
        ensures
            r.f_0@ =~= Seq::<(usize, usize)>::empty(),
            r.x_up@ =~= Seq::<usize>::empty(),
            r.x@ =~= Seq::<usize>::empty(),
            r.v_up == 0,
            r.v_up_num == 0,
            r.v_up_den == 1,
            r.v_low == 0,
            r.critical is None,
            r.relaxed@ =~= Seq::<GroupEnvelope>::empty(),
    {
        LPRelaxationResult {
            f_0: Vec::new(),
            x_up: Vec::new(),
            x: Vec::new(),
            v_up: 0,
            v_up_num: 0,
            v_up_den: 1,
            v_low: 0,
            critical: None,
            relaxed: Vec::new(),
        }
    }
}

} // verus!
