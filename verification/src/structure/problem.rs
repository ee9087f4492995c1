//! The problem instance: a shared capacity and an ordered list of groups,
//! each offering exactly three investment tiers.

use vstd::prelude::*;

verus! {

use crate::structure::item_valid;

/// Coordinate bound for gains and costs. Keeping every coordinate within it
/// lets the solver add up to `i32::MAX` of them, and cross-multiply any two,
/// without leaving `i64`.
pub const VALUE_LIMIT: i64 = 1_000_000_000;

/// One investment tier: the gain it yields and the capacity it consumes.
#[derive(Debug, Clone, Copy, PartialEq, Eq, Structural)]
pub struct Item {
    pub gain: i64,
    pub cost: i64,
}

/// A problem instance, immutable for the duration of a run.
#[derive(Debug, Clone)]
pub struct Problem {
    pub capacity: u32,
    pub data: Vec<Vec<Item>>,
    pub size: i32,
}

impl Problem {
    /// Well-formedness: `size` counts the groups, each group offers exactly
    /// three tiers, and every coordinate is within `VALUE_LIMIT`.
    pub open spec fn wf(self) -> bool {
        &&& self.size == self.data@.len()
        &&& forall|g: int|
            0 <= g < self.data@.len() ==> (#[trigger] self.data@[g])@.len() == 3
        &&& forall|g: int, k: int|
            0 <= g < self.data@.len() && 0 <= k < self.data@[g]@.len() ==> item_valid(
                #[trigger] self.data@[g]@[k],
            )
    }

    /// The sum of every gain in the instance: no assignment can yield more.
    pub open spec fn total_gain(self) -> int {
        total_gain_prefix(self.data@, self.data@.len() as int)
    }
}

/// The sum of all gains in groups `0 .. n`.
pub open spec fn total_gain_prefix(data: Seq<Vec<Item>>, n: int) -> int
    decreases n,
{
    if n <= 0 {
        0
    } else {
        total_gain_prefix(data, n - 1) + group_gain_sum(data[n - 1]@)
    }
}

/// The sum of the gains of one group's tiers.
pub open spec fn group_gain_sum(group: Seq<Item>) -> int
    decreases group.len(),
{
    if group.len() == 0 {
        0
    } else {
        group_gain_sum(group.drop_last()) + group.last().gain
    }
}

} // verus!
