//! The result of a run: the chosen items and the totals they add up to.

use vstd::prelude::*;

verus! {

use crate::structure::problem::Item;

/// The single best assignment retained across generations, plus how many
/// generations the run consumed.
#[derive(Debug, Clone)]
pub struct Solution {
    pub cost: i64,
    pub data: Vec<Item>,
    pub fitness: i64,
    pub generations: u32,
}

impl Solution {
    /// Wraps the chosen items and their totals as a solution record.
    pub fn make_solution(data: Vec<Item>, fitness: i64, cost: i64, generations: u32) -> (s:
        Solution)
        ensures
            s.data == data,
            s.fitness == fitness,
            s.cost == cost,
            s.generations == generations,
    {
        Solution { cost, data, fitness, generations }
    }
}

} // verus!
