//! The data model: items, problems, and the constructors shared by the
//! parser, the preprocessor and the genetic engine.

pub mod chromosome;
pub mod incremental_edge;
pub mod configuration;
pub mod fix_result;
pub mod problem;
pub mod relaxation_result;
pub mod solution;

use vstd::prelude::*;

verus! {

use crate::structure::problem::{Item, Problem, VALUE_LIMIT};

/// Builds a problem from its parts.
pub fn make_problem(capacity: u32, data: Vec<Vec<Item>>, size: i32) -> (p: Problem)
    ensures
        p.capacity == capacity,
        p.data == data,
        p.size == size,
{
    Problem { capacity, data, size }
}

/// Builds one investment tier. Efficiency ratios are never stored: every
/// comparison of two ratios is done exactly, by cross-multiplication.
pub fn make_item(gain: i64, cost: i64) -> (it: Item)
    ensures
        it.gain == gain,
        it.cost == cost,
{
    Item { gain, cost }
}

/// Some entry of `s` names group `g` (with any tier).
pub open spec fn set_has_group(s: Seq<(usize, usize)>, g: int) -> bool {
    exists|k: int| 0 <= k < s.len() && s[k].0 == g
}

/// Some entry of `s` is exactly `(g, t)`.
pub open spec fn set_has_pair(s: Seq<(usize, usize)>, g: int, t: int) -> bool {
    exists|k: int| 0 <= k < s.len() && s[k] == (g as usize, t as usize)
}

/// An element-wise copy of a vector of plain values.
pub fn clone_copy_vec<T: Copy>(v: &Vec<T>) -> (r: Vec<T>)
    ensures
        r@ == v@,
{
    let mut r: Vec<T> = Vec::new();
    let mut i: usize = 0;
    while i < v.len()
        invariant
            i <= v@.len(),
            r@ == v@.subrange(0, i as int),
        decreases v@.len() - i,
    {
        r.push(v[i]);
        i = i + 1;
        proof {
            assert(r@ =~= v@.subrange(0, i as int));
        }
    }
    proof {
        assert(r@ =~= v@);
    }
    r
}

/// A deep copy of a problem: same capacity and size, and every group holds
/// the same items.
pub fn clone_problem(p: &Problem) -> (r: Problem)
    ensures
        r.capacity == p.capacity,
        r.size == p.size,
        r.data@.len() == p.data@.len(),
        forall|g: int| 0 <= g < p.data@.len() ==> (#[trigger] r.data@[g])@ == p.data@[g]@,
        p.wf() ==> r.wf(),
{
    let mut data: Vec<Vec<Item>> = Vec::new();
    let mut g: usize = 0;
    while g < p.data.len()
        invariant
            g <= p.data@.len(),
            data@.len() == g,
            forall|j: int| 0 <= j < g ==> (#[trigger] data@[j])@ == p.data@[j]@,
        decreases p.data@.len() - g,
    {
        data.push(clone_copy_vec(&p.data[g]));
        g = g + 1;
    }
    Problem { capacity: p.capacity, data, size: p.size }
}

/// An item is valid when both coordinates are non-negative and small enough
/// that every sum and cross-product the solver forms fits in 64 bits.
pub open spec fn item_valid(it: Item) -> bool {
    0 <= it.gain <= VALUE_LIMIT && 0 <= it.cost <= VALUE_LIMIT
}

} // verus!
