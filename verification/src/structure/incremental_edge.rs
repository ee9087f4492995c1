//! Incremental edges: the envelope preprocessor's currency.

use vstd::prelude::*;

verus! {

use crate::structure::item_valid;
use crate::structure::problem::{Item, VALUE_LIMIT};

/// One surviving breakpoint of a group's upper concave envelope: the gain and
/// cost increments from the previous surviving point to tier `tier` of group
/// `group`. Its efficiency is the exact rational `delta_gain / delta_cost`;
/// a zero `delta_cost` with positive `delta_gain` stands for the sentinel
/// "infinitely efficient" and is never divided.
#[derive(Debug, Clone, Copy, PartialEq, Eq, Structural)]
pub struct IncrementalEdge {
    pub group: usize,
    pub tier: usize,
    pub delta_gain: i64,
    pub delta_cost: i64,
}

impl IncrementalEdge {
    /// A usable edge strictly improves the gain, never reduces remaining
    /// capacity below what its tier costs, and stays within coordinate bounds.
    pub open spec fn valid(self) -> bool {
        &&& 1 <= self.delta_gain <= VALUE_LIMIT
        &&& 0 <= self.delta_cost <= VALUE_LIMIT
        &&& self.tier < 3
    }
}

/// One group's share of the preprocessor's output: the tiers discarded as
/// dominated, and the incremental edges between the surviving breakpoints.
#[derive(Debug, Clone)]
pub struct GroupEnvelope {
    pub dominated: Vec<usize>,
    pub edges: Vec<IncrementalEdge>,
}

/// The gain of point `i` of a group: tier `i`, or the origin for `-1`.
pub open spec fn pt_gain(items: Seq<Item>, i: int) -> int {
    if i < 0 {
        0
    } else {
        items[i].gain as int
    }
}

/// The cost of point `i` of a group: tier `i`, or the origin for `-1`.
pub open spec fn pt_cost(items: Seq<Item>, i: int) -> int {
    if i < 0 {
        0
    } else {
        items[i].cost as int
    }
}

/// Point `a` renders point `b` useless: it costs no more and gains no less,
/// and is strictly better in one coordinate (or, between identical points,
/// comes earlier).
pub open spec fn dominates_pt(items: Seq<Item>, a: int, b: int) -> bool {
    &&& pt_cost(items, a) <= pt_cost(items, b)
    &&& pt_gain(items, a) >= pt_gain(items, b)
    &&& (pt_cost(items, a) < pt_cost(items, b) || pt_gain(items, a) > pt_gain(items, b) || a < b)
}

/// Tier `t` lies on or below the segment between two other points of its
/// group (the origin included): a convex combination of them is at least as
/// good, so `t` can never appear in a fractional-optimal solution.
pub open spec fn below_segment(items: Seq<Item>, t: int, a: int, b: int) -> bool {
    &&& -1 <= a < items.len()
    &&& -1 <= b < items.len()
    &&& a != t && b != t
    &&& pt_cost(items, a) < pt_cost(items, t) < pt_cost(items, b)
    &&& (pt_gain(items, b) - pt_gain(items, a)) * (pt_cost(items, t) - pt_cost(items, a)) >= (
    pt_gain(items, t) - pt_gain(items, a)) * (pt_cost(items, b) - pt_cost(items, a))
}

/// Why a tier may be discarded: another point dominates it outright, or it
/// lies on or below a segment between two other points.
pub open spec fn dominated_pred(items: Seq<Item>, t: int) -> bool {
    ||| exists|a: int| -1 <= a < items.len() && a != t && #[trigger] dominates_pt(items, a, t)
    ||| exists|a: int, b: int| #[trigger] below_segment(items, t, a, b)
}

/// Cumulative gain of the first `j` edges of a chain.
pub open spec fn chain_gain(edges: Seq<IncrementalEdge>, j: int) -> int
    decreases j,
{
    if j <= 0 {
        0
    } else {
        chain_gain(edges, j - 1) + edges[j - 1].delta_gain
    }
}

/// Cumulative cost of the first `j` edges of a chain.
pub open spec fn chain_cost(edges: Seq<IncrementalEdge>, j: int) -> int
    decreases j,
{
    if j <= 0 {
        0
    } else {
        chain_cost(edges, j - 1) + edges[j - 1].delta_cost
    }
}

/// No other point (the origin included) dominates tier `s` outright.
pub open spec fn not_dominated(items: Seq<Item>, s: int) -> bool {
    &&& 0 <= s < items.len()
    &&& items[s].gain >= 1
    &&& forall|u: int| -1 <= u < items.len() && u != s ==> !#[trigger] dominates_pt(items, u, s)
}

/// What the envelope preprocessor guarantees for one group (`items` holds the
/// tiers under consideration): the dominated tiers and the edge tiers
/// partition the tiers; every edge is a valid increment between consecutive
/// surviving breakpoints (so the cumulative sums land exactly on its tier's
/// coordinates); efficiencies never increase along the chain; only the first
/// edge may be free; and every discarded tier is genuinely dominated.
pub open spec fn envelope_ok(
    group_id: int,
    items: Seq<Item>,
    dominated: Seq<usize>,
    edges: Seq<IncrementalEdge>,
) -> bool {
    &&& edges.len() + dominated.len() == items.len()
    &&& forall|j: int| 0 <= j < edges.len() ==> (#[trigger] edges[j]).valid()
    &&& forall|j: int| 0 <= j < edges.len() ==> (#[trigger] edges[j]).group == group_id
    &&& forall|j: int| 0 <= j < edges.len() ==> (#[trigger] edges[j]).tier < items.len()
    &&& forall|i: int, j: int|
        0 <= i < j < edges.len() ==> (#[trigger] edges[i]).tier != (#[trigger] edges[j]).tier
    &&& forall|j: int|
        0 <= j < edges.len() ==> chain_gain(edges, j + 1) == pt_gain(
            items,
            (#[trigger] edges[j]).tier as int,
        ) && chain_cost(edges, j + 1) == pt_cost(items, edges[j].tier as int)
    &&& forall|j: int| 0 <= j < edges.len() - 1 ==> eff_ge(#[trigger] edges[j], edges[j + 1])
    &&& forall|j: int| 1 <= j < edges.len() ==> (#[trigger] edges[j]).delta_cost >= 1
    &&& forall|k: int| 0 <= k < dominated.len() ==> (#[trigger] dominated[k]) < items.len()
    &&& forall|k: int, l: int|
        0 <= k < l < dominated.len() ==> (#[trigger] dominated[k]) != (#[trigger] dominated[l])
    &&& forall|k: int, j: int|
        0 <= k < dominated.len() && 0 <= j < edges.len() ==> (#[trigger] dominated[k]) != (
        #[trigger] edges[j]).tier
    &&& forall|k: int|
        0 <= k < dominated.len() ==> dominated_pred(items, (#[trigger] dominated[k]) as int)
}

/// Two undominated, distinct tiers are strictly ordered the same way in both
/// coordinates.
pub proof fn lemma_survivor_pair(items: Seq<Item>, a: int, b: int)
    requires
        not_dominated(items, a),
        not_dominated(items, b),
        a != b,
    ensures
        items[a].cost != items[b].cost,
        items[a].cost < items[b].cost <==> items[a].gain < items[b].gain,
{
    assert(!dominates_pt(items, a, b));
    assert(!dominates_pt(items, b, a));
}

/// The product of two values within `l` in magnitude stays within `l * l`.
pub proof fn lemma_mul_abs(x: int, y: int, l: int)
    requires
        -l <= x <= l,
        -l <= y <= l,
        0 <= l,
    ensures
        -(l * l) <= x * y <= l * l,
{
    assert(-(l * l) <= x * y <= l * l) by (nonlinear_arith)
        requires
            -l <= x <= l,
            -l <= y <= l,
            0 <= l,
    {}
}

/// The product of two non-negative values within their own bounds stays
/// within the product of the bounds.
pub proof fn lemma_mul_bounds(x: int, y: int, lx: int, ly: int)
    requires
        0 <= x <= lx,
        0 <= y <= ly,
    ensures
        0 <= x * y <= lx * ly,
{
    assert(0 <= x * y <= lx * ly) by (nonlinear_arith)
        requires
            0 <= x <= lx,
            0 <= y <= ly,
    {}
}

/// `a` is at least as efficient as `b`: `a.delta_gain / a.delta_cost >=
/// b.delta_gain / b.delta_cost`, compared exactly by cross-multiplication so
/// that a zero denominator (the infinite sentinel) needs no special case.
pub open spec fn eff_ge(a: IncrementalEdge, b: IncrementalEdge) -> bool {
    a.delta_gain * b.delta_cost >= b.delta_gain * a.delta_cost
}

/// The product of two coordinates within `lim` stays within `lim * lim`.
pub proof fn lemma_mul_le(x: int, y: int, lim: int)
    requires
        0 <= x <= lim,
        0 <= y <= lim,
    ensures
        0 <= x * y <= lim * lim,
{
    assert(0 <= x * y <= lim * lim) by (nonlinear_arith)
        requires
            0 <= x <= lim,
            0 <= y <= lim,
    {}
}

/// Executable form of `eff_ge`.
pub fn eff_ge_exec(a: &IncrementalEdge, b: &IncrementalEdge) -> (r: bool)
    requires
        a.valid(),
        b.valid(),
    ensures
        r == eff_ge(*a, *b),
{
    proof {
        lemma_mul_le(a.delta_gain as int, b.delta_cost as int, VALUE_LIMIT as int);
        lemma_mul_le(b.delta_gain as int, a.delta_cost as int, VALUE_LIMIT as int);
    }
    a.delta_gain * b.delta_cost >= b.delta_gain * a.delta_cost
}

/// Efficiency comparison is total: one of the two directions always holds.
pub proof fn lemma_eff_ge_total(a: IncrementalEdge, b: IncrementalEdge)
    ensures
        eff_ge(a, b) || eff_ge(b, a),
{
}

/// Efficiency comparison is transitive on valid edges.
pub proof fn lemma_eff_ge_trans(a: IncrementalEdge, b: IncrementalEdge, c: IncrementalEdge)
    requires
        a.valid(),
        b.valid(),
        c.valid(),
        eff_ge(a, b),
        eff_ge(b, c),
    ensures
        eff_ge(a, c),
{
    if b.delta_cost > 0 {
        assert(eff_ge(a, c)) by (nonlinear_arith)
            requires
                a.delta_gain * b.delta_cost >= b.delta_gain * a.delta_cost,
                b.delta_gain * c.delta_cost >= c.delta_gain * b.delta_cost,
                b.delta_cost > 0,
                a.delta_gain >= 1,
                b.delta_gain >= 1,
                c.delta_gain >= 1,
                a.delta_cost >= 0,
                b.delta_cost >= 0,
                c.delta_cost >= 0,
        {}
    } else {
        // b has the infinite sentinel efficiency; a must have it too.
        assert(eff_ge(a, c)) by (nonlinear_arith)
            requires
                a.delta_gain * b.delta_cost >= b.delta_gain * a.delta_cost,
                b.delta_cost == 0,
                a.delta_gain >= 1,
                b.delta_gain >= 1,
                c.delta_gain >= 1,
                a.delta_cost >= 0,
                c.delta_cost >= 0,
        {}
    }
}

} // verus!
