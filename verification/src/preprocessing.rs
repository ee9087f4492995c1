//! The LP-relaxation preprocessor: per-group concave-envelope reduction, a
//! fractional greedy filler yielding the bounds, and reduced-cost fixing.

use rayon::iter::{IndexedParallelIterator, IntoParallelRefIterator, ParallelIterator};
use vstd::prelude::*;

verus! {

use crate::genetic::{genes_sum, lemma_all_zero_assignment, lemma_genes_sum_nonneg, lemma_genes_sum_update};
use crate::structure::chromosome::{
    chromosome_cost, chromosome_gain, cost_prefix, gain_prefix, gene_cost, gene_gain, genes_wf,
    lemma_prefix_update,
};
use crate::structure::clone_copy_vec;
use crate::structure::fix_result::UBFixResult;
use crate::structure::incremental_edge::{
    below_segment, chain_cost, chain_gain, dominated_pred, dominates_pt, eff_ge, eff_ge_exec,
    envelope_ok,
    lemma_mul_abs, lemma_mul_bounds, lemma_survivor_pair, not_dominated, pt_cost, pt_gain,
    GroupEnvelope, IncrementalEdge,
};

/// The hull point left of breakpoint `k` of the scan stack: its predecessor
/// on the stack, or the origin under the first breakpoint.
pub open spec fn prev_of(stack: Seq<usize>, k: int) -> int {
    if k <= 0 {
        -1
    } else {
        stack[k - 1] as int
    }
}

/// Appending an edge leaves the cumulative sums of the existing prefix alone.
pub proof fn lemma_chain_push(edges: Seq<IncrementalEdge>, e: IncrementalEdge, j: int)
    requires
        0 <= j <= edges.len(),
    ensures
        chain_gain(edges.push(e), j) == chain_gain(edges, j),
        chain_cost(edges.push(e), j) == chain_cost(edges, j),
    decreases j,
{
    if j > 0 {
        lemma_chain_push(edges, e, j - 1);
    }
}
use crate::structure::item_valid;
use crate::structure::problem::{Item, Problem, VALUE_LIMIT};
use crate::structure::relaxation_result::{CriticalPick, LPRelaxationResult};
use crate::structure::set_has_pair;

/// Whether tier `a` renders tier `b` useless, decided exactly.
fn dominates_pt_exec(items: &Vec<Item>, a: usize, b: usize) -> (r: bool)
    requires
        a < items@.len(),
        b < items@.len(),
    ensures
        r == dominates_pt(items@, a as int, b as int),
{
    let ia = items[a];
    let ib = items[b];
    ia.cost <= ib.cost && ia.gain >= ib.gain && (ia.cost < ib.cost || ia.gain > ib.gain || a < b)
}

/// Whether the slope from `(pg, pc)` to `(tg, tc)` is strictly smaller than
/// the slope from `(tg, tc)` to `(sg, sc)`, decided by cross-multiplication.
fn slope_lt_exec(pg: i64, pc: i64, tg: i64, tc: i64, sg: i64, sc: i64) -> (r: bool)
    requires
        0 <= pg <= VALUE_LIMIT,
        0 <= pc <= VALUE_LIMIT,
        0 <= tg <= VALUE_LIMIT,
        0 <= tc <= VALUE_LIMIT,
        0 <= sg <= VALUE_LIMIT,
        0 <= sc <= VALUE_LIMIT,
    ensures
        r == ((tg - pg) * (sc - tc) < (sg - tg) * (tc - pc)),
{
    proof {
        lemma_mul_abs(tg - pg, sc - tc, VALUE_LIMIT as int);
        lemma_mul_abs(sg - tg, tc - pc, VALUE_LIMIT as int);
    }
    (tg - pg) * (sc - tc) < (sg - tg) * (tc - pc)
}

/// Computes the upper concave envelope of one group: the points are the
/// origin and the group's first `n_tiers` tiers; tiers strictly inside the
/// hull are discarded as dominated, and consecutive surviving breakpoints
/// yield the group's incremental edges, of non-increasing efficiency.
pub fn envelope_group(group_id: usize, items: &Vec<Item>, n_tiers: usize) -> (r: GroupEnvelope)
    requires
        n_tiers <= items@.len(),
        n_tiers <= 3,
        forall|k: int| 0 <= k < items@.len() ==> item_valid(#[trigger] items@[k]),
    ensures
        envelope_ok(group_id as int, items@.subrange(0, n_tiers as int), r.dominated@, r.edges@),
{
    let ghost sub = items@.subrange(0, n_tiers as int);
    proof {
        assert(forall|k: int| 0 <= k < n_tiers ==> #[trigger] sub[k] == items@[k]);
    }
    let mut dominated: Vec<usize> = Vec::new();
    let mut survivors: Vec<usize> = Vec::new();
    // Discard tiers another point dominates outright.
    let mut t: usize = 0;
    while t < n_tiers
        invariant
            n_tiers <= items@.len(),
            n_tiers <= 3,
            sub == items@.subrange(0, n_tiers as int),
            forall|q: int| 0 <= q < items@.len() ==> item_valid(#[trigger] items@[q]),
            t <= n_tiers,
            dominated@.len() + survivors@.len() == t,
            forall|k: int| 0 <= k < dominated@.len() ==> (#[trigger] dominated@[k]) < t,
            forall|k: int, l: int|
                0 <= k < l < dominated@.len() ==> (#[trigger] dominated@[k]) != (
                #[trigger] dominated@[l]),
            forall|k: int|
                0 <= k < dominated@.len() ==> dominated_pred(sub, (#[trigger] dominated@[k]) as int),
            forall|k: int| 0 <= k < survivors@.len() ==> (#[trigger] survivors@[k]) < t,
            forall|k: int, l: int|
                0 <= k < l < survivors@.len() ==> (#[trigger] survivors@[k]) != (
                #[trigger] survivors@[l]),
            forall|k: int|
                0 <= k < survivors@.len() ==> not_dominated(sub, (#[trigger] survivors@[k]) as int),
            forall|k: int, l: int|
                0 <= k < dominated@.len() && 0 <= l < survivors@.len() ==> (
                #[trigger] dominated@[k]) != (#[trigger] survivors@[l]),
        decreases n_tiers - t,
    {
        let mut is_dom = items[t].gain <= 0;
        proof {
            if items@[t as int].gain <= 0 {
                assert(dominates_pt(sub, -1, t as int));
                assert(dominated_pred(sub, t as int));
            }
        }
        let mut u: usize = 0;
        while u < n_tiers
            invariant
                n_tiers <= items@.len(),
                n_tiers <= 3,
                sub == items@.subrange(0, n_tiers as int),
                forall|q: int| 0 <= q < items@.len() ==> item_valid(#[trigger] items@[q]),
                t < n_tiers,
                u <= n_tiers,
                is_dom ==> dominated_pred(sub, t as int),
                !is_dom ==> sub[t as int].gain >= 1,
                !is_dom ==> forall|w: int|
                    0 <= w < u && w != t ==> !#[trigger] dominates_pt(sub, w, t as int),
            decreases n_tiers - u,
        {
            if u != t {
                if dominates_pt_exec(items, u, t) {
                    is_dom = true;
                    proof {
                        assert(dominates_pt(sub, u as int, t as int));
                        assert(dominated_pred(sub, t as int));
                    }
                }
            }
            u = u + 1;
        }
        if is_dom {
            dominated.push(t);
        } else {
            proof {
                assert(not_dominated(sub, t as int)) by {
                    assert(!dominates_pt(sub, -1, t as int));
                }
            }
            survivors.push(t);
        }
        t = t + 1;
    }
    // Order the survivors by cost. Undominated tiers have pairwise distinct
    // costs, so the order is strict.
    proof {
        if survivors@.len() >= 2 {
            lemma_survivor_pair(sub, survivors@[0] as int, survivors@[1] as int);
        }
        if survivors@.len() == 3 {
            lemma_survivor_pair(sub, survivors@[0] as int, survivors@[2] as int);
            lemma_survivor_pair(sub, survivors@[1] as int, survivors@[2] as int);
        }
    }
    if survivors.len() >= 2 {
        if items[survivors[1]].cost < items[survivors[0]].cost {
            let a = survivors[0];
            let b = survivors[1];
            survivors.set(0, b);
            survivors.set(1, a);
        }
        if survivors.len() == 3 {
            if items[survivors[2]].cost < items[survivors[1]].cost {
                let a = survivors[1];
                let b = survivors[2];
                survivors.set(1, b);
                survivors.set(2, a);
            }
            if items[survivors[1]].cost < items[survivors[0]].cost {
                let a = survivors[0];
                let b = survivors[1];
                survivors.set(0, b);
                survivors.set(1, a);
            }
        }
    }
    proof {
        assert forall|k: int, l: int|
            0 <= k < l < survivors@.len() implies sub[(#[trigger] survivors@[k]) as int].cost < sub[(
        #[trigger] survivors@[l]) as int].cost by {
            lemma_survivor_pair(sub, survivors@[k] as int, survivors@[l] as int);
        }
    }
    let ghost svs = survivors@;
    // Upper-hull scan: pop breakpoints that fall on or below the segment
    // between their neighbours.
    let mut stack: Vec<usize> = Vec::new();
    let mut si: usize = 0;
    while si < survivors.len()
        invariant
            n_tiers <= items@.len(),
            n_tiers <= 3,
            sub == items@.subrange(0, n_tiers as int),
            forall|q: int| 0 <= q < items@.len() ==> item_valid(#[trigger] items@[q]),
            forall|j2: int|
                0 <= j2 < svs.len() ==> (#[trigger] svs[j2]) < n_tiers && not_dominated(
                    sub,
                    svs[j2] as int,
                ),
            forall|i2: int, j2: int|
                0 <= i2 < j2 < svs.len() ==> (#[trigger] svs[i2]) != (#[trigger] svs[j2]) && sub[(
                svs[i2]) as int].cost < sub[(svs[j2]) as int].cost,
            si <= svs.len(),
            survivors@ == svs,
            stack@.len() + dominated@.len() + (svs.len() - si) == n_tiers,
            forall|k: int| 0 <= k < stack@.len() ==> (#[trigger] stack@[k]) < n_tiers,
            forall|k: int|
                0 <= k < stack@.len() ==> not_dominated(sub, (#[trigger] stack@[k]) as int),
            forall|k: int, l: int|
                0 <= k < l < stack@.len() ==> sub[(#[trigger] stack@[k]) as int].cost < sub[(
                #[trigger] stack@[l]) as int].cost && sub[stack@[k] as int].gain < sub[stack@[l] as int].gain,
            forall|k: int, j: int|
                0 <= k < stack@.len() && si <= j < svs.len() ==> (#[trigger] stack@[k]) != (
                #[trigger] svs[j]) && sub[stack@[k] as int].cost < sub[svs[j] as int].cost,
            forall|k: int|
                0 <= k < stack@.len() - 1 ==> (pt_gain(sub, stack@[k] as int) - pt_gain(
                    sub,
                    prev_of(stack@, k),
                )) * (pt_cost(sub, stack@[k + 1] as int) - pt_cost(sub, stack@[k] as int)) >= (
                pt_gain(sub, stack@[k + 1] as int) - pt_gain(sub, (#[trigger] stack@[k]) as int)) * (
                pt_cost(sub, stack@[k] as int) - pt_cost(sub, prev_of(stack@, k))),
            forall|k: int| 0 <= k < dominated@.len() ==> (#[trigger] dominated@[k]) < n_tiers,
            forall|k: int, l: int|
                0 <= k < l < dominated@.len() ==> (#[trigger] dominated@[k]) != (
                #[trigger] dominated@[l]),
            forall|k: int|
                0 <= k < dominated@.len() ==> dominated_pred(sub, (#[trigger] dominated@[k]) as int),
            forall|k: int, l: int|
                0 <= k < dominated@.len() && 0 <= l < stack@.len() ==> (#[trigger] dominated@[k])
                    != (#[trigger] stack@[l]),
            forall|k: int, j: int|
                0 <= k < dominated@.len() && si <= j < svs.len() ==> (#[trigger] dominated@[k]) != (
                #[trigger] svs[j]),
        decreases svs.len() - si,
    {
        let s = survivors[si];
        loop
            invariant
                n_tiers <= items@.len(),
                n_tiers <= 3,
                sub == items@.subrange(0, n_tiers as int),
                forall|q: int| 0 <= q < items@.len() ==> item_valid(#[trigger] items@[q]),
                forall|j2: int|
                    0 <= j2 < svs.len() ==> (#[trigger] svs[j2]) < n_tiers && not_dominated(
                        sub,
                        svs[j2] as int,
                    ),
                forall|i2: int, j2: int|
                    0 <= i2 < j2 < svs.len() ==> (#[trigger] svs[i2]) != (#[trigger] svs[j2]) && sub[(
                    svs[i2]) as int].cost < sub[(svs[j2]) as int].cost,
                si < svs.len(),
                survivors@ == svs,
                s == svs[si as int],
                stack@.len() + dominated@.len() + (svs.len() - si) == n_tiers,
                forall|k: int| 0 <= k < stack@.len() ==> (#[trigger] stack@[k]) < n_tiers,
                forall|k: int|
                    0 <= k < stack@.len() ==> not_dominated(sub, (#[trigger] stack@[k]) as int),
                forall|k: int, l: int|
                    0 <= k < l < stack@.len() ==> sub[(#[trigger] stack@[k]) as int].cost < sub[(
                    #[trigger] stack@[l]) as int].cost && sub[stack@[k] as int].gain < sub[stack@[l] as int].gain,
                forall|k: int, j: int|
                    0 <= k < stack@.len() && si <= j < svs.len() ==> (#[trigger] stack@[k]) != (
                    #[trigger] svs[j]) && sub[stack@[k] as int].cost < sub[svs[j] as int].cost,
                forall|k: int|
                    0 <= k < stack@.len() - 1 ==> (pt_gain(sub, stack@[k] as int) - pt_gain(
                        sub,
                        prev_of(stack@, k),
                    )) * (pt_cost(sub, stack@[k + 1] as int) - pt_cost(sub, stack@[k] as int)) >= (
                    pt_gain(sub, stack@[k + 1] as int) - pt_gain(sub, (#[trigger] stack@[k]) as int))
                    * (pt_cost(sub, stack@[k] as int) - pt_cost(sub, prev_of(stack@, k))),
                forall|k: int| 0 <= k < dominated@.len() ==> (#[trigger] dominated@[k]) < n_tiers,
                forall|k: int, l: int|
                    0 <= k < l < dominated@.len() ==> (#[trigger] dominated@[k]) != (
                    #[trigger] dominated@[l]),
                forall|k: int|
                    0 <= k < dominated@.len() ==> dominated_pred(
                        sub,
                        (#[trigger] dominated@[k]) as int,
                    ),
                forall|k: int, l: int|
                    0 <= k < dominated@.len() && 0 <= l < stack@.len() ==> (
                    #[trigger] dominated@[k]) != (#[trigger] stack@[l]),
                forall|k: int, j: int|
                    0 <= k < dominated@.len() && si <= j < svs.len() ==> (#[trigger] dominated@[k])
                        != (#[trigger] svs[j]),
            ensures
                stack@.len() == 0 || !((pt_gain(sub, stack@[stack@.len() - 1] as int) - pt_gain(
                    sub,
                    prev_of(stack@, stack@.len() - 1),
                )) * (pt_cost(sub, s as int) - pt_cost(sub, stack@[stack@.len() - 1] as int)) < (
                pt_gain(sub, s as int) - pt_gain(sub, stack@[stack@.len() - 1] as int)) * (pt_cost(
                    sub,
                    stack@[stack@.len() - 1] as int,
                ) - pt_cost(sub, prev_of(stack@, stack@.len() - 1)))),
            decreases stack@.len(),
        {
            if stack.len() == 0 {
                break ;
            }
            let top = stack[stack.len() - 1];
            let (pg, pc): (i64, i64) = if stack.len() >= 2 {
                let prev = stack[stack.len() - 2];
                (items[prev].gain, items[prev].cost)
            } else {
                (0, 0)
            };
            let ghost pidx = prev_of(stack@, stack@.len() - 1);
            proof {
                assert(pg == pt_gain(sub, pidx) && pc == pt_cost(sub, pidx));
            }
            if slope_lt_exec(pg, pc, items[top].gain, items[top].cost, items[s].gain, items[s].cost)
             {
                // The top breakpoint lies strictly below the segment from its
                // left neighbour to the incoming point: discard it.
                proof {
                    let ti = top as int;
                    let si_ = s as int;
                    let kk = stack@.len() - 1;
                    assert(top == stack@[kk]);
                    assert(not_dominated(sub, ti));
                    // The left neighbour lies strictly below and to the left.
                    assert(pt_gain(sub, pidx) < pt_gain(sub, ti) && pt_cost(sub, pidx) <= pt_cost(
                        sub,
                        ti,
                    )) by {
                        if kk >= 1 {
                            assert(pidx == stack@[kk - 1]);
                            assert(sub[stack@[kk - 1] as int].gain < sub[stack@[kk] as int].gain);
                            assert(sub[stack@[kk - 1] as int].cost < sub[stack@[kk] as int].cost);
                        } else {
                            assert(pidx == -1);
                            assert(item_valid(sub[ti]));
                        }
                    }
                    assert(pt_cost(sub, ti) < pt_cost(sub, si_));
                    assert(pt_cost(sub, pidx) < pt_cost(sub, ti)) by {
                        if pt_cost(sub, pidx) == pt_cost(sub, ti) {
                            assert((pt_gain(sub, ti) - pt_gain(sub, pidx)) * (pt_cost(sub, si_)
                                - pt_cost(sub, ti)) >= 1) by (nonlinear_arith)
                                requires
                                    pt_gain(sub, ti) - pt_gain(sub, pidx) >= 1,
                                    pt_cost(sub, si_) - pt_cost(sub, ti) >= 1,
                            {}
                            assert((pt_gain(sub, si_) - pt_gain(sub, ti)) * (pt_cost(sub, ti)
                                - pt_cost(sub, pidx)) == 0) by (nonlinear_arith)
                                requires
                                    pt_cost(sub, ti) - pt_cost(sub, pidx) == 0,
                            {}
                        }
                    }
                    assert(below_segment(sub, ti, pidx, si_)) by {
                        assert((pt_gain(sub, si_) - pt_gain(sub, pidx)) * (pt_cost(sub, ti)
                            - pt_cost(sub, pidx)) >= (pt_gain(sub, ti) - pt_gain(sub, pidx)) * (
                        pt_cost(sub, si_) - pt_cost(sub, pidx))) by (nonlinear_arith)
                            requires
                                (pt_gain(sub, ti) - pt_gain(sub, pidx)) * (pt_cost(sub, si_)
                                    - pt_cost(sub, ti)) < (pt_gain(sub, si_) - pt_gain(sub, ti)) * (
                                pt_cost(sub, ti) - pt_cost(sub, pidx)),
                        {}
                    }
                    assert(dominated_pred(sub, ti));
                }
                dominated.push(top);
                stack.pop();
            } else {
                break ;
            }
        }
        proof {
            if stack@.len() >= 1 {
                let k = stack@.len() - 1;
                lemma_survivor_pair(sub, stack@[k] as int, s as int);
            }
        }
        stack.push(s);
        si = si + 1;
    }
    // Emit the incremental edges between consecutive surviving breakpoints.
    let mut edges: Vec<IncrementalEdge> = Vec::new();
    let mut prev_gain: i64 = 0;
    let mut prev_cost: i64 = 0;
    let mut k: usize = 0;
    while k < stack.len()
        invariant
            n_tiers <= items@.len(),
            n_tiers <= 3,
            sub == items@.subrange(0, n_tiers as int),
            forall|q: int| 0 <= q < items@.len() ==> item_valid(#[trigger] items@[q]),
            forall|j: int|
                0 <= j < stack@.len() ==> (#[trigger] stack@[j]) < n_tiers && not_dominated(
                    sub,
                    stack@[j] as int,
                ),
            forall|i2: int, j2: int|
                0 <= i2 < j2 < stack@.len() ==> sub[(#[trigger] stack@[i2]) as int].cost < sub[(
                #[trigger] stack@[j2]) as int].cost && sub[stack@[i2] as int].gain < sub[stack@[j2] as int].gain,
            forall|j: int|
                0 <= j < stack@.len() - 1 ==> (pt_gain(sub, stack@[j] as int) - pt_gain(
                    sub,
                    prev_of(stack@, j),
                )) * (pt_cost(sub, stack@[j + 1] as int) - pt_cost(sub, stack@[j] as int)) >= (
                pt_gain(sub, stack@[j + 1] as int) - pt_gain(sub, (#[trigger] stack@[j]) as int)) * (
                pt_cost(sub, stack@[j] as int) - pt_cost(sub, prev_of(stack@, j))),
            k <= stack@.len(),
            edges@.len() == k,
            forall|j: int| 0 <= j < k ==> (#[trigger] edges@[j]).tier == stack@[j],
            forall|j: int| 0 <= j < k ==> (#[trigger] edges@[j]).valid(),
            forall|j: int| 0 <= j < k ==> (#[trigger] edges@[j]).group == group_id,
            forall|j: int| 1 <= j < k ==> (#[trigger] edges@[j]).delta_cost >= 1,
            k == 0 ==> prev_gain == 0 && prev_cost == 0,
            k >= 1 ==> prev_gain == pt_gain(sub, stack@[k - 1] as int) && prev_cost == pt_cost(
                sub,
                stack@[k - 1] as int,
            ),
            chain_gain(edges@, k as int) == prev_gain,
            chain_cost(edges@, k as int) == prev_cost,
            forall|j: int|
                0 <= j < k ==> chain_gain(edges@, j + 1) == pt_gain(
                    sub,
                    (#[trigger] edges@[j]).tier as int,
                ) && chain_cost(edges@, j + 1) == pt_cost(sub, edges@[j].tier as int),
            forall|j: int| 0 <= j < k - 1 ==> eff_ge(#[trigger] edges@[j], edges@[j + 1]),
        decreases stack@.len() - k,
    {
        let s = stack[k];
        let e = IncrementalEdge {
            group: group_id,
            tier: s,
            delta_gain: items[s].gain - prev_gain,
            delta_cost: items[s].cost - prev_cost,
        };
        proof {
            if k >= 1 {
                assert(sub[stack@[k - 1] as int].cost < sub[s as int].cost);
                assert(sub[stack@[k - 1] as int].gain < sub[s as int].gain);
            }
        }
        let ghost old_edges = edges@;
        edges.push(e);
        prev_gain = items[s].gain;
        prev_cost = items[s].cost;
        proof {
            assert forall|j: int| 0 <= j <= k as int implies chain_gain(edges@, j) == chain_gain(
                old_edges,
                j,
            ) && chain_cost(edges@, j) == chain_cost(old_edges, j) by {
                lemma_chain_push(old_edges, e, j);
            }
            if k >= 1 {
                // The previous edge's increments are the differences between
                // its breakpoint and the one before it, so the new pair's
                // efficiency ordering is the stack's concavity at `k - 1`.
                let j = k - 1 as int;
                assert(chain_gain(edges@, j + 1) == chain_gain(edges@, j) + edges@[j].delta_gain);
                assert(chain_cost(edges@, j + 1) == chain_cost(edges@, j) + edges@[j].delta_cost);
                assert(edges@[j].delta_gain == pt_gain(sub, stack@[j] as int) - pt_gain(
                    sub,
                    prev_of(stack@, j),
                )) by {
                    if j >= 1 {
                        assert(chain_gain(edges@, j) == pt_gain(sub, edges@[j - 1].tier as int));
                        assert(edges@[j - 1].tier == stack@[j - 1]);
                    }
                }
                assert(edges@[j].delta_cost == pt_cost(sub, stack@[j] as int) - pt_cost(
                    sub,
                    prev_of(stack@, j),
                )) by {
                    if j >= 1 {
                        assert(chain_cost(edges@, j) == pt_cost(sub, edges@[j - 1].tier as int));
                        assert(edges@[j - 1].tier == stack@[j - 1]);
                    }
                }
                assert(edges@[k as int].delta_gain == pt_gain(sub, stack@[k as int] as int)
                    - pt_gain(sub, stack@[j] as int));
                assert(edges@[k as int].delta_cost == pt_cost(sub, stack@[k as int] as int)
                    - pt_cost(sub, stack@[j] as int));
                assert(eff_ge(edges@[j], edges@[k as int]));
            }
        }
        k = k + 1;
    }
    proof {
        assert(envelope_ok(group_id as int, sub, dominated@, edges@));
    }
    GroupEnvelope { dominated, edges }
}

/// A deep copy of one group's envelope.
pub fn clone_group_envelope(e: &GroupEnvelope) -> (c: GroupEnvelope)
    ensures
        c.dominated@ == e.dominated@,
        c.edges@ == e.edges@,
{
    GroupEnvelope { dominated: clone_copy_vec(&e.dominated), edges: clone_copy_vec(&e.edges) }
}

/// A deep copy of a grouped edge list.
pub fn clone_envelopes(v: &Vec<GroupEnvelope>) -> (c: Vec<GroupEnvelope>)
    ensures
        c@.len() == v@.len(),
        forall|g: int|
            0 <= g < v@.len() ==> (#[trigger] c@[g]).dominated@ == v@[g].dominated@
                && c@[g].edges@ == v@[g].edges@,
{
    let mut c: Vec<GroupEnvelope> = Vec::new();
    let mut g: usize = 0;
    while g < v.len()
        invariant
            g <= v@.len(),
            c@.len() == g,
            forall|j: int|
                0 <= j < g ==> (#[trigger] c@[j]).dominated@ == v@[j].dominated@ && c@[j].edges@
                    == v@[j].edges@,
        decreases v@.len() - g,
    {
        c.push(clone_group_envelope(&v[g]));
        g = g + 1;
    }
    c
}

/// A deep copy of a bound record: every field carries the same values.
pub fn clone_relaxation_result(r: &LPRelaxationResult) -> (c: LPRelaxationResult)
    ensures
        c.f_0@ == r.f_0@,
        c.x_up@ == r.x_up@,
        c.x@ == r.x@,
        c.v_up == r.v_up,
        c.v_up_num == r.v_up_num,
        c.v_up_den == r.v_up_den,
        c.v_low == r.v_low,
        c.critical == r.critical,
        c.relaxed@.len() == r.relaxed@.len(),
        forall|g: int|
            0 <= g < r.relaxed@.len() ==> (#[trigger] c.relaxed@[g]).dominated@
                == r.relaxed@[g].dominated@ && c.relaxed@[g].edges@ == r.relaxed@[g].edges@,
{
    LPRelaxationResult {
        f_0: clone_copy_vec(&r.f_0),
        x_up: clone_copy_vec(&r.x_up),
        x: clone_copy_vec(&r.x),
        v_up: r.v_up,
        v_up_num: r.v_up_num,
        v_up_den: r.v_up_den,
        v_low: r.v_low,
        critical: r.critical,
        relaxed: clone_envelopes(&r.relaxed),
    }
}

/// A deep copy of a fixing record: every field carries the same values.
pub fn clone_ub_fix_result(r: &UBFixResult) -> (c: UBFixResult)
    ensures
        c.f_1@ == r.f_1@,
        c.x_best@ == r.x_best@,
        c.v_best == r.v_best,
{
    UBFixResult {
        f_1: clone_copy_vec(&r.f_1),
        x_best: clone_copy_vec(&r.x_best),
        v_best: r.v_best,
    }
}

/// A deep copy of the whole preprocessing record.
pub fn clone_preprocessing_result(r: &PreprocessingResult) -> (c: PreprocessingResult)
    ensures
        c.relaxation_result.f_0@ == r.relaxation_result.f_0@,
        c.relaxation_result.x_up@ == r.relaxation_result.x_up@,
        c.relaxation_result.x@ == r.relaxation_result.x@,
        c.relaxation_result.v_up == r.relaxation_result.v_up,
        c.relaxation_result.v_low == r.relaxation_result.v_low,
        c.relaxation_result.critical == r.relaxation_result.critical,
        c.ub_fix_result.f_1@ == r.ub_fix_result.f_1@,
        c.ub_fix_result.x_best@ == r.ub_fix_result.x_best@,
        c.ub_fix_result.v_best == r.ub_fix_result.v_best,
{
    PreprocessingResult {
        relaxation_result: clone_relaxation_result(&r.relaxation_result),
        ub_fix_result: clone_ub_fix_result(&r.ub_fix_result),
    }
}

/// A pair stays in a pair set that grows by one entry.
proof fn lemma_set_has_pair_push(s: Seq<(usize, usize)>, p: (usize, usize), g: int, t: int)
    requires
        set_has_pair(s, g, t),
    ensures
        set_has_pair(s.push(p), g, t),
{
    let w = choose|w: int| 0 <= w < s.len() && s[w] == (g as usize, t as usize);
    assert(s.push(p)[w] == (g as usize, t as usize));
}

/// Some well-formed, feasible assignment of the problem attains gain `v`:
/// the bound is witnessed, so it never overstates what an integral solution
/// can reach.
pub open spec fn bound_witnessed(p: Problem, v: int) -> bool {
    exists|w: Seq<usize>|
        genes_wf(w, p) && chromosome_cost(p, w) <= p.capacity && #[trigger] chromosome_gain(p, w)
            == v
}

/// A group's mark selects nothing, or tier `mark - 1` carried by one of the
/// group's surviving chain edges: the fill never invents a tier.
pub open spec fn mark_on_chain(edges: Seq<IncrementalEdge>, mark: usize) -> bool {
    mark == 0 || exists|ci: int| 0 <= ci < edges.len() && mark == (#[trigger] edges[ci]).tier + 1
}

/// The critical pick's arithmetic: when a fill ends on a fractional pick,
/// some chain edge of the critical group carries its tier and denominator,
/// and the upper bound exceeds the lower by exactly the fraction of that
/// edge's gain (quotient and remainder).
pub open spec fn critical_fraction_ok(
    relaxed: Seq<GroupEnvelope>,
    critical: Option<CriticalPick>,
    v_low: int,
    v_up: int,
    v_up_num: int,
) -> bool {
    critical matches Some(c) ==> exists|ci: int|
        0 <= ci < relaxed[c.group as int].edges@.len() && (#[trigger] relaxed[
            c.group as int].edges@[ci]).tier == c.tier && c.den == relaxed[
            c.group as int].edges@[ci].delta_cost && v_up == v_low + (relaxed[
            c.group as int].edges@[ci].delta_gain as int * (c.num as int)) / (c.den as int)
            && v_up_num == (relaxed[c.group as int].edges@[ci].delta_gain as int * (
        c.num as int)) % (c.den as int)
}

/// One group's chain after discarding its dominated tiers: valid edges of
/// that group whose cumulative sums land exactly on their tier's coordinates
/// and whose efficiencies never increase along the chain.
pub open spec fn group_chain_ok(g: int, items: Seq<Item>, edges: Seq<IncrementalEdge>) -> bool {
    &&& edges.len() <= 3
    &&& forall|j: int| 0 <= j < edges.len() ==> (#[trigger] edges[j]).valid()
    &&& forall|j: int| 0 <= j < edges.len() ==> (#[trigger] edges[j]).group == g
    &&& forall|j: int| 0 <= j < edges.len() ==> (#[trigger] edges[j]).tier < items.len()
    &&& forall|j: int|
        0 <= j < edges.len() ==> chain_gain(edges, j + 1) == pt_gain(
            items,
            (#[trigger] edges[j]).tier as int,
        ) && chain_cost(edges, j + 1) == pt_cost(items, edges[j].tier as int)
    &&& forall|j: int| 0 <= j < edges.len() - 1 ==> eff_ge(#[trigger] edges[j], edges[j + 1])
}

/// Along a chain, every earlier edge is at least as efficient as every later
/// one.
proof fn lemma_chain_pairwise(edges: Seq<IncrementalEdge>, p: int, q: int)
    requires
        forall|j: int| 0 <= j < edges.len() ==> (#[trigger] edges[j]).valid(),
        forall|j: int| 0 <= j < edges.len() - 1 ==> eff_ge(#[trigger] edges[j], edges[j + 1]),
        0 <= p <= q < edges.len(),
    ensures
        eff_ge(edges[p], edges[q]),
    decreases q - p,
{
    if p < q {
        lemma_chain_pairwise(edges, p + 1, q);
        crate::structure::incremental_edge::lemma_eff_ge_trans(edges[p], edges[p + 1], edges[q]);
    }
}

/// An all-zero progress vector sums to zero.
proof fn lemma_zeros_sum(s: Seq<usize>, n: int)
    requires
        0 <= n <= s.len(),
        forall|i: int| 0 <= i < n ==> #[trigger] s[i] == 0,
    ensures
        genes_sum(s, n) == 0,
    decreases n,
{
    if n > 0 {
        lemma_zeros_sum(s, n - 1);
    }
}

/// With at most three edges per chain, total progress stays within `3 * n`.
proof fn lemma_heads_sum_bound(s: Seq<usize>, n: int)
    requires
        0 <= n <= s.len(),
        forall|i: int| 0 <= i < s.len() ==> #[trigger] s[i] <= 3,
    ensures
        genes_sum(s, n) <= 3 * n,
    decreases n,
{
    if n > 0 {
        lemma_heads_sum_bound(s, n - 1);
    }
}

/// Relies on rayon's parallel iterators: `par_iter().enumerate().map(..)
/// .collect()` applies the given closure (here the verified `envelope_group`)
/// to every group and collects the results in group order. The reduction is
/// independent per group, so the parallel map returns what the sequential map
/// would.
#[verifier::external_body]
fn envelope_groups_parallel(data: &Vec<Vec<Item>>) -> (r: Vec<GroupEnvelope>)
    requires
        forall|g: int| 0 <= g < data@.len() ==> (#[trigger] data@[g])@.len() == 3,
        forall|g: int, k: int|
            0 <= g < data@.len() && 0 <= k < data@[g]@.len() ==> item_valid(
                #[trigger] data@[g]@[k],
            ),
    ensures
        r@.len() == data@.len(),
        forall|g: int|
            0 <= g < data@.len() ==> envelope_ok(
                g,
                data@[g]@.subrange(0, 3),
                (#[trigger] r@[g]).dominated@,
                r@[g].edges@,
            ),
{
    data.par_iter().enumerate().map(|(g, group)| envelope_group(g, group, 3)).collect()
}

/// The preprocessor: envelope reduction, greedy bounds, reduced-cost fixing.
pub struct ProblemPreprocessor {
    pub problem: Problem,
}

impl ProblemPreprocessor {
    /// A preprocessor over its own copy of the instance.
    pub fn new(problem: &Problem) -> (r: ProblemPreprocessor)
        ensures
            r.problem.capacity == problem.capacity,
            r.problem.size == problem.size,
            r.problem.data@.len() == problem.data@.len(),
            problem.wf() ==> r.problem.wf(),
    {
        ProblemPreprocessor { problem: crate::structure::clone_problem(problem) }
    }

    /// Envelope reduction over all groups, in parallel: returns the merged
    /// dominated set and the per-group incremental edges.
    pub fn lp_relaxation_eliminate_by_dominance(&self) -> (r: (
        Vec<(usize, usize)>,
        Vec<GroupEnvelope>,
    ))
        requires
            self.problem.wf(),
        ensures
            r.1@.len() == self.problem.data@.len(),
            forall|g: int|
                0 <= g < r.1@.len() ==> envelope_ok(
                    g,
                    self.problem.data@[g]@,
                    (#[trigger] r.1@[g]).dominated@,
                    r.1@[g].edges@,
                ),
            forall|g: int, t: int|
                0 <= g < r.1@.len() && 0 <= t ==> (#[trigger] set_has_pair(r.0@, g, t)
                    <==> r.1@[g].dominated@.contains(t as usize)),
    {
        let envelopes = envelope_groups_parallel(&self.problem.data);
        proof {
            assert forall|g: int| 0 <= g < envelopes@.len() implies envelope_ok(
                g,
                self.problem.data@[g]@,
                (#[trigger] envelopes@[g]).dominated@,
                envelopes@[g].edges@,
            ) by {
                assert(self.problem.data@[g]@.subrange(0, 3) =~= self.problem.data@[g]@);
            }
        }
        let mut f_0: Vec<(usize, usize)> = Vec::new();
        let mut g: usize = 0;
        while g < envelopes.len()
            invariant
                envelopes@.len() == self.problem.data@.len(),
                g <= envelopes@.len(),
                forall|k: int| 0 <= k < f_0@.len() ==> (#[trigger] f_0@[k]).0 < g,
                forall|k: int|
                    0 <= k < f_0@.len() ==> envelopes@[(#[trigger] f_0@[k]).0 as int].dominated@.contains(
                        f_0@[k].1,
                    ),
                forall|g2: int, k: int|
                    0 <= g2 < g && 0 <= k < (#[trigger] envelopes@[g2]).dominated@.len()
                        ==> set_has_pair(f_0@, g2, #[trigger] envelopes@[g2].dominated@[k] as int),
            decreases envelopes@.len() - g,
        {
            let dom_count = envelopes[g].dominated.len();
            let mut k: usize = 0;
            while k < dom_count
                invariant
                    envelopes@.len() == self.problem.data@.len(),
                    g < envelopes@.len(),
                    dom_count == envelopes@[g as int].dominated@.len(),
                    k <= dom_count,
                    forall|q: int| 0 <= q < f_0@.len() ==> (#[trigger] f_0@[q]).0 <= g,
                    forall|q: int|
                        0 <= q < f_0@.len() ==> envelopes@[(#[trigger] f_0@[q]).0 as int].dominated@.contains(
                            f_0@[q].1,
                        ),
                    forall|g2: int, q: int|
                        0 <= g2 < g && 0 <= q < (#[trigger] envelopes@[g2]).dominated@.len()
                            ==> set_has_pair(
                            f_0@,
                            g2,
                            #[trigger] envelopes@[g2].dominated@[q] as int,
                        ),
                    forall|q: int|
                        0 <= q < k ==> set_has_pair(
                            f_0@,
                            g as int,
                            #[trigger] envelopes@[g as int].dominated@[q] as int,
                        ),
                decreases dom_count - k,
            {
                let t = envelopes[g].dominated[k];
                let ghost f_before = f_0@;
                f_0.push((g, t));
                proof {
                    let n = f_0@.len() - 1;
                    assert(f_0@[n] == (g, t));
                    assert(envelopes@[g as int].dominated@.contains(t));
                    assert forall|q: int| 0 <= q < k + 1 implies set_has_pair(
                        f_0@,
                        g as int,
                        #[trigger] envelopes@[g as int].dominated@[q] as int,
                    ) by {
                        if q < k {
                            lemma_set_has_pair_push(
                                f_before,
                                (g, t),
                                g as int,
                                envelopes@[g as int].dominated@[q] as int,
                            );
                        } else {
                            assert(f_0@[n] == (g, envelopes@[g as int].dominated@[q] as usize));
                        }
                    }
                    assert forall|g2: int, q: int|
                        0 <= g2 < g as int && 0 <= q < (#[trigger] envelopes@[g2]).dominated@.len() implies set_has_pair(
                        f_0@,
                        g2,
                        #[trigger] envelopes@[g2].dominated@[q] as int,
                    ) by {
                        lemma_set_has_pair_push(
                            f_before,
                            (g, t),
                            g2,
                            envelopes@[g2].dominated@[q] as int,
                        );
                    }
                }
                k = k + 1;
            }
            g = g + 1;
        }
        proof {
            assert forall|g2: int, t: int| 0 <= g2 < envelopes@.len() && 0 <= t implies (
            #[trigger] set_has_pair(f_0@, g2, t) <==> envelopes@[g2].dominated@.contains(
                t as usize,
            )) by {
                if set_has_pair(f_0@, g2, t) {
                    let w = choose|w: int|
                        0 <= w < f_0@.len() && f_0@[w] == (g2 as usize, t as usize);
                    assert(envelopes@[(f_0@[w]).0 as int].dominated@.contains(f_0@[w].1));
                }
                if envelopes@[g2].dominated@.contains(t as usize) {
                    let q = choose|q: int|
                        0 <= q < envelopes@[g2].dominated@.len() && envelopes@[g2].dominated@[q]
                            == t as usize;
                    assert(set_has_pair(f_0@, g2, envelopes@[g2].dominated@[q] as int));
                }
            }
        }
        (f_0, envelopes)
    }

    /// The fractional greedy fill: sort all surviving edges by efficiency,
    /// commit whole edges while they fit, split the first edge that does not
    /// (the critical edge), then scan the rest for integral-only improvements.
    /// The central invariant holds on return: `0 <= v_low <= v_up`.
    /// The fractional greedy fill. The edges are visited in efficiency
    /// order, best first — at each step the walk takes the most efficient
    /// remaining chain head, the earliest group on ties, which is exactly
    /// the stable efficiency-descending order of the flattened edge list —
    /// committing whole edges while they fit, splitting the first edge that
    /// does not (the critical edge), then scanning the rest for
    /// integral-only improvements. On return `x_up` carries the committed
    /// marks, whose exact gain is `v_low` and whose cost fits the capacity;
    /// `x` is the integral assignment (the critical group reset), also
    /// feasible; and `v_up` exceeds `v_low` by exactly the critical
    /// fraction's gain. The central invariant holds: `0 <= v_low <= v_up`.
    #[verifier::rlimit(60)]
    pub fn kp_greedy(&self, relaxed: Vec<GroupEnvelope>, f_0: Vec<(usize, usize)>) -> (r:
        LPRelaxationResult)
        requires
            self.problem.wf(),
            relaxed@.len() == self.problem.data@.len(),
            forall|g: int|
                0 <= g < relaxed@.len() ==> group_chain_ok(
                    g,
                    self.problem.data@[g]@,
                    (#[trigger] relaxed@[g]).edges@,
                ),
        ensures
            r.f_0 == f_0,
            r.relaxed == relaxed,
            genes_wf(r.x@, self.problem),
            genes_wf(r.x_up@, self.problem),
            chromosome_cost(self.problem, r.x@) <= self.problem.capacity,
            chromosome_gain(self.problem, r.x@) <= r.v_low,
            chromosome_cost(self.problem, r.x_up@) <= self.problem.capacity,
            chromosome_gain(self.problem, r.x_up@) == r.v_low,
            0 <= r.v_low <= r.v_up,
            0 <= r.v_up_num < r.v_up_den,
            forall|g: int|
                0 <= g < r.x_up@.len() ==> mark_on_chain(
                    r.relaxed@[g].edges@,
                    #[trigger] r.x_up@[g],
                ),
            forall|g: int| 0 <= g < r.x@.len() ==> r.x@[g] == r.x_up@[g] || #[trigger] r.x@[g] == 0,
            r.critical is None ==> r.v_low == r.v_up && r.v_up_num == 0 && r.x@ == r.x_up@,
            r.critical matches Some(c) ==> c.group < self.problem.data@.len() && c.tier < 3 && 1
                <= c.den && 0 <= c.num < c.den,
            critical_fraction_ok(r.relaxed@, r.critical, r.v_low as int, r.v_up as int, r.v_up_num as int),
    {
        let ghost p = self.problem;
        let m = self.problem.data.len();
        proof {
            assert(m <= 0x7fff_ffff);
        }
        // Per-group progress into the chains: `heads[g]` edges of group `g`
        // are committed, so its integral mark sits at chain position
        // `heads[g] - 1`.
        let mut heads: Vec<usize> = Vec::new();
        let mut x: Vec<usize> = Vec::new();
        let mut x_up: Vec<usize> = Vec::new();
        let mut g2: usize = 0;
        while g2 < m
            invariant
                g2 <= m,
                heads@.len() == g2,
                x@.len() == g2,
                x_up@.len() == g2,
                forall|q: int| 0 <= q < g2 ==> #[trigger] heads@[q] == 0,
                forall|q: int| 0 <= q < g2 ==> #[trigger] x@[q] == 0,
                forall|q: int| 0 <= q < g2 ==> #[trigger] x_up@[q] == 0,
            decreases m - g2,
        {
            heads.push(0);
            x.push(0);
            x_up.push(0);
            g2 = g2 + 1;
        }
        proof {
            lemma_all_zero_assignment(p, x@, m as int);
            lemma_zeros_sum(heads@, m as int);
        }
        let mut remaining_capacity: u64 = self.problem.capacity as u64;
        let mut v_up: i64 = 0;
        let mut v_low: i64 = 0;
        let mut v_up_num: i64 = 0;
        let mut v_up_den: i64 = 1;
        let mut critical: Option<CriticalPick> = None;
        let mut crit_found = false;
        let mut crit_g: usize = 0;
        // Commit whole edges, most efficient remaining head first, while
        // they fit.
        loop
            invariant_except_break
                !crit_found,
            invariant
                p == self.problem,
                p.wf(),
                m == p.data@.len(),
                m <= 0x7fff_ffff,
                relaxed@.len() == m,
                forall|g: int|
                    0 <= g < m ==> group_chain_ok(
                        g,
                        p.data@[g]@,
                        (#[trigger] relaxed@[g]).edges@,
                    ),
                heads@.len() == m,
                x@.len() == m,
                x_up@.len() == m,
                forall|g: int| 0 <= g < m ==> #[trigger] heads@[g] <= relaxed@[g].edges@.len(),
                forall|g: int|
                    0 <= g < m ==> #[trigger] x@[g] == (if heads@[g] == 0 {
                        0usize
                    } else {
                        (relaxed@[g].edges@[heads@[g] - 1].tier + 1) as usize
                    }),
                x_up@ == x@,
                cost_prefix(p, x@, m as int) == p.capacity - remaining_capacity,
                gain_prefix(p, x@, m as int) == v_up,
                remaining_capacity <= p.capacity,
                0 <= v_up,
                critical is None,
            ensures
                heads@.len() == m,
                x@.len() == m,
                x_up@ == x@,
                forall|g: int| 0 <= g < m ==> #[trigger] heads@[g] <= relaxed@[g].edges@.len(),
                forall|g: int|
                    0 <= g < m ==> #[trigger] x@[g] == (if heads@[g] == 0 {
                        0usize
                    } else {
                        (relaxed@[g].edges@[heads@[g] - 1].tier + 1) as usize
                    }),
                cost_prefix(p, x@, m as int) == p.capacity - remaining_capacity,
                gain_prefix(p, x@, m as int) == v_up,
                remaining_capacity <= p.capacity,
                0 <= v_up,
                critical is None,
                crit_found ==> crit_g < m && heads@[crit_g as int] < relaxed@[crit_g as int].edges@.len()
                    && (relaxed@[crit_g as int].edges@[heads@[crit_g as int] as int].delta_cost as u64)
                    > remaining_capacity && forall|g: int, q: int|
                    0 <= g < m && heads@[g] <= q < relaxed@[g].edges@.len() ==> eff_ge(
                        relaxed@[crit_g as int].edges@[heads@[crit_g as int] as int],
                        #[trigger] relaxed@[g].edges@[q],
                    ),
                !crit_found ==> forall|g: int|
                    0 <= g < m ==> #[trigger] heads@[g] == relaxed@[g].edges@.len(),
            decreases 3 * m - genes_sum(heads@, m as int),
        {
            proof {
                assert forall|g3: int| 0 <= g3 < m implies #[trigger] heads@[g3] <= 3 by {
                    assert(relaxed@[g3].edges@.len() <= 3);
                }
                lemma_heads_sum_bound(heads@, m as int);
                lemma_genes_sum_nonneg(heads@, m as int);
            }
            // Find the most efficient remaining chain head; the earliest
            // group wins ties.
            let mut best_g: usize = 0;
            let mut found = false;
            let mut g: usize = 0;
            while g < m
                invariant
                    m == relaxed@.len(),
                    heads@.len() == m,
                    forall|g3: int|
                        0 <= g3 < m ==> #[trigger] heads@[g3] <= relaxed@[g3].edges@.len(),
                    forall|g3: int, j: int|
                        0 <= g3 < m && 0 <= j < relaxed@[g3].edges@.len() ==> (
                        #[trigger] relaxed@[g3].edges@[j]).valid(),
                    g <= m,
                    found ==> best_g < m && heads@[best_g as int] < relaxed@[best_g as int].edges@.len(),
                    found ==> forall|g3: int|
                        0 <= g3 < g && #[trigger] heads@[g3] < relaxed@[g3].edges@.len()
                            ==> eff_ge(
                            relaxed@[best_g as int].edges@[heads@[best_g as int] as int],
                            relaxed@[g3].edges@[heads@[g3] as int],
                        ),
                    !found ==> forall|g3: int|
                        0 <= g3 < g ==> #[trigger] heads@[g3] == relaxed@[g3].edges@.len(),
                decreases m - g,
            {
                if heads[g] < relaxed[g].edges.len() {
                    if !found {
                        best_g = g;
                        found = true;
                    } else {
                        let current_best = &relaxed[best_g].edges[heads[best_g]];
                        let candidate = &relaxed[g].edges[heads[g]];
                        if !eff_ge_exec(current_best, candidate) {
                            proof {
                                crate::structure::incremental_edge::lemma_eff_ge_total(
                                    *current_best,
                                    *candidate,
                                );
                                assert forall|g3: int|
                                    0 <= g3 < g && #[trigger] heads@[g3] < relaxed@[g3].edges@.len() implies eff_ge(
                                    *candidate,
                                    relaxed@[g3].edges@[heads@[g3] as int],
                                ) by {
                                    crate::structure::incremental_edge::lemma_eff_ge_trans(
                                        *candidate,
                                        *current_best,
                                        relaxed@[g3].edges@[heads@[g3] as int],
                                    );
                                }
                            }
                            best_g = g;
                        }
                    }
                }
                g = g + 1;
            }
            if !found {
                break ;
            }
            let head = heads[best_g];
            let e = relaxed[best_g].edges[head];
            if (e.delta_cost as u64) <= remaining_capacity {
                let ghost g0 = best_g as int;
                let ghost chain = relaxed@[g0].edges@;
                let ghost pos = head as int;
                let ghost old_x = x@;
                let ghost old_heads = heads@;
                proof {
                    // The group's current mark costs and gains exactly its
                    // committed chain prefix.
                    if pos > 0 {
                        assert(chain_cost(chain, pos) == pt_cost(
                            p.data@[g0]@,
                            chain[pos - 1].tier as int,
                        ));
                        assert(chain_gain(chain, pos) == pt_gain(
                            p.data@[g0]@,
                            chain[pos - 1].tier as int,
                        ));
                    }
                    assert(gene_cost(p, old_x, g0) == chain_cost(chain, pos));
                    assert(gene_gain(p, old_x, g0) == chain_gain(chain, pos));
                }
                proof {
                    assert(genes_wf(x@, p)) by {
                        assert forall|g3: int| 0 <= g3 < m implies #[trigger] x@[g3] <= 3 by {
                            if heads@[g3] != 0 {
                                assert(relaxed@[g3].edges@[heads@[g3] - 1].valid());
                            }
                        }
                    }
                    crate::structure::chromosome::lemma_prefix_fits(p, x@, m as int);
                }
                remaining_capacity = remaining_capacity - e.delta_cost as u64;
                v_up = v_up + e.delta_gain;
                x.set(best_g, e.tier + 1);
                x_up.set(best_g, e.tier + 1);
                heads.set(best_g, head + 1);
                proof {
                    // One more chain step: the committed delta, exactly.
                    assert(chain_cost(chain, pos + 1) == chain_cost(chain, pos)
                        + chain[pos].delta_cost);
                    assert(chain_gain(chain, pos + 1) == chain_gain(chain, pos)
                        + chain[pos].delta_gain);
                    assert(chain_cost(chain, pos + 1) == pt_cost(p.data@[g0]@, e.tier as int));
                    assert(chain_gain(chain, pos + 1) == pt_gain(p.data@[g0]@, e.tier as int));
                    assert(gene_cost(p, x@, g0) == pt_cost(p.data@[g0]@, e.tier as int));
                    assert(gene_gain(p, x@, g0) == pt_gain(p.data@[g0]@, e.tier as int));
                    lemma_prefix_update(p, old_x, x@, g0, m as int);
                    assert(heads@ =~= old_heads.update(g0, (head + 1) as usize));
                    lemma_genes_sum_update(old_heads, heads@, g0, m as int);
                    assert forall|g3: int| 0 <= g3 < m implies #[trigger] heads@[g3] <= 3 by {
                        assert(relaxed@[g3].edges@.len() <= 3);
                    }
                    lemma_heads_sum_bound(heads@, m as int);
                    lemma_genes_sum_nonneg(heads@, m as int);
                    assert(x_up@ =~= x@);
                }
            } else {
                crit_found = true;
                crit_g = best_g;
                proof {
                    // The critical head is at least as efficient as every
                    // edge still uncommitted: later heads directly, deeper
                    // chain positions through their own chain's ordering.
                    assert forall|g3: int, q: int|
                        0 <= g3 < m && heads@[g3] <= q < relaxed@[g3].edges@.len() implies eff_ge(
                        relaxed@[crit_g as int].edges@[heads@[crit_g as int] as int],
                        #[trigger] relaxed@[g3].edges@[q],
                    ) by {
                        assert(eff_ge(e, relaxed@[g3].edges@[heads@[g3] as int]));
                        lemma_chain_pairwise(relaxed@[g3].edges@, heads@[g3] as int, q);
                        crate::structure::incremental_edge::lemma_eff_ge_trans(
                            e,
                            relaxed@[g3].edges@[heads@[g3] as int],
                            relaxed@[g3].edges@[q],
                        );
                    }
                }
                break ;
            }
        }
        proof {
            assert(genes_wf(x@, p) && genes_wf(x_up@, p)) by {
                assert forall|g3: int| 0 <= g3 < m implies #[trigger] x@[g3] <= 3 by {
                    if heads@[g3] != 0 {
                        assert(relaxed@[g3].edges@[heads@[g3] - 1].valid());
                    }
                }
            }
            // Every committed mark names the tier of one of its group's
            // surviving chain edges.
            assert forall|g3: int| 0 <= g3 < m implies mark_on_chain(
                relaxed@[g3].edges@,
                #[trigger] x_up@[g3],
            ) by {
                if heads@[g3] != 0 {
                    assert(x_up@[g3] == relaxed@[g3].edges@[heads@[g3] - 1].tier + 1);
                }
            }
        }
        if crit_found {
            // The critical edge: take the fraction of it that still fits,
            // record the integral value found so far as the lower bound, and
            // reset the critical group's integral mark — a fractional pick
            // is never integral-feasible.
            let head = heads[crit_g];
            let e = relaxed[crit_g].edges[head];
            let ghost chain = relaxed@[crit_g as int].edges@;
            v_low = v_up;
            proof {
                lemma_mul_bounds(
                    e.delta_gain as int,
                    remaining_capacity as int,
                    VALUE_LIMIT as int,
                    u32::MAX as int,
                );
            }
            let prod: u64 = (e.delta_gain as u64) * remaining_capacity;
            let q = prod / (e.delta_cost as u64);
            let rmd = prod % (e.delta_cost as u64);
            proof {
                let dgi = e.delta_gain as int;
                let dci = e.delta_cost as int;
                assert(prod < dgi * dci) by (nonlinear_arith)
                    requires
                        remaining_capacity < dci,
                        dgi >= 1,
                        0 <= remaining_capacity,
                        prod == dgi * remaining_capacity,
                {}
                vstd::arithmetic::div_mod::lemma_fundamental_div_mod(prod as int, dci);
                assert(dci * (q as int) <= prod as int);
                assert(q < dgi) by (nonlinear_arith)
                    requires
                        dci * (q as int) <= prod as int,
                        prod < dgi * dci,
                        dci >= 1,
                        q >= 0,
                {}
                assert(genes_wf(x@, p)) by {
                    assert forall|g3: int| 0 <= g3 < m implies #[trigger] x@[g3] <= 3 by {
                        if heads@[g3] != 0 {
                            assert(relaxed@[g3].edges@[heads@[g3] - 1].valid());
                        }
                    }
                }
                crate::structure::chromosome::lemma_prefix_fits(p, x@, m as int);
            }
            v_up = v_up + q as i64;
            v_up_num = rmd as i64;
            v_up_den = e.delta_cost;
            critical = Some(
                CriticalPick {
                    group: e.group,
                    tier: e.tier,
                    num: remaining_capacity as i64,
                    den: e.delta_cost,
                },
            );
            let ghost old_x = x@;
            x.set(crit_g, 0);
            proof {
                assert(e.group == crit_g as int);
                assert(0 <= gene_cost(p, old_x, crit_g as int) && 0 <= gene_gain(
                    p,
                    old_x,
                    crit_g as int,
                )) by {
                    if old_x[crit_g as int] != 0 {
                        assert(item_valid(p.data@[crit_g as int]@[old_x[crit_g as int] - 1]));
                    }
                }
                lemma_prefix_update(p, old_x, x@, crit_g as int, m as int);
                // The exists-witness for the critical fraction's arithmetic.
                assert(chain[head as int].tier == e.tier && chain[head as int].delta_cost
                    == e.delta_cost && chain[head as int].delta_gain == e.delta_gain);
            }
            proof {
                assert((e.delta_gain as int * (remaining_capacity as int)) / (e.delta_cost as int)
                    == q as int);
                assert((e.delta_gain as int * (remaining_capacity as int)) % (e.delta_cost as int)
                    == rmd as int);
            }
            remaining_capacity = 0;
            // Scan the remaining, less efficient edges: a group still fully
            // unmarked may accept an edge that fits what capacity is left.
            loop
                invariant
                    p == self.problem,
                    p.wf(),
                    m == p.data@.len(),
                    m <= 0x7fff_ffff,
                    relaxed@.len() == m,
                    forall|g: int|
                        0 <= g < m ==> group_chain_ok(
                            g,
                            p.data@[g]@,
                            (#[trigger] relaxed@[g]).edges@,
                        ),
                    heads@.len() == m,
                    x@.len() == m,
                    x_up@.len() == m,
                    forall|g: int| 0 <= g < m ==> #[trigger] heads@[g] <= relaxed@[g].edges@.len(),
                    forall|g: int| 0 <= g < m ==> #[trigger] x@[g] <= 3,
                    crit_g < m,
                    1 <= e.delta_cost,
                    forall|g: int, q2: int|
                        0 <= g < m && heads@[g] <= q2 < relaxed@[g].edges@.len() ==> eff_ge(
                            e,
                            #[trigger] relaxed@[g].edges@[q2],
                        ),
                    remaining_capacity == 0,
                    cost_prefix(p, x@, m as int) <= p.capacity,
                    gain_prefix(p, x@, m as int) <= v_low,
                    forall|g: int| 0 <= g < m ==> #[trigger] x_up@[g] <= 3,
                    forall|g: int|
                        0 <= g < m ==> mark_on_chain(relaxed@[g].edges@, #[trigger] x_up@[g]),
                    forall|g: int| 0 <= g < m ==> x@[g] == x_up@[g] || #[trigger] x@[g] == 0,
                    gain_prefix(p, x_up@, m as int) == v_low,
                    cost_prefix(p, x_up@, m as int) <= p.capacity,
                    0 <= v_low <= v_up,
                decreases 3 * m - genes_sum(heads@, m as int),
            {
                proof {
                    assert forall|g3: int| 0 <= g3 < m implies #[trigger] heads@[g3] <= 3 by {
                        assert(relaxed@[g3].edges@.len() <= 3);
                    }
                    lemma_heads_sum_bound(heads@, m as int);
                    lemma_genes_sum_nonneg(heads@, m as int);
                }
                let mut best_g: usize = 0;
                let mut found = false;
                let mut g: usize = 0;
                while g < m
                    invariant
                        m == relaxed@.len(),
                        heads@.len() == m,
                        forall|g3: int|
                            0 <= g3 < m ==> #[trigger] heads@[g3] <= relaxed@[g3].edges@.len(),
                        g <= m,
                        found ==> best_g < m && heads@[best_g as int] < relaxed@[best_g as int].edges@.len(),
                        !found ==> forall|g3: int|
                            0 <= g3 < g ==> #[trigger] heads@[g3] == relaxed@[g3].edges@.len(),
                    decreases m - g,
                {
                    if heads[g] < relaxed[g].edges.len() {
                        if !found {
                            best_g = g;
                            found = true;
                        }
                    }
                    g = g + 1;
                }
                if !found {
                    break ;
                }
                let head2 = heads[best_g];
                let e2 = relaxed[best_g].edges[head2];
                if (e2.delta_cost as u64) <= remaining_capacity && x[e2.group] == 0 {
                    // Unreachable: such an edge would be free and therefore
                    // infinitely efficient, but the critical edge, which is
                    // at least as efficient, is not.
                    proof {
                        assert(eff_ge(e, e2));
                        assert(e2.delta_cost == 0);
                        assert(e.delta_gain * e2.delta_cost == 0) by (nonlinear_arith)
                            requires
                                e2.delta_cost == 0,
                        {}
                        assert(e2.delta_gain * e.delta_cost >= 1 * 1) by (nonlinear_arith)
                            requires
                                e2.delta_gain >= 1,
                                e.delta_cost >= 1,
                        {}
                        assert(false);
                    }
                    x.set(e2.group, e2.tier + 1);
                    v_low = v_low + e2.delta_gain;
                    remaining_capacity = remaining_capacity - e2.delta_cost as u64;
                }
                let ghost old_heads = heads@;
                heads.set(best_g, head2 + 1);
                proof {
                    assert(heads@ =~= old_heads.update(best_g as int, (head2 + 1) as usize));
                    lemma_genes_sum_update(old_heads, heads@, best_g as int, m as int);
                    assert forall|g3: int| 0 <= g3 < m implies #[trigger] heads@[g3] <= 3 by {
                        assert(relaxed@[g3].edges@.len() <= 3);
                    }
                    lemma_heads_sum_bound(heads@, m as int);
                    lemma_genes_sum_nonneg(heads@, m as int);
                }
            }
            proof {
                // The critical pick's arithmetic, witnessed by its chain
                // position.
                let ci = head as int;
                let chain2 = relaxed@[crit_g as int].edges@;
                assert(0 <= ci < chain2.len());
                assert(chain2[ci].tier == e.tier);
                assert(chain2[ci].delta_cost == e.delta_cost);
                assert(chain2[ci].delta_gain == e.delta_gain);
                if let Some(c) = critical {
                    assert(c.group == crit_g && c.tier == e.tier && c.den == e.delta_cost);
                    assert(v_up == v_low + (chain2[ci].delta_gain as int * (c.num as int)) / (
                    c.den as int) && v_up_num == (chain2[ci].delta_gain as int * (c.num as int)) % (
                    c.den as int));
                    assert(critical_fraction_ok(
                        relaxed@,
                        critical,
                        v_low as int,
                        v_up as int,
                        v_up_num as int,
                    )) by {
                        assert((#[trigger] relaxed@[c.group as int].edges@[ci]).tier == c.tier);
                    }
                }
            }
        } else {
            // Every edge fit: the fill itself is integral.
            v_low = v_up;
        }
        LPRelaxationResult {
            f_0,
            x_up,
            x,
            v_up,
            v_up_num,
            v_up_den,
            v_low,
            critical,
            relaxed,
        }
    }

    /// The LP relaxation: envelope reduction, then the greedy fill. The
    /// returned bounds satisfy `0 <= v_low <= v_up`.
    pub fn lp_relaxation(&self) -> (r: LPRelaxationResult)
        requires
            self.problem.wf(),
        ensures
            genes_wf(r.x@, self.problem),
            genes_wf(r.x_up@, self.problem),
            chromosome_cost(self.problem, r.x@) <= self.problem.capacity,
            chromosome_gain(self.problem, r.x@) <= r.v_low,
            chromosome_cost(self.problem, r.x_up@) <= self.problem.capacity,
            chromosome_gain(self.problem, r.x_up@) == r.v_low,
            0 <= r.v_low <= r.v_up,
            0 <= r.v_up_num < r.v_up_den,
            forall|g: int|
                0 <= g < r.x_up@.len() ==> mark_on_chain(
                    r.relaxed@[g].edges@,
                    #[trigger] r.x_up@[g],
                ),
            forall|g: int| 0 <= g < r.x@.len() ==> r.x@[g] == r.x_up@[g] || #[trigger] r.x@[g] == 0,
            r.critical is None ==> r.v_low == r.v_up && r.v_up_num == 0 && r.x@ == r.x_up@,
            r.critical matches Some(c) ==> c.group < self.problem.data@.len() && c.tier < 3 && 1
                <= c.den && 0 <= c.num < c.den,
            critical_fraction_ok(r.relaxed@, r.critical, r.v_low as int, r.v_up as int, r.v_up_num as int),
            r.relaxed@.len() == self.problem.data@.len(),
            forall|g: int|
                0 <= g < r.relaxed@.len() ==> envelope_ok(
                    g,
                    self.problem.data@[g]@,
                    (#[trigger] r.relaxed@[g]).dominated@,
                    r.relaxed@[g].edges@,
                ),
            forall|g: int, t: int|
                0 <= g < r.relaxed@.len() && 0 <= t ==> (#[trigger] set_has_pair(r.f_0@, g, t)
                    <==> r.relaxed@[g].dominated@.contains(t as usize)),
            forall|g: int, t: int|
                0 <= g < r.relaxed@.len() && 0 <= t && #[trigger] set_has_pair(r.f_0@, g, t)
                    ==> r.x_up@[g] != t + 1 && r.x@[g] != t + 1,
    {
        let (f_0, relaxed) = self.lp_relaxation_eliminate_by_dominance();
        proof {
            assert forall|g: int| 0 <= g < relaxed@.len() implies group_chain_ok(
                g,
                self.problem.data@[g]@,
                (#[trigger] relaxed@[g]).edges@,
            ) by {
                assert(envelope_ok(
                    g,
                    self.problem.data@[g]@,
                    relaxed@[g].dominated@,
                    relaxed@[g].edges@,
                ));
            }
        }
        self.kp_greedy(relaxed, f_0)
    }

    /// Reduced-cost fixing: when the critical fraction sits on a group's
    /// third tier, re-run the fill with that tier removed. A better integral
    /// bound is adopted; if even the modified relaxation cannot beat the best
    /// known bound, the tier is provably not part of any optimum and joins
    /// the fixed set.
    pub fn ub_fix(&self, lp_relaxation_result: &LPRelaxationResult) -> (r: UBFixResult)
        requires
            self.problem.wf(),
            genes_wf(lp_relaxation_result.x@, self.problem),
            genes_wf(lp_relaxation_result.x_up@, self.problem),
            chromosome_cost(self.problem, lp_relaxation_result.x@) <= self.problem.capacity,
            chromosome_gain(self.problem, lp_relaxation_result.x@) <= lp_relaxation_result.v_low,
            chromosome_cost(self.problem, lp_relaxation_result.x_up@) <= self.problem.capacity,
            chromosome_gain(self.problem, lp_relaxation_result.x_up@)
                == lp_relaxation_result.v_low,
            lp_relaxation_result.v_low >= 0,
            lp_relaxation_result.relaxed@.len() == self.problem.data@.len(),
            forall|g: int|
                0 <= g < lp_relaxation_result.relaxed@.len() ==> envelope_ok(
                    g,
                    self.problem.data@[g]@,
                    (#[trigger] lp_relaxation_result.relaxed@[g]).dominated@,
                    lp_relaxation_result.relaxed@[g].edges@,
                ),
        ensures
            r.v_best >= lp_relaxation_result.v_low,
            genes_wf(r.x_best@, self.problem),
            chromosome_cost(self.problem, r.x_best@) <= self.problem.capacity,
            chromosome_gain(self.problem, r.x_best@) <= r.v_best,
            bound_witnessed(self.problem, r.v_best as int),
            r.f_1@.len() <= 1,
            lp_relaxation_result.critical is None ==> r.f_1@.len() == 0 && r.v_best
                == lp_relaxation_result.v_low && r.x_best@ == lp_relaxation_result.x@,
            r.f_1@.len() == 1 ==> (lp_relaxation_result.critical matches Some(c) && c.tier == 2
                && r.f_1@[0] == (c.group, 2usize)),
            forall|k: int|
                0 <= k < r.f_1@.len() ==> (#[trigger] r.f_1@[k]).1 == 2 && r.f_1@[k].0
                    < self.problem.data@.len(),
    {
        let ghost p = self.problem;
        let m = self.problem.data.len();
        let mut f_1: Vec<(usize, usize)> = Vec::new();
        let mut v_low_best: i64 = lp_relaxation_result.v_low;
        let mut x_best: Vec<usize> = clone_copy_vec(&lp_relaxation_result.x);
        proof {
            // The relaxation's committed marks witness the incumbent bound.
            assert(chromosome_gain(p, lp_relaxation_result.x_up@) == v_low_best as int);
            assert(bound_witnessed(p, v_low_best as int));
        }
        let mut index: usize = 0;
        while index < m
            invariant
                p == self.problem,
                p.wf(),
                m == p.data@.len(),
                genes_wf(lp_relaxation_result.x@, p),
                lp_relaxation_result.relaxed@.len() == m,
                forall|g: int|
                    0 <= g < m ==> envelope_ok(
                        g,
                        p.data@[g]@,
                        (#[trigger] lp_relaxation_result.relaxed@[g]).dominated@,
                        lp_relaxation_result.relaxed@[g].edges@,
                    ),
                index <= m,
                v_low_best >= lp_relaxation_result.v_low,
                genes_wf(x_best@, p),
                chromosome_cost(p, x_best@) <= p.capacity,
                chromosome_gain(p, x_best@) <= v_low_best,
                bound_witnessed(p, v_low_best as int),
                f_1@.len() <= 1,
                lp_relaxation_result.critical is None ==> f_1@.len() == 0 && v_low_best
                    == lp_relaxation_result.v_low && x_best@ == lp_relaxation_result.x@,
                f_1@.len() == 1 ==> (lp_relaxation_result.critical matches Some(c) && c.tier == 2
                    && f_1@[0] == (c.group, 2usize) && c.group < index),
                forall|k: int|
                    0 <= k < f_1@.len() ==> (#[trigger] f_1@[k]).1 == 2 && f_1@[k].0 < m,
            decreases m - index,
        {
            let is_critical_third = match lp_relaxation_result.critical {
                Some(c) => c.group == index && c.tier == 2,
                None => false,
            };
            if is_critical_third {
                // Rebuild this group's envelope without its third tier and
                // re-run the fill on the modified edge set.
                let mut temp_relaxed = clone_envelopes(&lp_relaxation_result.relaxed);
                temp_relaxed.set(index, envelope_group(index, &self.problem.data[index], 2));
                proof {
                    assert forall|g: int| 0 <= g < temp_relaxed@.len() implies group_chain_ok(
                        g,
                        p.data@[g]@,
                        (#[trigger] temp_relaxed@[g]).edges@,
                    ) by {
                        if g == index as int {
                            let sub = p.data@[g]@.subrange(0, 2);
                            let ch = temp_relaxed@[g].edges@;
                            assert(envelope_ok(g, sub, temp_relaxed@[g].dominated@, ch));
                            assert(forall|k: int| 0 <= k < 2 ==> #[trigger] sub[k] == p.data@[g]@[k]);
                            assert forall|j: int| 0 <= j < ch.len() implies chain_gain(ch, j + 1)
                                == pt_gain(p.data@[g]@, (#[trigger] ch[j]).tier as int)
                                && chain_cost(ch, j + 1) == pt_cost(
                                p.data@[g]@,
                                ch[j].tier as int,
                            ) by {
                                assert(chain_gain(ch, j + 1) == pt_gain(sub, ch[j].tier as int));
                                assert(chain_cost(ch, j + 1) == pt_cost(sub, ch[j].tier as int));
                            }
                        } else {
                            assert(temp_relaxed@[g].edges@
                                == lp_relaxation_result.relaxed@[g].edges@);
                            assert(envelope_ok(
                                g,
                                p.data@[g]@,
                                lp_relaxation_result.relaxed@[g].dominated@,
                                lp_relaxation_result.relaxed@[g].edges@,
                            ));
                        }
                    }
                }
                let res_i = self.kp_greedy(temp_relaxed, clone_copy_vec(&lp_relaxation_result.f_0));
                if res_i.v_low >= v_low_best {
                    v_low_best = res_i.v_low;
                    x_best = res_i.x;
                    proof {
                        assert(chromosome_gain(p, res_i.x_up@) == v_low_best as int);
                        assert(bound_witnessed(p, v_low_best as int));
                    }
                }
                if res_i.v_up <= v_low_best {
                    f_1.push((index, 2));
                }
            }
            index = index + 1;
        }
        UBFixResult { f_1, x_best, v_best: v_low_best }
    }

    /// Runs the whole preprocessor: the LP relaxation, then reduced-cost
    /// fixing over its result.
    pub fn process_problem(&self) -> (r: PreprocessingResult)
        requires
            self.problem.wf(),
        ensures
            genes_wf(r.ub_fix_result.x_best@, self.problem),
            chromosome_cost(self.problem, r.ub_fix_result.x_best@) <= self.problem.capacity,
            chromosome_gain(self.problem, r.ub_fix_result.x_best@) <= r.ub_fix_result.v_best,
            bound_witnessed(self.problem, r.ub_fix_result.v_best as int),
            0 <= r.relaxation_result.v_low <= r.relaxation_result.v_up,
            0 <= r.relaxation_result.v_up_num < r.relaxation_result.v_up_den,
            r.ub_fix_result.v_best >= r.relaxation_result.v_low,
            chromosome_cost(self.problem, r.relaxation_result.x@) <= self.problem.capacity,
            chromosome_gain(self.problem, r.relaxation_result.x@) <= r.relaxation_result.v_low,
            chromosome_cost(self.problem, r.relaxation_result.x_up@) <= self.problem.capacity,
            chromosome_gain(self.problem, r.relaxation_result.x_up@)
                == r.relaxation_result.v_low,
            critical_fraction_ok(
                r.relaxation_result.relaxed@,
                r.relaxation_result.critical,
                r.relaxation_result.v_low as int,
                r.relaxation_result.v_up as int,
                r.relaxation_result.v_up_num as int,
            ),
            r.ub_fix_result.f_1@.len() <= 1,
            r.relaxation_result.critical is None ==> r.ub_fix_result.f_1@.len() == 0
                && r.ub_fix_result.v_best == r.relaxation_result.v_low,
            r.ub_fix_result.f_1@.len() == 1 ==> (r.relaxation_result.critical matches Some(c)
                && c.tier == 2 && r.ub_fix_result.f_1@[0] == (c.group, 2usize)),
            forall|k: int|
                0 <= k < r.ub_fix_result.f_1@.len() ==> (#[trigger] r.ub_fix_result.f_1@[k]).1 == 2
                    && r.ub_fix_result.f_1@[k].0 < self.problem.data@.len(),
            genes_wf(r.relaxation_result.x@, self.problem),
            genes_wf(r.relaxation_result.x_up@, self.problem),
    {
        let relaxation_result = self.lp_relaxation();
        let ub_fix_result = self.ub_fix(&relaxation_result);
        PreprocessingResult { relaxation_result, ub_fix_result }
    }
}

/// Everything the preprocessor hands the genetic engine.
#[derive(Debug, Clone)]
pub struct PreprocessingResult {
    pub relaxation_result: LPRelaxationResult,
    pub ub_fix_result: UBFixResult,
}

impl PreprocessingResult {
    /// The record of a run on which preprocessing was disabled.
    pub fn empty() -> (r: PreprocessingResult)
        ensures
            r.relaxation_result.f_0@ =~= Seq::<(usize, usize)>::empty(),
            r.ub_fix_result.f_1@ =~= Seq::<(usize, usize)>::empty(),
            r.ub_fix_result.x_best@ =~= Seq::<usize>::empty(),
    {
        PreprocessingResult {
            relaxation_result: LPRelaxationResult::empty(),
            ub_fix_result: UBFixResult::empty(),
        }
    }
}

} // verus!
