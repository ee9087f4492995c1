//! A candidate assignment of tiers to groups, with its cached fitness and age.

use vstd::prelude::*;

verus! {

use crate::structure::item_valid;
use crate::structure::problem::{group_gain_sum, total_gain_prefix, Problem, VALUE_LIMIT};

/// One gene per group: `0` selects nothing, `k` in `1..=3` selects tier `k - 1`.
#[derive(Debug, Clone)]
pub struct Chromosome {
    pub genes: Vec<usize>,
    pub fitness: i64,
    pub age: i32,
}

/// A gene vector fits a problem when it has one gene per group, each in `0..=3`.
pub open spec fn genes_wf(genes: Seq<usize>, p: Problem) -> bool {
    &&& genes.len() == p.data@.len()
    &&& forall|i: int| 0 <= i < genes.len() ==> #[trigger] genes[i] <= 3
}

/// The gain group `g` contributes under `genes`: the gain of the selected
/// tier, or `0` where nothing is selected.
pub open spec fn gene_gain(p: Problem, genes: Seq<usize>, g: int) -> int {
    if genes[g] == 0 {
        0
    } else {
        p.data@[g]@[genes[g] - 1].gain as int
    }
}

/// The cost group `g` contributes under `genes`.
pub open spec fn gene_cost(p: Problem, genes: Seq<usize>, g: int) -> int {
    if genes[g] == 0 {
        0
    } else {
        p.data@[g]@[genes[g] - 1].cost as int
    }
}

/// Total gain of the first `n` groups under `genes`.
pub open spec fn gain_prefix(p: Problem, genes: Seq<usize>, n: int) -> int
    decreases n,
{
    if n <= 0 {
        0
    } else {
        gain_prefix(p, genes, n - 1) + gene_gain(p, genes, n - 1)
    }
}

/// Total cost of the first `n` groups under `genes`.
pub open spec fn cost_prefix(p: Problem, genes: Seq<usize>, n: int) -> int
    decreases n,
{
    if n <= 0 {
        0
    } else {
        cost_prefix(p, genes, n - 1) + gene_cost(p, genes, n - 1)
    }
}

/// Total gain an assignment yields.
pub open spec fn chromosome_gain(p: Problem, genes: Seq<usize>) -> int {
    gain_prefix(p, genes, genes.len() as int)
}

/// Total cost an assignment consumes.
pub open spec fn chromosome_cost(p: Problem, genes: Seq<usize>) -> int {
    cost_prefix(p, genes, genes.len() as int)
}

/// An assignment is feasible when its cost fits the shared capacity.
pub open spec fn feasible(p: Problem, genes: Seq<usize>) -> bool {
    chromosome_cost(p, genes) <= p.capacity
}

/// The fitness an assignment earns: its gain if feasible, else the hard
/// infeasibility sentinel `0`.
pub open spec fn fitness_spec(p: Problem, genes: Seq<usize>) -> int {
    if feasible(p, genes) {
        chromosome_gain(p, genes)
    } else {
        0
    }
}

/// Both prefix sums stay within `n * VALUE_LIMIT`, and never go negative.
pub proof fn lemma_prefix_bounds(p: Problem, genes: Seq<usize>, n: int)
    requires
        p.wf(),
        genes_wf(genes, p),
        0 <= n <= genes.len(),
    ensures
        0 <= gain_prefix(p, genes, n) <= n * VALUE_LIMIT,
        0 <= cost_prefix(p, genes, n) <= n * VALUE_LIMIT,
    decreases n,
{
    if n > 0 {
        lemma_prefix_bounds(p, genes, n - 1);
        assert((n - 1) * VALUE_LIMIT + VALUE_LIMIT == n * VALUE_LIMIT) by (nonlinear_arith);
    }
}

/// Updating one gene shifts each prefix sum by exactly that group's change.
pub proof fn lemma_prefix_update(p: Problem, a: Seq<usize>, b: Seq<usize>, i: int, n: int)
    requires
        0 <= i < a.len(),
        b == a.update(i, b[i]),
        b.len() == a.len(),
        0 <= n <= a.len(),
    ensures
        i < n ==> gain_prefix(p, b, n) == gain_prefix(p, a, n) - gene_gain(p, a, i) + gene_gain(
            p,
            b,
            i,
        ),
        n <= i ==> gain_prefix(p, b, n) == gain_prefix(p, a, n),
        i < n ==> cost_prefix(p, b, n) == cost_prefix(p, a, n) - gene_cost(p, a, i) + gene_cost(
            p,
            b,
            i,
        ),
        n <= i ==> cost_prefix(p, b, n) == cost_prefix(p, a, n),
    decreases n,
{
    if n > 0 {
        lemma_prefix_update(p, a, b, i, n - 1);
    }
}

/// Both prefix sums fit comfortably in 64 bits: the group count is bounded by
/// `i32::MAX` and each contribution by `VALUE_LIMIT`.
pub proof fn lemma_prefix_fits(p: Problem, genes: Seq<usize>, n: int)
    requires
        p.wf(),
        genes_wf(genes, p),
        0 <= n <= genes.len(),
        genes.len() <= i32::MAX,
    ensures
        0 <= gain_prefix(p, genes, n) <= 0x7fff_ffff * VALUE_LIMIT,
        0 <= cost_prefix(p, genes, n) <= 0x7fff_ffff * VALUE_LIMIT,
{
    lemma_prefix_bounds(p, genes, n);
    assert(n * VALUE_LIMIT <= 0x7fff_ffff * VALUE_LIMIT) by (nonlinear_arith)
        requires
            0 <= n <= 0x7fff_ffff,
    {}
}

/// No assignment can yield more gain than the sum of every gain in the
/// instance; no assignment has negative gain or cost.
pub proof fn lemma_gain_le_total(p: Problem, genes: Seq<usize>, n: int)
    requires
        p.wf(),
        genes_wf(genes, p),
        0 <= n <= genes.len(),
    ensures
        0 <= gain_prefix(p, genes, n) <= total_gain_prefix(p.data@, n),
        0 <= cost_prefix(p, genes, n),
    decreases n,
{
    if n > 0 {
        lemma_gain_le_total(p, genes, n - 1);
        lemma_selected_le_group_sum(p, genes, n - 1);
    }
}

/// One selected tier's gain is at most the sum of its group's gains.
proof fn lemma_selected_le_group_sum(p: Problem, genes: Seq<usize>, g: int)
    requires
        p.wf(),
        genes_wf(genes, p),
        0 <= g < genes.len(),
    ensures
        0 <= gene_gain(p, genes, g) <= group_gain_sum(p.data@[g]@),
        0 <= gene_cost(p, genes, g),
{
    lemma_group_gain_sum_nonneg(p, g);
    let group = p.data@[g]@;
    assert(item_valid(group[0]) && item_valid(group[1]) && item_valid(group[2]));
}

/// The fitness of any well-formed assignment lies between `0` and the
/// instance's total gain.
pub proof fn lemma_fitness_bounds(p: Problem, genes: Seq<usize>)
    requires
        p.wf(),
        genes_wf(genes, p),
    ensures
        0 <= fitness_spec(p, genes) <= p.total_gain(),
{
    lemma_gain_le_total(p, genes, genes.len() as int);
    lemma_total_gain_prefix_nonneg(p, genes.len() as int);
}

/// The instance-wide gain total is non-negative.
pub proof fn lemma_total_gain_nonneg(p: Problem)
    requires
        p.wf(),
    ensures
        p.total_gain() >= 0,
{
    lemma_total_prefix_all_nonneg(p, p.data@.len() as int);
}

/// Every prefix of the instance-wide gain total is non-negative.
proof fn lemma_total_gain_prefix_nonneg(p: Problem, n: int)
    requires
        p.wf(),
        0 <= n <= p.data@.len(),
    ensures
        0 <= total_gain_prefix(p.data@, n),
        total_gain_prefix(p.data@, n) <= p.total_gain(),
    decreases p.data@.len() - n,
{
    lemma_total_prefix_all_nonneg(p, n);
    if n < p.data@.len() {
        lemma_group_gain_sum_nonneg(p, n);
        lemma_total_gain_prefix_nonneg(p, n + 1);
    }
}

/// Each step of the instance-wide total adds a non-negative group sum.
proof fn lemma_total_prefix_all_nonneg(p: Problem, n: int)
    requires
        p.wf(),
        0 <= n <= p.data@.len(),
    ensures
        0 <= total_gain_prefix(p.data@, n),
    decreases n,
{
    if n > 0 {
        lemma_total_prefix_all_nonneg(p, n - 1);
        lemma_group_gain_sum_nonneg(p, n - 1);
    }
}

/// A well-formed group's gain sum is non-negative.
proof fn lemma_group_gain_sum_nonneg(p: Problem, g: int)
    requires
        p.wf(),
        0 <= g < p.data@.len(),
    ensures
        0 <= group_gain_sum(p.data@[g]@),
        group_gain_sum(p.data@[g]@) == p.data@[g]@[0].gain + p.data@[g]@[1].gain
            + p.data@[g]@[2].gain,
{
    let group = p.data@[g]@;
    assert(group.len() == 3);
    assert(item_valid(group[0]) && item_valid(group[1]) && item_valid(group[2]));
    let d1 = group.drop_last();
    let d2 = d1.drop_last();
    let d3 = d2.drop_last();
    assert(d3.len() == 0);
    assert(group_gain_sum(d3) == 0);
    assert(d2.last() == group[0]);
    assert(group_gain_sum(d2) == group[0].gain);
    assert(d1.last() == group[1]);
    assert(group_gain_sum(d1) == group[0].gain + group[1].gain);
    assert(group.last() == group[2]);
}

impl Chromosome {
    /// Wraps a gene vector as a fresh, unevaluated chromosome.
    pub fn init_chromosome(genes: Vec<usize>) -> (c: Chromosome)
        ensures
            c.genes == genes,
            c.fitness == 0,
            c.age == 0,
    {
        Chromosome { genes, fitness: 0, age: 0 }
    }

    /// Records the fitness computed for this chromosome.
    pub fn set_fitness(&mut self, fitness: i64)
        ensures
            *final(self) == (Chromosome { fitness, ..*old(self) }),
    {
        self.fitness = fitness;
    }

    /// Marks one more generation survived without mutation.
    pub fn increase_age(&mut self)
        requires
            old(self).age < i32::MAX,
        ensures
            *final(self) == (Chromosome { age: (old(self).age + 1) as i32, ..*old(self) }),
    {
        self.age = self.age + 1;
    }
}

} // verus!
