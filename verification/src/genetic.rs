//! The genetic engine: evaluation, repair, selection, crossover, mutation and
//! the stagnation-based termination state machine.

use vstd::prelude::*;

verus! {

use crate::preprocessing::PreprocessingResult;
use crate::structure::chromosome::{
    chromosome_cost, chromosome_gain, cost_prefix, feasible, fitness_spec, gain_prefix, gene_cost,
    gene_gain, genes_wf, lemma_fitness_bounds, lemma_prefix_bounds, lemma_prefix_fits, lemma_prefix_update,
    Chromosome,
};
use crate::structure::configuration::Configuration;
use crate::structure::incremental_edge::lemma_mul_le;
use crate::structure::problem::{Item, Problem, VALUE_LIMIT};
use crate::preprocessing::{clone_preprocessing_result, clone_relaxation_result, clone_ub_fix_result};
use crate::generator::{EnhancedChromosomeGenerator, RandomChromosomeGenerator};
use crate::structure::chromosome::lemma_total_gain_nonneg;
use crate::structure::solution::Solution;
use crate::structure::{clone_copy_vec, clone_problem, item_valid};
use crate::utils::{make_rng, rand_below, rand_below_u128};

/// Why a run cannot start: spec-level validation of problem and configuration.
#[derive(Debug, Clone, Copy, PartialEq, Eq, Structural)]
pub enum ConfigError {
    /// The problem has no groups.
    EmptyProblem,
    /// The configured population cannot sustain pairwise crossover.
    EmptyPopulation,
}

/// The population-based search over one problem instance.
pub trait GeneticAlgorithm<C: Configuration>: Sized {
    /// The engine's internal consistency.
    spec fn wf(&self) -> bool;

    /// The instance the engine searches.
    spec fn problem_of(&self) -> Problem;

    /// The best chromosome retained so far.
    spec fn best_of(&self) -> Chromosome;

    /// The current population.
    spec fn population_of(&self) -> Seq<Chromosome>;

    fn init(problem: Problem, configuration: C, preprocessing_result: &PreprocessingResult) -> (r:
        Result<Self, ConfigError>)
        requires
            problem.wf(),
            preprocessing_wf(preprocessing_result, problem),
        ensures
            r matches Ok(e) ==> e.wf() && e.problem_of() == problem,
            r matches Ok(e) ==> e.population_of().len()
                == configuration.spec_population_size() && (forall|i: int|
                0 <= i < e.population_of().len() ==> feasible(
                    problem,
                    (#[trigger] e.population_of()[i]).genes@,
                )),
            r matches Ok(e) ==> (configuration.spec_enhanced_enabled()
                && preprocessing_result.ub_fix_result.x_best@.len() > 0
                && configuration.spec_population_size() > 0 ==> e.population_of()[0].genes@
                == repair_spec(problem, preprocessing_result.ub_fix_result.x_best@)),
            r == Err::<Self, ConfigError>(ConfigError::EmptyProblem) <==> problem.data@.len() == 0,
            r == Err::<Self, ConfigError>(ConfigError::EmptyPopulation) <==> problem.data@.len()
                > 0 && configuration.spec_population_size() < 2,
    ;

    fn run(&mut self) -> (s: Solution)
        requires
            old(self).wf(),
        ensures
            solution_consistent(old(self).problem_of(), s),
            s.fitness == final(self).best_of().fitness,
            final(self).best_of().fitness >= old(self).best_of().fitness,
            forall|j: int|
                0 <= j < old(self).population_of().len() ==> final(self).best_of().fitness
                    >= fitness_spec(
                    old(self).problem_of(),
                    (#[trigger] old(self).population_of()[j]).genes@,
                ),
    ;
}

/// Preprocessing output usable for seeding: the retained best assignment is
/// either absent or shaped like a gene vector of this problem.
pub open spec fn preprocessing_wf(pre: &PreprocessingResult, p: Problem) -> bool {
    pre.ub_fix_result.x_best@.len() == 0 || genes_wf(pre.ub_fix_result.x_best@, p)
}

/// The items a gene vector selects from the first `n` groups, in group order.
pub open spec fn selected_prefix(p: Problem, genes: Seq<usize>, n: int) -> Seq<Item>
    decreases n,
{
    if n <= 0 {
        Seq::empty()
    } else if genes[n - 1] == 0 {
        selected_prefix(p, genes, n - 1)
    } else {
        selected_prefix(p, genes, n - 1).push(p.data@[n - 1]@[genes[n - 1] - 1])
    }
}

/// A solution is consistent with its problem: its items are the selection of
/// some feasible assignment, and the recorded totals are that assignment's.
pub open spec fn solution_consistent(p: Problem, s: Solution) -> bool {
    exists|genes: Seq<usize>|
        {
            &&& #[trigger] genes_wf(genes, p)
            &&& feasible(p, genes)
            &&& s.data@ == selected_prefix(p, genes, genes.len() as int)
            &&& s.cost == chromosome_cost(p, genes)
            &&& s.fitness == chromosome_gain(p, genes)
        }
}

/// Tier `a` drains capacity faster per unit of gain than tier `b`: its
/// marginal rate `a.cost / a.gain` is strictly higher, compared exactly by
/// cross-multiplication. Repair demotes the worst such tier first.
pub open spec fn rate_gt(a: Item, b: Item) -> bool {
    a.cost * b.gain > b.cost * a.gain
}

/// The first selected gene whose current tier has the strictly highest
/// marginal rate (cost per unit of gain) among the first `n` genes, if any
/// gene is selected there: the least efficient selected tier.
pub open spec fn max_rate_prefix(p: Problem, genes: Seq<usize>, n: int) -> Option<int>
    decreases n,
{
    if n <= 0 {
        None
    } else {
        let prev = max_rate_prefix(p, genes, n - 1);
        if genes[n - 1] == 0 {
            prev
        } else {
            match prev {
                None => Some(n - 1),
                Some(j) => if rate_gt(
                    p.data@[n - 1]@[genes[n - 1] - 1],
                    p.data@[j]@[genes[j] - 1],
                ) {
                    Some(n - 1)
                } else {
                    Some(j)
                },
            }
        }
    }
}

/// What `max_rate_prefix` returns: a selected index below `n`, absent exactly
/// when no gene below `n` is selected.
pub proof fn lemma_max_rate_prefix_props(p: Problem, genes: Seq<usize>, n: int)
    requires
        0 <= n <= genes.len(),
    ensures
        max_rate_prefix(p, genes, n) is None ==> forall|i: int| 0 <= i < n ==> genes[i] == 0,
        max_rate_prefix(p, genes, n) matches Some(j) ==> 0 <= j < n && genes[j] != 0,
    decreases n,
{
    if n > 0 {
        lemma_max_rate_prefix_props(p, genes, n - 1);
    }
}

/// An all-zero prefix contributes no cost.
pub proof fn lemma_all_zero_cost(p: Problem, genes: Seq<usize>, n: int)
    requires
        0 <= n <= genes.len(),
        forall|i: int| 0 <= i < n ==> genes[i] == 0,
    ensures
        cost_prefix(p, genes, n) == 0,
    decreases n,
{
    if n > 0 {
        lemma_all_zero_cost(p, genes, n - 1);
    }
}

/// An all-zero assignment selects nothing: no cost, no gain, no items.
pub proof fn lemma_all_zero_assignment(p: Problem, genes: Seq<usize>, n: int)
    requires
        0 <= n <= genes.len(),
        forall|i: int| 0 <= i < n ==> genes[i] == 0,
    ensures
        cost_prefix(p, genes, n) == 0,
        gain_prefix(p, genes, n) == 0,
        selected_prefix(p, genes, n) =~= Seq::<Item>::empty(),
    decreases n,
{
    if n > 0 {
        lemma_all_zero_assignment(p, genes, n - 1);
    }
}

/// An assignment with positive cost selects at least one gene.
pub proof fn lemma_cost_pos_has_selected(p: Problem, genes: Seq<usize>, n: int)
    requires
        0 <= n <= genes.len(),
        cost_prefix(p, genes, n) > 0,
    ensures
        exists|i: int| 0 <= i < n && genes[i] != 0,
    decreases n,
{
    if genes[n - 1] != 0 {
        assert(0 <= n - 1 < n && genes[n - 1] != 0);
    } else {
        lemma_cost_pos_has_selected(p, genes, n - 1);
    }
}

/// The sum of the gene values of the first `n` genes: the repair loop's
/// termination measure.
pub open spec fn genes_sum(genes: Seq<usize>, n: int) -> int
    decreases n,
{
    if n <= 0 {
        0
    } else {
        genes_sum(genes, n - 1) + genes[n - 1]
    }
}

/// The gene sum is non-negative.
pub proof fn lemma_genes_sum_nonneg(genes: Seq<usize>, n: int)
    requires
        0 <= n <= genes.len(),
    ensures
        genes_sum(genes, n) >= 0,
    decreases n,
{
    if n > 0 {
        lemma_genes_sum_nonneg(genes, n - 1);
    }
}

/// Updating one gene shifts the gene sum by exactly the change at that gene.
pub proof fn lemma_genes_sum_update(a: Seq<usize>, b: Seq<usize>, i: int, n: int)
    requires
        0 <= i < a.len(),
        b == a.update(i, b[i]),
        b.len() == a.len(),
        0 <= n <= a.len(),
    ensures
        i < n ==> genes_sum(b, n) == genes_sum(a, n) - a[i] + b[i],
        n <= i ==> genes_sum(b, n) == genes_sum(a, n),
    decreases n,
{
    if n > 0 {
        lemma_genes_sum_update(a, b, i, n - 1);
    }
}

/// Greedy repair, defined as a function: while the assignment exceeds the
/// capacity, demote the first selected gene of strictly highest marginal
/// rate (cost per gain: the least efficient) by one tier.
pub open spec fn repair_spec(p: Problem, genes: Seq<usize>) -> Seq<usize>
    decreases genes_sum(genes, genes.len() as int),
    when 0 <= genes_sum(genes, genes.len() as int)
    via repair_spec_decreases
{
    if feasible(p, genes) {
        genes
    } else {
        match max_rate_prefix(p, genes, genes.len() as int) {
            None => genes,
            Some(j) => repair_spec(p, genes.update(j, (genes[j] - 1) as usize)),
        }
    }
}

#[via_fn]
proof fn repair_spec_decreases(p: Problem, genes: Seq<usize>) {
    let n = genes.len() as int;
    if !feasible(p, genes) {
        if let Some(j) = max_rate_prefix(p, genes, n) {
            lemma_max_rate_prefix_props(p, genes, n);
            let demoted = genes.update(j, (genes[j] - 1) as usize);
            lemma_genes_sum_update(genes, demoted, j, n);
            lemma_genes_sum_nonneg(demoted, n);
        }
    }
}

/// A field-by-field copy of a chromosome.
pub fn clone_chromosome(c: &Chromosome) -> (r: Chromosome)
    ensures
        r.genes@ == c.genes@,
        r.fitness == c.fitness,
        r.age == c.age,
{
    Chromosome { genes: clone_copy_vec(&c.genes), fitness: c.fitness, age: c.age }
}

/// Executable form of `rate_gt`.
fn rate_gt_exec(a: &Item, b: &Item) -> (r: bool)
    requires
        item_valid(*a),
        item_valid(*b),
    ensures
        r == rate_gt(*a, *b),
{
    proof {
        lemma_mul_le(a.cost as int, b.gain as int, VALUE_LIMIT as int);
        lemma_mul_le(b.cost as int, a.gain as int, VALUE_LIMIT as int);
    }
    a.cost * b.gain > b.cost * a.gain
}

/// What greedy repair guarantees: the result is well-formed and feasible,
/// never promotes a gene, and leaves a feasible assignment untouched.
pub proof fn lemma_repair_spec_props(p: Problem, genes: Seq<usize>)
    requires
        p.wf(),
        genes_wf(genes, p),
    ensures
        genes_wf(repair_spec(p, genes), p),
        feasible(p, repair_spec(p, genes)),
        feasible(p, genes) ==> repair_spec(p, genes) == genes,
        forall|i: int| 0 <= i < genes.len() ==> #[trigger] repair_spec(p, genes)[i] <= genes[i],
    decreases genes_sum(genes, genes.len() as int),
{
    let n = genes.len() as int;
    lemma_genes_sum_nonneg(genes, n);
    if !feasible(p, genes) {
        lemma_max_rate_prefix_props(p, genes, n);
        match max_rate_prefix(p, genes, n) {
            None => {
                lemma_all_zero_cost(p, genes, n);
            },
            Some(j) => {
                let demoted = genes.update(j, (genes[j] - 1) as usize);
                lemma_genes_sum_update(genes, demoted, j, n);
                lemma_genes_sum_nonneg(demoted, n);
                lemma_repair_spec_props(p, demoted);
            },
        }
    }
}

/// Two chromosomes carry the same assignment, fitness and age.
pub open spec fn same_chromosome(a: Chromosome, b: Chromosome) -> bool {
    a.genes@ == b.genes@ && a.fitness == b.fitness && a.age == b.age
}

/// `new` is `prev` after one mutation step: one gene redrawn, fitness and age
/// reset to force re-evaluation.
pub open spec fn is_mutation_of(new: Chromosome, prev: Chromosome) -> bool {
    exists|idx: int, v: usize|
        {
            &&& 0 <= idx < prev.genes@.len()
            &&& v <= 3
            &&& new.genes@ == #[trigger] prev.genes@.update(idx, v)
            &&& new.fitness == 0
            &&& new.age == 0
        }
}

/// Single-point crossover: `a`'s genes before `pt`, `b`'s from `pt` on.
pub open spec fn cross_genes(a: Seq<usize>, b: Seq<usize>, pt: int) -> Seq<usize> {
    a.subrange(0, pt) + b.subrange(pt, b.len() as int)
}

/// The running fitness total of the first `n` members.
pub open spec fn fitness_sum(pop: Seq<Chromosome>, n: int) -> int
    decreases n,
{
    if n <= 0 {
        0
    } else {
        fitness_sum(pop, n - 1) + pop[n - 1].fitness
    }
}

/// With every member's fitness in `[0, i64::MAX]`, the running total of the
/// first `n` members stays within `n * i64::MAX`.
pub proof fn lemma_fitness_sum_bounds(pop: Seq<Chromosome>, n: int)
    requires
        0 <= n <= pop.len(),
        forall|i: int| 0 <= i < pop.len() ==> 0 <= (#[trigger] pop[i]).fitness,
    ensures
        0 <= fitness_sum(pop, n) <= n * 0x7fff_ffff_ffff_ffff,
    decreases n,
{
    if n > 0 {
        lemma_fitness_sum_bounds(pop, n - 1);
    }
}

/// `a * c <= b * c` for `0 <= a <= b` and `0 <= c`.
pub proof fn lemma_mul_mono(a: int, b: int, c: int)
    requires
        0 <= a <= b,
        0 <= c,
    ensures
        a * c <= b * c,
{
    assert(a * c <= b * c) by (nonlinear_arith)
        requires
            0 <= a <= b,
            0 <= c,
    {}
}

/// The member the roulette wheel stops on: scanning from `j`, the first
/// member whose cumulative fitness exceeds the draw, or the last member.
pub open spec fn roulette_pick(pop: Seq<Chromosome>, draw: int, j: int) -> int
    decreases pop.len() - j,
{
    if j >= pop.len() - 1 {
        j
    } else if fitness_sum(pop, j + 1) > draw {
        j
    } else {
        roulette_pick(pop, draw, j + 1)
    }
}

/// The wheel always stops on a member.
pub proof fn lemma_roulette_pick_in_range(pop: Seq<Chromosome>, draw: int, j: int)
    requires
        pop.len() >= 1,
        0 <= j < pop.len(),
    ensures
        j <= roulette_pick(pop, draw, j) < pop.len(),
    decreases pop.len() - j,
{
    if j < pop.len() - 1 && !(fitness_sum(pop, j + 1) > draw) {
        lemma_roulette_pick_in_range(pop, draw, j + 1);
    }
}

/// Fitness-proportional lookup: walks the cumulative fitness totals and
/// returns exactly the member `roulette_pick` names for this draw.
pub fn pick_index(pop: &Vec<Chromosome>, draw: u128) -> (idx: usize)
    requires
        pop@.len() >= 1,
        forall|i: int| 0 <= i < pop@.len() ==> 0 <= (#[trigger] pop@[i]).fitness,
    ensures
        idx as int == roulette_pick(pop@, draw as int, 0),
        idx < pop@.len(),
{
    let n = pop.len();
    let mut idx: usize = 0;
    let mut acc: u128 = 0;
    while idx + 1 < n
        invariant
            n == pop@.len(),
            n >= 1,
            forall|i: int| 0 <= i < pop@.len() ==> 0 <= (#[trigger] pop@[i]).fitness,
            idx < n,
            acc == fitness_sum(pop@, idx as int),
            roulette_pick(pop@, draw as int, 0) == roulette_pick(pop@, draw as int, idx as int),
        decreases n - idx,
    {
        proof {
            lemma_fitness_sum_bounds(pop@, idx as int);
            lemma_mul_mono(idx as int, 0xffff_ffff_ffff_ffff, 0x7fff_ffff_ffff_ffff);
        }
        let step = pop[idx].fitness as u128;
        if acc + step > draw {
            return idx;
        }
        acc = acc + step;
        idx = idx + 1;
    }
    idx
}

/// `new` is `old` after one evaluation step: same genes, fitness recomputed,
/// age one generation older (saturating).
pub open spec fn is_evaluation_of(p: Problem, new: Chromosome, prev: Chromosome) -> bool {
    &&& new.genes@ == prev.genes@
    &&& new.fitness == fitness_spec(p, prev.genes@)
    &&& new.age == if prev.age < i32::MAX {
        prev.age + 1
    } else {
        prev.age as int
    }
}

/// `c` carries the same data as some element of `pool`.
pub open spec fn in_pool(c: Chromosome, pool: Seq<Chromosome>) -> bool {
    exists|j: int| 0 <= j < pool.len() && same_chromosome(c, #[trigger] pool[j])
}

/// Every element of `s` carries the same data as some element of `pool`.
pub open spec fn drawn_from(s: Seq<Chromosome>, pool: Seq<Chromosome>) -> bool {
    forall|i: int| 0 <= i < s.len() ==> in_pool(#[trigger] s[i], pool)
}

/// `new` is a permutation of `prev` with each member evaluated in place:
/// same genes, fitness recomputed, age one generation older.
pub open spec fn evaluation_permutation(p: Problem, new: Seq<Chromosome>, prev: Seq<Chromosome>) -> bool {
    exists|mid: Seq<Chromosome>|
        {
            &&& #[trigger] mid.len() == prev.len()
            &&& forall|j: int| 0 <= j < mid.len() ==> is_evaluation_of(p, #[trigger] mid[j], prev[j])
            &&& new.to_multiset() == mid.to_multiset()
        }
}

/// The pair `(c1, c2)` is the repaired offspring of a single-point crossing
/// of two members of `pool`.
pub open spec fn crossed_from(p: Problem, c1: Chromosome, c2: Chromosome, pool: Seq<Chromosome>) -> bool {
    exists|i1: int, i2: int, pt: int|
        {
            &&& 0 <= i1 < pool.len()
            &&& 0 <= i2 < pool.len()
            &&& 0 <= pt < pool[i1].genes@.len()
            &&& c1.genes@ == repair_spec(
                p,
                #[trigger] cross_genes(pool[i1].genes@, pool[i2].genes@, pt),
            )
            &&& c2.genes@ == repair_spec(p, cross_genes(pool[i2].genes@, pool[i1].genes@, pt))
        }
}

/// Moving one element of a sequence to another position leaves its multiset
/// of elements unchanged.
proof fn lemma_seq_move_preserves_multiset(
    before: Seq<Chromosome>,
    after: Seq<Chromosome>,
    i: int,
    j: int,
)
    requires
        0 <= i < before.len(),
        0 <= j <= before.len() - 1,
        after == before.remove(i).insert(j, before[i]),
    ensures
        after.to_multiset() == before.to_multiset(),
{
    broadcast use vstd::multiset::group_multiset_axioms;

    let v = before[i];
    vstd::seq_lib::to_multiset_remove(before, i);
    vstd::seq_lib::to_multiset_insert(before.remove(i), j, v);
    vstd::seq_lib::to_multiset_contains(before, v);
    assert(before.contains(v));
    assert(before.to_multiset().count(v) > 0);
    assert(before.to_multiset().remove(v).insert(v) =~= before.to_multiset());
}

/// Two sequences with the same multiset hold the same elements: any element
/// of one sits somewhere in the other.
proof fn lemma_multiset_index_transfer(a: Seq<Chromosome>, b: Seq<Chromosome>, j: int)
    requires
        a.to_multiset() == b.to_multiset(),
        0 <= j < b.len(),
    ensures
        exists|i: int| 0 <= i < a.len() && a[i] == b[j],
{
    vstd::seq_lib::to_multiset_contains(b, b[j]);
    vstd::seq_lib::to_multiset_contains(a, b[j]);
    assert(b.contains(b[j]));
    assert(a.contains(b[j]));
}

/// The population is sorted best-first.
pub open spec fn sorted_desc(s: Seq<Chromosome>) -> bool {
    forall|a: int, b: int|
        0 <= a <= b < s.len() ==> (#[trigger] s[a]).fitness >= (#[trigger] s[b]).fitness
}

/// Every member's cached fitness is the fitness of its genes.
pub open spec fn pop_evaluated(s: Seq<Chromosome>, p: Problem) -> bool {
    forall|i: int| 0 <= i < s.len() ==> (#[trigger] s[i]).fitness == fitness_spec(p, s[i].genes@)
}

/// One insertion step: moving the element at `i` back to position `j` keeps
/// the prefix through `i` sorted and reorders, but never invents, elements.
proof fn lemma_insertion_step(before: Seq<Chromosome>, after: Seq<Chromosome>, i: int, j: int)
    requires
        0 <= j <= i < before.len(),
        after == before.remove(i).insert(j, before[i]),
        forall|a: int, b: int|
            0 <= a <= b < i ==> (#[trigger] before[a]).fitness >= (#[trigger] before[b]).fitness,
        forall|k: int| 0 <= k < j ==> (#[trigger] before[k]).fitness >= before[i].fitness,
        j < i ==> before[j].fitness < before[i].fitness,
    ensures
        after.len() == before.len(),
        after.to_multiset() == before.to_multiset(),
        forall|a: int, b: int|
            0 <= a <= b <= i ==> (#[trigger] after[a]).fitness >= (#[trigger] after[b]).fitness,
        forall|k: int| i < k < after.len() ==> after[k] == before[k],
{
    lemma_seq_move_preserves_multiset(before, after, i, j);
    assert(forall|k: int| 0 <= k < j ==> after[k] == before[k]);
    assert(after[j] == before[i]);
    assert(forall|k: int| j < k <= i ==> after[k] == before[k - 1]);
    assert(forall|k: int| i < k < after.len() ==> after[k] == before[k]);
    assert forall|a: int, b: int| 0 <= a <= b <= i implies (#[trigger] after[a]).fitness
        >= (#[trigger] after[b]).fitness by {
        if b < j {
            assert(before[a].fitness >= before[b].fitness);
        } else if b == j {
            if a < j {
                assert(before[a].fitness >= before[i].fitness);
            }
        } else {
            assert(j < i);
            assert(after[b] == before[b - 1]);
            assert(j <= b - 1 < i);
            assert(before[j].fitness >= before[b - 1].fitness);
            if a < j {
                assert(before[a].fitness >= before[i].fitness);
                assert(before[i].fitness > before[j].fitness);
            } else if a == j {
                assert(after[a] == before[i]);
                assert(before[i].fitness > before[j].fitness);
            } else {
                assert(after[a] == before[a - 1]);
                assert(before[a - 1].fitness >= before[b - 1].fitness);
            }
        }
    }
}

/// Sorts a population best-first by straight insertion. Every element of the
/// result carries the data of some element of the input.
fn sort_population_desc(pop: &mut Vec<Chromosome>)
    ensures
        final(pop)@.len() == old(pop)@.len(),
        sorted_desc(final(pop)@),
        final(pop)@.to_multiset() == old(pop)@.to_multiset(),
{
    let ghost pool = old(pop)@;
    let mut i: usize = 1;
    while i < pop.len()
        invariant
            1 <= i,
            pop@.len() == pool.len(),
            forall|a: int, b: int|
                0 <= a <= b < i ==> (#[trigger] pop@[a]).fitness >= (#[trigger] pop@[b]).fitness,
            pop@.to_multiset() == pool.to_multiset(),
        decreases pop@.len() - i,
    {
        let ghost before = pop@;
        // Find the insertion point for the element at `i` in the sorted
        // prefix: the first position whose fitness is strictly smaller.
        let key_fitness = pop[i].fitness;
        let mut j: usize = 0;
        while j < i && pop[j].fitness >= key_fitness
            invariant
                j <= i,
                i < pop@.len(),
                pop@ == before,
                forall|k: int| 0 <= k < j ==> (#[trigger] pop@[k]).fitness >= key_fitness,
            decreases i - j,
        {
            j = j + 1;
        }
        let ghost jj = j as int;
        let ghost ii = i as int;
        let x = pop.remove(i);
        pop.insert(j, x);
        proof {
            lemma_insertion_step(before, pop@, ii, jj);
        }
        i = i + 1;
    }
}

/// Every member of a population is well-formed and carries a fitness between
/// the sentinel `0` and the instance's total gain.
pub open spec fn pop_wf(pop: Seq<Chromosome>, p: Problem) -> bool {
    forall|i: int|
        0 <= i < pop.len() ==> genes_wf((#[trigger] pop[i]).genes@, p) && 0 <= pop[i].fitness
            <= p.total_gain()
}

/// The retained best chromosome is either the initial placeholder or a
/// correctly evaluated, strictly profitable assignment.
pub open spec fn best_ok(p: Problem, c: Chromosome) -> bool {
    ||| (c.genes@.len() == 0 && c.fitness == 0)
    ||| (genes_wf(c.genes@, p) && c.fitness == fitness_spec(p, c.genes@) && c.fitness >= 1)
}

/// The search state the engine carries from phase to phase.
pub struct KnapsackGeneticAlgorithm<C: Configuration> {
    pub best: Chromosome,
    pub remain_no_improved_generations: u8,
    pub configuration: C,
    pub population: Vec<Chromosome>,
    pub problem: Problem,
    pub rng: rand::rngs::SmallRng,
    pub mutation_factor: u16,
    pub preprocessing_result: PreprocessingResult,
}

impl<C: Configuration> KnapsackGeneticAlgorithm<C> {
    /// Internal consistency: a valid instance with at least one group, a
    /// population that can sustain pairwise crossover, and a sound best.
    pub open spec fn engine_wf(&self) -> bool {
        &&& self.problem.wf()
        &&& self.problem.data@.len() >= 1
        &&& self.population@.len() >= 2
        &&& pop_wf(self.population@, self.problem)
        &&& best_ok(self.problem, self.best)
    }

    /// Total gain and total cost of an assignment, computed exactly.
    pub fn get_chromosome_summary(&self, chromosome: &Chromosome) -> (r: (i64, i64))
        requires
            self.problem.wf(),
            genes_wf(chromosome.genes@, self.problem),
        ensures
            r.0 == chromosome_gain(self.problem, chromosome.genes@),
            r.1 == chromosome_cost(self.problem, chromosome.genes@),
    {
        let p = &self.problem;
        let genes = &chromosome.genes;
        let ghost gs = genes@;
        let mut gain: i64 = 0;
        let mut cost: i64 = 0;
        let mut g: usize = 0;
        while g < genes.len()
            invariant
                p.wf(),
                genes_wf(gs, *p),
                gs == genes@,
                g <= gs.len(),
                gain == gain_prefix(*p, gs, g as int),
                cost == cost_prefix(*p, gs, g as int),
            decreases gs.len() - g,
        {
            proof {
                lemma_prefix_fits(*p, gs, g as int);
                lemma_prefix_fits(*p, gs, g + 1);
            }
            let gene = genes[g];
            if gene != 0 {
                gain = gain + p.data[g][gene - 1].gain;
                cost = cost + p.data[g][gene - 1].cost;
            }
            g = g + 1;
        }
        (gain, cost)
    }

    /// The first selected gene whose current tier has the strictly highest
    /// marginal rate (cost per gain), with its value.
    pub fn find_max_rate(&self, chromosome: &Chromosome) -> (r: (usize, usize))
        requires
            self.problem.wf(),
            genes_wf(chromosome.genes@, self.problem),
            exists|i: int| 0 <= i < chromosome.genes@.len() && chromosome.genes@[i] != 0,
        ensures
            max_rate_prefix(self.problem, chromosome.genes@, chromosome.genes@.len() as int)
                == Some(r.0 as int),
            r.1 == chromosome.genes@[r.0 as int],
            r.1 != 0,
            r.0 < chromosome.genes@.len(),
    {
        let p = &self.problem;
        let genes = &chromosome.genes;
        let ghost gs = genes@;
        let mut best: usize = 0;
        let mut found = false;
        let mut g: usize = 0;
        while g < genes.len()
            invariant
                p.wf(),
                genes_wf(gs, *p),
                gs == genes@,
                g <= gs.len(),
                !found ==> max_rate_prefix(*p, gs, g as int) is None,
                found ==> max_rate_prefix(*p, gs, g as int) == Some(best as int) && best < g
                    && gs[best as int] != 0,
            decreases gs.len() - g,
        {
            let gene = genes[g];
            if gene != 0 {
                if !found {
                    best = g;
                    found = true;
                } else {
                    let prev = genes[best];
                    proof {
                        assert(item_valid(p.data@[g as int]@[gene - 1]));
                        assert(item_valid(p.data@[best as int]@[prev - 1]));
                    }
                    if rate_gt_exec(&p.data[g][gene - 1], &p.data[best][prev - 1]) {
                        best = g;
                    }
                }
            }
            g = g + 1;
        }
        proof {
            lemma_max_rate_prefix_props(*p, gs, gs.len() as int);
        }
        (best, genes[best])
    }

    /// Greedy repair: while the assignment exceeds the capacity, demote the
    /// selected gene of highest marginal rate (the least gain per unit of
    /// cost) by one tier. A feasible chromosome comes back unchanged,
    /// fitness and age included.
    pub fn repair_chromosome(&self, chromosome: &Chromosome) -> (r: Chromosome)
        requires
            self.problem.wf(),
            genes_wf(chromosome.genes@, self.problem),
        ensures
            r.genes@ == repair_spec(self.problem, chromosome.genes@),
            genes_wf(r.genes@, self.problem),
            feasible(self.problem, r.genes@),
            feasible(self.problem, chromosome.genes@) ==> r.genes@ == chromosome.genes@
                && r.fitness == chromosome.fitness && r.age == chromosome.age,
            !feasible(self.problem, chromosome.genes@) ==> r.fitness == 0 && r.age == 0,
    {
        let p = &self.problem;
        let ghost gs0 = chromosome.genes@;
        proof {
            lemma_repair_spec_props(*p, gs0);
        }
        let summary = self.get_chromosome_summary(chromosome);
        let mut cost = summary.1;
        if cost <= p.capacity as i64 {
            return clone_chromosome(chromosome);
        }
        let mut genes = clone_copy_vec(&chromosome.genes);
        while cost > p.capacity as i64
            invariant
                p.wf(),
                p == &self.problem,
                genes_wf(genes@, *p),
                cost == chromosome_cost(*p, genes@),
                repair_spec(*p, genes@) == repair_spec(*p, gs0),
            decreases genes_sum(genes@, genes@.len() as int),
        {
            let ghost gs = genes@;
            proof {
                lemma_genes_sum_nonneg(gs, gs.len() as int);
                // An over-budget assignment has positive cost, so some gene
                // is selected.
                lemma_cost_pos_has_selected(*p, gs, gs.len() as int);
            }
            let c = Chromosome { genes, fitness: 0, age: 0 };
            let (high_rate_gene, value) = self.find_max_rate(&c);
            genes = c.genes;
            proof {
                lemma_prefix_fits(*p, gs, gs.len() as int);
                assert(item_valid(p.data@[high_rate_gene as int]@[value - 1]));
            }
            cost = cost - p.data[high_rate_gene][value - 1].cost;
            if value > 1 {
                proof {
                    assert(item_valid(p.data@[high_rate_gene as int]@[value - 2]));
                }
                cost = cost + p.data[high_rate_gene][value - 2].cost;
            }
            genes.set(high_rate_gene, value - 1);
            proof {
                lemma_prefix_update(*p, gs, genes@, high_rate_gene as int, gs.len() as int);
                lemma_genes_sum_update(gs, genes@, high_rate_gene as int, gs.len() as int);
                lemma_genes_sum_nonneg(genes@, genes@.len() as int);
                assert(genes@ =~= gs.update(high_rate_gene as int, (gs[high_rate_gene as int]
                    - 1) as usize));
                assert(repair_spec(*p, gs) == repair_spec(*p, genes@));
            }
        }
        proof {
            lemma_genes_sum_nonneg(genes@, genes@.len() as int);
            assert(repair_spec(*p, genes@) == genes@);
        }
        Chromosome::init_chromosome(genes)
    }

    /// Fitness: the total gain if the assignment fits the capacity, else the
    /// hard infeasibility sentinel `0`.
    pub fn fitness_func(&self, chromosome: &Chromosome) -> (f: i64)
        requires
            self.problem.wf(),
            genes_wf(chromosome.genes@, self.problem),
        ensures
            f == fitness_spec(self.problem, chromosome.genes@),
            0 <= f <= self.problem.total_gain(),
    {
        proof {
            lemma_fitness_bounds(self.problem, chromosome.genes@);
        }
        let (gain, cost) = self.get_chromosome_summary(chromosome);
        if cost > self.problem.capacity as i64 {
            return 0;
        }
        gain
    }

    /// Recomputes every member's fitness, ages each survivor, and sorts the
    /// population best-first.
    pub fn evaluate(&mut self)
        requires
            old(self).problem.wf(),
            pop_wf(old(self).population@, old(self).problem),
        ensures
            *final(self) == (KnapsackGeneticAlgorithm {
                population: final(self).population,
                ..*old(self)
            }),
            final(self).population@.len() == old(self).population@.len(),
            pop_wf(final(self).population@, old(self).problem),
            pop_evaluated(final(self).population@, old(self).problem),
            sorted_desc(final(self).population@),
            evaluation_permutation(
                old(self).problem,
                final(self).population@,
                old(self).population@,
            ),
    {
        let ghost p = self.problem;
        let ghost pop0 = self.population@;
        let n = self.population.len();
        let mut i: usize = 0;
        while i < n
            invariant
                p == self.problem,
                p.wf(),
                n == self.population@.len(),
                pop0.len() == n,
                i <= n,
                pop_wf(pop0, p),
                forall|j: int| i <= j < n ==> self.population@[j] == pop0[j],
                forall|j: int|
                    0 <= j < i ==> is_evaluation_of(p, #[trigger] self.population@[j], pop0[j]),
                pop_wf(self.population@, p),
                *self == (KnapsackGeneticAlgorithm { population: self.population, ..*old(self) }),
            decreases n - i,
        {
            let f = self.fitness_func(&self.population[i]);
            let mut c = clone_chromosome(&self.population[i]);
            c.set_fitness(f);
            if c.age < i32::MAX {
                c.increase_age();
            }
            self.population.set(i, c);
            i = i + 1;
        }
        let ghost mid = self.population@;
        sort_population_desc(&mut self.population);
        proof {
            assert(evaluation_permutation(p, self.population@, pop0));
            assert(pop_wf(self.population@, p) && pop_evaluated(self.population@, p)) by {
                assert forall|k: int| 0 <= k < self.population@.len() implies genes_wf(
                    (#[trigger] self.population@[k]).genes@,
                    p,
                ) && 0 <= self.population@[k].fitness <= p.total_gain()
                    && self.population@[k].fitness == fitness_spec(
                    p,
                    self.population@[k].genes@,
                ) by {
                    lemma_multiset_index_transfer(mid, self.population@, k);
                    let l = choose|l: int|
                        0 <= l < mid.len() && mid[l] == self.population@[k];
                    assert(is_evaluation_of(p, mid[l], pop0[l]));
                    lemma_fitness_bounds(p, pop0[l].genes@);
                }
            }
        }
    }

    /// Fitness-proportional sampling with replacement. When the whole
    /// population has fitness `0`, falls back to uniform sampling.
    pub fn roulette_wheel_selection(&mut self)
        requires
            old(self).engine_wf(),
        ensures
            *final(self) == (KnapsackGeneticAlgorithm {
                population: final(self).population,
                rng: final(self).rng,
                ..*old(self)
            }),
            final(self).population@.len() == old(self).population@.len(),
            drawn_from(final(self).population@, old(self).population@),
            final(self).engine_wf(),
    {
        let ghost p = self.problem;
        let ghost pop0 = self.population@;
        let n = self.population.len();
        // Total fitness, computed in 128 bits: it cannot overflow there.
        let mut sum: u128 = 0;
        let mut k: usize = 0;
        while k < n
            invariant
                n == self.population@.len(),
                pop_wf(self.population@, p),
                k <= n,
                sum == fitness_sum(self.population@, k as int),
                *self == *old(self),
            decreases n - k,
        {
            proof {
                lemma_fitness_sum_bounds(self.population@, k as int);
                lemma_mul_mono(k as int, 0xffff_ffff_ffff_ffff, 0x7fff_ffff_ffff_ffff);
            }
            sum = sum + self.population[k].fitness as u128;
            k = k + 1;
        }
        let mut new_population: Vec<Chromosome> = Vec::new();
        let mut s: usize = 0;
        while s < n
            invariant
                n == self.population@.len(),
                n >= 1,
                pop_wf(self.population@, p),
                self.population@ == pop0,
                s <= n,
                new_population@.len() == s,
                drawn_from(new_population@, pop0),
                *self == (KnapsackGeneticAlgorithm { rng: self.rng, ..*old(self) }),
            decreases n - s,
        {
            let idx: usize = if sum == 0 {
                // Degenerate wheel: every member has fitness 0; sample
                // uniformly instead.
                rand_below(&mut self.rng, n as u64) as usize
            } else {
                let draw = rand_below_u128(&mut self.rng, sum);
                proof {
                    lemma_roulette_pick_in_range(self.population@, draw as int, 0);
                }
                pick_index(&self.population, draw)
            };
            let c = clone_chromosome(&self.population[idx]);
            proof {
                assert(same_chromosome(c, pop0[idx as int]));
                assert(in_pool(c, pop0));
            }
            new_population.push(c);
            s = s + 1;
        }
        self.population = new_population;
        proof {
            assert forall|i: int| 0 <= i < self.population@.len() implies genes_wf(
                (#[trigger] self.population@[i]).genes@,
                p,
            ) && 0 <= self.population@[i].fitness <= p.total_gain() by {
                let j = choose|j: int|
                    0 <= j < pop0.len() && same_chromosome(self.population@[i], pop0[j]);
            }
        }
    }

    /// Selection: rebuild the pool by roulette-wheel sampling.
    pub fn select(&mut self)
        requires
            old(self).engine_wf(),
        ensures
            *final(self) == (KnapsackGeneticAlgorithm {
                population: final(self).population,
                rng: final(self).rng,
                ..*old(self)
            }),
            final(self).population@.len() == old(self).population@.len(),
            drawn_from(final(self).population@, old(self).population@),
            final(self).engine_wf(),
    {
        self.roulette_wheel_selection();
    }

    /// One single-point crossover: a random cut, swapped gene suffixes, and
    /// both children repaired immediately.
    pub fn parent_crossover(&mut self, parent1: &Chromosome, parent2: &Chromosome) -> (children: (
        Chromosome,
        Chromosome,
    ))
        requires
            old(self).problem.wf(),
            old(self).problem.data@.len() >= 1,
            genes_wf(parent1.genes@, old(self).problem),
            genes_wf(parent2.genes@, old(self).problem),
        ensures
            *final(self) == (KnapsackGeneticAlgorithm { rng: final(self).rng, ..*old(self) }),
            genes_wf(children.0.genes@, old(self).problem),
            genes_wf(children.1.genes@, old(self).problem),
            feasible(old(self).problem, children.0.genes@),
            feasible(old(self).problem, children.1.genes@),
            children.0.fitness == 0 && children.1.fitness == 0,
            exists|pt: int|
                0 <= pt < parent1.genes@.len() && children.0.genes@ == repair_spec(
                    old(self).problem,
                    #[trigger] cross_genes(parent1.genes@, parent2.genes@, pt),
                ) && children.1.genes@ == repair_spec(
                    old(self).problem,
                    cross_genes(parent2.genes@, parent1.genes@, pt),
                ),
    {
        let ghost p = self.problem;
        let len = parent1.genes.len();
        let crossover_point = rand_below(&mut self.rng, len as u64) as usize;
        let mut child1_genes: Vec<usize> = Vec::new();
        let mut child2_genes: Vec<usize> = Vec::new();
        let mut i: usize = 0;
        while i < len
            invariant
                len == parent1.genes@.len(),
                len == parent2.genes@.len(),
                crossover_point < len,
                i <= len,
                child1_genes@.len() == i,
                child2_genes@.len() == i,
                forall|j: int|
                    0 <= j < i ==> #[trigger] child1_genes@[j] == if j < crossover_point {
                        parent1.genes@[j]
                    } else {
                        parent2.genes@[j]
                    },
                forall|j: int|
                    0 <= j < i ==> #[trigger] child2_genes@[j] == if j < crossover_point {
                        parent2.genes@[j]
                    } else {
                        parent1.genes@[j]
                    },
            decreases len - i,
        {
            if i < crossover_point {
                child1_genes.push(parent1.genes[i]);
                child2_genes.push(parent2.genes[i]);
            } else {
                child1_genes.push(parent2.genes[i]);
                child2_genes.push(parent1.genes[i]);
            }
            i = i + 1;
        }
        let ghost pt = crossover_point as int;
        proof {
            assert(child1_genes@ =~= cross_genes(parent1.genes@, parent2.genes@, pt));
            assert(child2_genes@ =~= cross_genes(parent2.genes@, parent1.genes@, pt));
            lemma_repair_spec_props(p, child1_genes@);
            lemma_repair_spec_props(p, child2_genes@);
        }
        let child1 = self.repair_chromosome(&Chromosome::init_chromosome(child1_genes));
        let child2 = self.repair_chromosome(&Chromosome::init_chromosome(child2_genes));
        (child1, child2)
    }

    /// Crossover: rebuild the population from randomly paired parents; an odd
    /// straggler is dropped.
    pub fn crossover(&mut self)
        requires
            old(self).engine_wf(),
        ensures
            *final(self) == (KnapsackGeneticAlgorithm {
                population: final(self).population,
                rng: final(self).rng,
                ..*old(self)
            }),
            final(self).population@.len() == 2 * (old(self).population@.len() as int / 2),
            pop_wf(final(self).population@, old(self).problem),
            forall|i: int|
                0 <= i < final(self).population@.len() ==> feasible(
                    old(self).problem,
                    (#[trigger] final(self).population@[i]).genes@,
                ),
            forall|k: int|
                0 <= k < final(self).population@.len() / 2 ==> crossed_from(
                    old(self).problem,
                    #[trigger] final(self).population@[2 * k],
                    final(self).population@[2 * k + 1],
                    old(self).population@,
                ),
            final(self).engine_wf(),
    {
        let ghost p = self.problem;
        let n = self.population.len();
        let pairs = n / 2;
        let mut new_population: Vec<Chromosome> = Vec::new();
        let mut k: usize = 0;
        while k < pairs
            invariant
                p == self.problem,
                n == self.population@.len(),
                pairs == n as int / 2,
                n >= 2,
                pop_wf(self.population@, p),
                p.wf(),
                p.data@.len() >= 1,
                k <= pairs,
                new_population@.len() == 2 * k,
                pop_wf(new_population@, p),
                forall|i: int|
                    0 <= i < new_population@.len() ==> feasible(
                        p,
                        (#[trigger] new_population@[i]).genes@,
                    ),
                self.population@ == old(self).population@,
                forall|q: int|
                    0 <= q < k ==> crossed_from(
                        p,
                        #[trigger] new_population@[2 * q],
                        new_population@[2 * q + 1],
                        old(self).population@,
                    ),
                *self == (KnapsackGeneticAlgorithm { rng: self.rng, ..*old(self) }),
            decreases pairs - k,
        {
            let i1 = rand_below(&mut self.rng, n as u64) as usize;
            let i2 = rand_below(&mut self.rng, n as u64) as usize;
            let parent1 = clone_chromosome(&self.population[i1]);
            let parent2 = clone_chromosome(&self.population[i2]);
            let (child1, child2) = self.parent_crossover(&parent1, &parent2);
            proof {
                lemma_fitness_bounds(p, child1.genes@);
                lemma_fitness_bounds(p, child2.genes@);
                // The drawn parents carry their population entries' genes, so
                // the children are crossings of those entries.
                let pool = old(self).population@;
                let pt = choose|pt: int|
                    0 <= pt < parent1.genes@.len() && child1.genes@ == repair_spec(
                        p,
                        #[trigger] cross_genes(parent1.genes@, parent2.genes@, pt),
                    ) && child2.genes@ == repair_spec(
                        p,
                        cross_genes(parent2.genes@, parent1.genes@, pt),
                    );
                assert(parent1.genes@ == pool[i1 as int].genes@);
                assert(parent2.genes@ == pool[i2 as int].genes@);
                assert(cross_genes(pool[i1 as int].genes@, pool[i2 as int].genes@, pt)
                    == cross_genes(parent1.genes@, parent2.genes@, pt));
                assert(crossed_from(p, child1, child2, pool));
            }
            new_population.push(child1);
            new_population.push(child2);
            k = k + 1;
        }
        self.population = new_population;
    }

    /// Mutation: each member independently has a `mutation_factor`-per-mille
    /// chance of one gene redrawn, with fitness and age reset. No repair
    /// happens here; an infeasible mutant earns fitness `0` at evaluation.
    pub fn mutate(&mut self)
        requires
            old(self).engine_wf(),
        ensures
            *final(self) == (KnapsackGeneticAlgorithm {
                population: final(self).population,
                rng: final(self).rng,
                ..*old(self)
            }),
            final(self).population@.len() == old(self).population@.len(),
            forall|i: int|
                0 <= i < final(self).population@.len() ==> same_chromosome(
                    #[trigger] final(self).population@[i],
                    old(self).population@[i],
                ) || is_mutation_of(final(self).population@[i], old(self).population@[i]),
            final(self).engine_wf(),
    {
        let ghost p = self.problem;
        let ghost pop0 = self.population@;
        let n = self.population.len();
        let mut i: usize = 0;
        while i < n
            invariant
                p == self.problem,
                p.wf(),
                p.data@.len() >= 1,
                n == self.population@.len(),
                pop0.len() == n,
                i <= n,
                pop_wf(pop0, p),
                pop_wf(self.population@, p),
                forall|j: int|
                    i <= j < n ==> same_chromosome(#[trigger] self.population@[j], pop0[j]),
                forall|j: int|
                    0 <= j < i ==> same_chromosome(#[trigger] self.population@[j], pop0[j])
                        || is_mutation_of(self.population@[j], pop0[j]),
                *self == (KnapsackGeneticAlgorithm {
                    population: self.population,
                    rng: self.rng,
                    ..*old(self)
                }),
            decreases n - i,
        {
            let roll = rand_below(&mut self.rng, 1000);
            if roll < self.mutation_factor as u64 {
                let mut c = clone_chromosome(&self.population[i]);
                let gene_count = c.genes.len();
                let idx = rand_below(&mut self.rng, gene_count as u64) as usize;
                let v = rand_below(&mut self.rng, 4) as usize;
                c.genes.set(idx, v);
                c.fitness = 0;
                c.age = 0;
                proof {
                    assert(c.genes@ == pop0[i as int].genes@.update(idx as int, v));
                }
                self.population.set(i, c);
            } else {
                proof {
                    assert(same_chromosome(self.population@[i as int], pop0[i as int]));
                }
            }
            i = i + 1;
        }
    }

    /// The termination state machine: a strictly better generation best
    /// replaces the retained best and refills the stagnation budget; otherwise
    /// the budget is spent by one, and evolution halts when it runs out.
    pub fn check_is_end(&mut self, new_chromosome: Chromosome) -> (stop: bool)
        requires
            old(self).problem.wf(),
            best_ok(old(self).problem, old(self).best),
            genes_wf(new_chromosome.genes@, old(self).problem),
            new_chromosome.fitness == fitness_spec(old(self).problem, new_chromosome.genes@),
        ensures
            *final(self) == (KnapsackGeneticAlgorithm {
                best: final(self).best,
                remain_no_improved_generations: final(self).remain_no_improved_generations,
                ..*old(self)
            }),
            best_ok(old(self).problem, final(self).best),
            new_chromosome.fitness > old(self).best.fitness ==> final(self).best == new_chromosome
                && final(self).remain_no_improved_generations
                == old(self).configuration.spec_no_upgrade_limit() && !stop,
            new_chromosome.fitness <= old(self).best.fitness
                && old(self).remain_no_improved_generations > 0 ==> final(self).best == old(
                self,
            ).best && final(self).remain_no_improved_generations == old(
                self,
            ).remain_no_improved_generations - 1 && !stop,
            new_chromosome.fitness <= old(self).best.fitness
                && old(self).remain_no_improved_generations == 0 ==> stop && final(self).best
                == old(self).best && final(self).remain_no_improved_generations == old(
                self,
            ).remain_no_improved_generations,
    {
        proof {
            lemma_fitness_bounds(old(self).problem, new_chromosome.genes@);
        }
        if new_chromosome.fitness > self.best.fitness {
            self.best = new_chromosome;
            self.remain_no_improved_generations = self.configuration.get_no_upgrade_limit();
            return false;
        }
        if self.remain_no_improved_generations > 0 {
            self.remain_no_improved_generations = self.remain_no_improved_generations - 1;
            return false;
        }
        true
    }

    /// Runs generations until the stagnation budget is exhausted; returns the
    /// best chromosome ever evaluated and the number of generations consumed.
    pub fn evolve(&mut self) -> (r: (Chromosome, u32))
        requires
            old(self).engine_wf(),
        ensures
            final(self).problem == old(self).problem,
            final(self).configuration == old(self).configuration,
            final(self).engine_wf(),
            best_ok(old(self).problem, r.0),
            r.0.fitness == final(self).best.fitness,
            final(self).best.fitness >= old(self).best.fitness,
            forall|j: int|
                0 <= j < old(self).population@.len() ==> final(self).best.fitness >= fitness_spec(
                    old(self).problem,
                    (#[trigger] old(self).population@[j]).genes@,
                ),
    {
        let ghost p = self.problem;
        let ghost pop0 = self.population@;
        proof {
            lemma_total_gain_nonneg(p);
            if !(self.best.genes@.len() == 0 && self.best.fitness == 0) {
                lemma_fitness_bounds(p, self.best.genes@);
            }
        }
        let mut generation: u32 = 0;
        self.evaluate();
        proof {
            // The first generation is evaluated before any halt: its sorted
            // front already beats every entry member's fitness.
            let mid = choose|mid: Seq<Chromosome>|
                {
                    &&& #[trigger] mid.len() == pop0.len()
                    &&& forall|j: int|
                        0 <= j < mid.len() ==> is_evaluation_of(p, #[trigger] mid[j], pop0[j])
                    &&& self.population@.to_multiset() == mid.to_multiset()
                };
            assert forall|j: int| 0 <= j < pop0.len() implies self.population@[0].fitness
                >= fitness_spec(p, (#[trigger] pop0[j]).genes@) by {
                lemma_multiset_index_transfer(self.population@, mid, j);
                let i = choose|i: int|
                    0 <= i < self.population@.len() && self.population@[i] == mid[j];
                assert(is_evaluation_of(p, mid[j], pop0[j]));
            }
        }
        loop
            invariant
                self.engine_wf(),
                p == self.problem,
                self.configuration == old(self).configuration,
                pop_evaluated(self.population@, p),
                0 <= self.best.fitness <= p.total_gain(),
                self.best.fitness >= old(self).best.fitness,
                forall|j: int|
                    0 <= j < pop0.len() ==> self.best.fitness >= fitness_spec(
                        p,
                        (#[trigger] pop0[j]).genes@,
                    ) || (sorted_desc(self.population@) && self.population@.len() > 0
                        && self.population@[0].fitness >= fitness_spec(p, pop0[j].genes@)),
            ensures
                self.engine_wf(),
                p == self.problem,
                self.configuration == old(self).configuration,
                self.best.fitness >= old(self).best.fitness,
                forall|j: int|
                    0 <= j < pop0.len() ==> self.best.fitness >= fitness_spec(
                        p,
                        (#[trigger] pop0[j]).genes@,
                    ),
            decreases p.total_gain() - self.best.fitness, self.remain_no_improved_generations,
        {
            let first = clone_chromosome(&self.population[0]);
            proof {
                if self.best.fitness < first.fitness {
                    lemma_fitness_bounds(p, first.genes@);
                }
            }
            let stop = self.check_is_end(first);
            proof {
                // Whether improved or not, the retained best now covers the
                // whole first generation, hence every entry member.
                assert forall|j: int| 0 <= j < pop0.len() implies self.best.fitness
                    >= fitness_spec(p, (#[trigger] pop0[j]).genes@) by {}
            }
            if stop {
                break ;
            }
            self.select();
            self.crossover();
            self.mutate();
            if generation < u32::MAX {
                generation = generation + 1;
            }
            if generation % 10 == 0 && self.mutation_factor > 1 {
                self.mutation_factor = self.mutation_factor - 1;
            }
            self.evaluate();
        }
        (clone_chromosome(&self.best), generation)
    }

    /// Packs the retained best chromosome into a solution record: the chosen
    /// items, their exact totals, and the generations consumed.
    pub fn make_solution(&self, chromosome: &Chromosome, generations: u32) -> (s: Solution)
        requires
            self.problem.wf(),
            best_ok(self.problem, *chromosome),
        ensures
            solution_consistent(self.problem, s),
            s.generations == generations,
            s.fitness == chromosome.fitness,
            chromosome.genes@.len() > 0 ==> s.data@ == selected_prefix(
                self.problem,
                chromosome.genes@,
                chromosome.genes@.len() as int,
            ) && s.cost == chromosome_cost(self.problem, chromosome.genes@),
    {
        let p = &self.problem;
        let genes = &chromosome.genes;
        let ghost gs = genes@;
        let mut data: Vec<Item> = Vec::new();
        let mut cost: i64 = 0;
        let mut g: usize = 0;
        while g < genes.len()
            invariant
                p == &self.problem,
                p.wf(),
                gs == genes@,
                g <= gs.len(),
                genes_wf(gs, *p) || gs.len() == 0,
                gs.len() > 0 ==> genes_wf(gs, *p),
                data@ == selected_prefix(*p, gs, g as int),
                cost == cost_prefix(*p, gs, g as int),
            decreases gs.len() - g,
        {
            proof {
                lemma_prefix_fits(*p, gs, g as int);
                lemma_prefix_fits(*p, gs, g + 1);
            }
            let gene = genes[g];
            if gene != 0 {
                data.push(p.data[g][gene - 1]);
                cost = cost + p.data[g][gene - 1].cost;
            }
            g = g + 1;
        }
        let s = Solution::make_solution(data, chromosome.fitness, cost, generations);
        proof {
            if gs.len() == 0 {
                // The placeholder best: the empty selection of the all-zero
                // assignment is its witness.
                let zs = Seq::<usize>::new(p.data@.len() as nat, |i: int| 0usize);
                lemma_all_zero_assignment(*p, zs, zs.len() as int);
                assert(genes_wf(zs, *p));
                assert(s.data@ =~= selected_prefix(*p, zs, zs.len() as int));
                assert(solution_consistent(*p, s));
            } else {
                assert(chromosome.fitness >= 1);
                assert(feasible(*p, gs));
                assert(solution_consistent(*p, s));
            }
        }
        s
    }

    /// A seeded engine over `problem`, before any population exists.
    pub fn new(problem: Problem, configuration: C, preprocessing_result: &PreprocessingResult)
        -> (r: KnapsackGeneticAlgorithm<C>)
        ensures
            r.problem == problem,
            r.configuration == configuration,
            r.population@.len() == 0,
            r.best.genes@.len() == 0 && r.best.fitness == 0,
            r.preprocessing_result.ub_fix_result.x_best@
                == preprocessing_result.ub_fix_result.x_best@,
            r.preprocessing_result.ub_fix_result.f_1@ == preprocessing_result.ub_fix_result.f_1@,
            r.preprocessing_result.relaxation_result.f_0@
                == preprocessing_result.relaxation_result.f_0@,
    {
        let remain = configuration.get_no_upgrade_limit();
        let seed = configuration.get_seed();
        let mutation_factor = configuration.get_initial_mutation_factor();
        KnapsackGeneticAlgorithm {
            best: Chromosome::init_chromosome(Vec::new()),
            remain_no_improved_generations: remain,
            configuration,
            population: Vec::new(),
            problem,
            rng: make_rng(seed),
            mutation_factor,
            preprocessing_result: clone_preprocessing_result(preprocessing_result),
        }
    }

    /// Rebuilds the retained best integral assignment as a chromosome.
    pub fn map_preprocessed_item_to_chromosome(best_preprocess: Vec<usize>) -> (c: Chromosome)
        ensures
            c.genes@ == best_preprocess@,
            c.fitness == 0,
            c.age == 0,
    {
        Chromosome::init_chromosome(best_preprocess)
    }

    /// Seeds the configured mixture: one repaired warm-start from the fixing
    /// pass, a share of fixed-respecting and fixed-only guided draws, and
    /// uniform random chromosomes for the rest. Every seed is repaired before
    /// insertion.
    pub fn initialize_population(&mut self)
        requires
            old(self).problem.wf(),
            old(self).problem.data@.len() >= 1,
            old(self).population@.len() == 0,
            preprocessing_wf(&old(self).preprocessing_result, old(self).problem),
        ensures
            *final(self) == (KnapsackGeneticAlgorithm {
                population: final(self).population,
                rng: final(self).rng,
                ..*old(self)
            }),
            final(self).population@.len() == old(
                self,
            ).configuration.spec_population_size() as int,
            pop_wf(final(self).population@, old(self).problem),
            forall|i: int|
                0 <= i < final(self).population@.len() ==> feasible(
                    old(self).problem,
                    (#[trigger] final(self).population@[i]).genes@,
                ),
            old(self).configuration.spec_enhanced_enabled() && old(
                self,
            ).preprocessing_result.ub_fix_result.x_best@.len() > 0 && old(
                self,
            ).configuration.spec_population_size() > 0 ==> final(self).population@[0].genes@
                == repair_spec(old(self).problem, old(self).preprocessing_result.ub_fix_result.x_best@),
    {
        let ghost p = self.problem;
        proof {
            lemma_total_gain_nonneg(p);
        }
        let pop_size = self.configuration.get_population_size();
        let mut generated: u32 = pop_size;
        if self.configuration.is_enhanced_enabled() {
            if self.preprocessing_result.ub_fix_result.x_best.len() > 0 && generated > 0 {
                let warm = Self::map_preprocessed_item_to_chromosome(
                    clone_copy_vec(&self.preprocessing_result.ub_fix_result.x_best),
                );
                let warm = self.repair_chromosome(&warm);
                proof {
                    lemma_fitness_bounds(p, warm.genes@);
                }
                self.population.push(warm);
                generated = generated - 1;
            }
            let threshold_f0 = ((pop_size as u64) * 95 / 100) as u32;
            let threshold_f1 = ((pop_size as u64) * 90 / 100) as u32;
            let seed = self.configuration.get_seed();
            let mut enhanced_gen = EnhancedChromosomeGenerator::new(
                clone_problem(&self.problem),
                seed,
                clone_relaxation_result(&self.preprocessing_result.relaxation_result),
                clone_ub_fix_result(&self.preprocessing_result.ub_fix_result),
            );
            while generated > threshold_f0
                invariant
                    p == self.problem,
                    p.wf(),
                    enhanced_gen.problem.wf(),
                    enhanced_gen.problem.data@.len() == p.data@.len(),
                    generated <= pop_size,
                    self.population@.len() == pop_size - generated,
                    pop_wf(self.population@, p),
                    forall|i: int|
                        0 <= i < self.population@.len() ==> feasible(
                            p,
                            (#[trigger] self.population@[i]).genes@,
                        ),
                    old(self).configuration.spec_enhanced_enabled() && old(
                        self,
                    ).preprocessing_result.ub_fix_result.x_best@.len() > 0 && old(
                        self,
                    ).configuration.spec_population_size() > 0 ==> self.population@.len() > 0
                        && self.population@[0].genes@ == repair_spec(
                        p,
                        old(self).preprocessing_result.ub_fix_result.x_best@,
                    ),
                    *self == (KnapsackGeneticAlgorithm {
                        population: self.population,
                        rng: self.rng,
                        ..*old(self)
                    }),
                decreases generated,
            {
                let c = enhanced_gen.generate_chromosome_f0();
                proof {
                    assert(genes_wf(c.genes@, p));
                }
                let c = self.repair_chromosome(&c);
                proof {
                    lemma_fitness_bounds(p, c.genes@);
                }
                self.population.push(c);
                generated = generated - 1;
            }
            while generated > threshold_f1
                invariant
                    p == self.problem,
                    p.wf(),
                    enhanced_gen.problem.wf(),
                    enhanced_gen.problem.data@.len() == p.data@.len(),
                    generated <= pop_size,
                    self.population@.len() == pop_size - generated,
                    pop_wf(self.population@, p),
                    forall|i: int|
                        0 <= i < self.population@.len() ==> feasible(
                            p,
                            (#[trigger] self.population@[i]).genes@,
                        ),
                    old(self).configuration.spec_enhanced_enabled() && old(
                        self,
                    ).preprocessing_result.ub_fix_result.x_best@.len() > 0 && old(
                        self,
                    ).configuration.spec_population_size() > 0 ==> self.population@.len() > 0
                        && self.population@[0].genes@ == repair_spec(
                        p,
                        old(self).preprocessing_result.ub_fix_result.x_best@,
                    ),
                    *self == (KnapsackGeneticAlgorithm {
                        population: self.population,
                        rng: self.rng,
                        ..*old(self)
                    }),
                decreases generated,
            {
                let c = enhanced_gen.generate_chromosome_f1();
                proof {
                    assert(genes_wf(c.genes@, p));
                }
                let c = self.repair_chromosome(&c);
                proof {
                    lemma_fitness_bounds(p, c.genes@);
                }
                self.population.push(c);
                generated = generated - 1;
            }
        }
        let seed = self.configuration.get_seed();
        let mut random_gen = RandomChromosomeGenerator::new(clone_problem(&self.problem), seed);
        while generated > 0
            invariant
                p == self.problem,
                p.wf(),
                random_gen.problem.wf(),
                random_gen.problem.data@.len() == p.data@.len(),
                generated <= self.configuration.spec_population_size(),
                self.population@.len() == self.configuration.spec_population_size() - generated,
                pop_wf(self.population@, p),
                forall|i: int|
                    0 <= i < self.population@.len() ==> feasible(
                        p,
                        (#[trigger] self.population@[i]).genes@,
                    ),
                old(self).configuration.spec_enhanced_enabled() && old(
                    self,
                ).preprocessing_result.ub_fix_result.x_best@.len() > 0 && old(
                    self,
                ).configuration.spec_population_size() > 0 ==> self.population@.len() > 0
                    && self.population@[0].genes@ == repair_spec(
                    p,
                    old(self).preprocessing_result.ub_fix_result.x_best@,
                ),
                *self == (KnapsackGeneticAlgorithm {
                    population: self.population,
                    rng: self.rng,
                    ..*old(self)
                }),
            decreases generated,
        {
            let c = random_gen.generate_chromosome();
            proof {
                assert(genes_wf(c.genes@, p));
            }
            let c = self.repair_chromosome(&c);
            proof {
                lemma_fitness_bounds(p, c.genes@);
            }
            self.population.push(c);
            generated = generated - 1;
        }
    }
}

impl<C: Configuration> GeneticAlgorithm<C> for KnapsackGeneticAlgorithm<C> {
    open spec fn wf(&self) -> bool {
        self.engine_wf()
    }

    open spec fn problem_of(&self) -> Problem {
        self.problem
    }

    open spec fn best_of(&self) -> Chromosome {
        self.best
    }

    open spec fn population_of(&self) -> Seq<Chromosome> {
        self.population@
    }

    fn init(problem: Problem, configuration: C, preprocessing_result: &PreprocessingResult) -> (r:
        Result<Self, ConfigError>) {
        if problem.data.len() == 0 {
            return Err(ConfigError::EmptyProblem);
        }
        if configuration.get_population_size() < 2 {
            return Err(ConfigError::EmptyPopulation);
        }
        let mut executor = KnapsackGeneticAlgorithm::new(
            problem,
            configuration,
            preprocessing_result,
        );
        executor.initialize_population();
        Ok(executor)
    }

    fn run(&mut self) -> (s: Solution) {
        let (best, generations) = self.evolve();
        self.make_solution(&best, generations)
    }
}

} // verus!
