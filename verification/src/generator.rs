//! Chromosome generators: uniform random seeding and the bound-aware
//! variants that respect the preprocessor's fixed and dominated sets.

use vstd::prelude::*;

verus! {

use crate::structure::chromosome::{genes_wf, Chromosome};
use crate::structure::{set_has_group, set_has_pair};
use crate::structure::fix_result::UBFixResult;
use crate::structure::problem::Problem;
use crate::structure::relaxation_result::LPRelaxationResult;
use crate::utils::{make_rng, rand_below};

/// Scans `s` for any entry naming group `g`.
fn contains_group(s: &Vec<(usize, usize)>, g: usize) -> (r: bool)
    ensures
        r == set_has_group(s@, g as int),
{
    let mut k: usize = 0;
    while k < s.len()
        invariant
            k <= s@.len(),
            forall|j: int| 0 <= j < k ==> (#[trigger] s@[j]).0 != g,
        decreases s@.len() - k,
    {
        if s[k].0 == g {
            return true;
        }
        k = k + 1;
    }
    false
}

/// Scans `s` for the exact entry `(g, t)`.
fn contains_pair(s: &Vec<(usize, usize)>, g: usize, t: usize) -> (r: bool)
    ensures
        r == set_has_pair(s@, g as int, t as int),
{
    let mut k: usize = 0;
    while k < s.len()
        invariant
            k <= s@.len(),
            forall|j: int| 0 <= j < k ==> #[trigger] s@[j] != (g, t),
        decreases s@.len() - k,
    {
        if s[k].0 == g && s[k].1 == t {
            assert(s@[k as int] == (g, t));
            return true;
        }
        k = k + 1;
    }
    false
}

/// Draws every gene uniformly from `{0, 1, 2, 3}`, independent of all bounds.
pub struct RandomChromosomeGenerator {
    pub problem: Problem,
    pub rng: rand::rngs::SmallRng,
}

impl RandomChromosomeGenerator {
    /// A generator over `problem` whose stream starts at `seed`.
    pub fn new(problem: Problem, seed: u64) -> (r: RandomChromosomeGenerator)
        ensures
            r.problem == problem,
    {
        RandomChromosomeGenerator { problem, rng: make_rng(seed) }
    }

    /// One fresh chromosome with uniformly drawn genes.
    pub fn generate_chromosome(&mut self) -> (c: Chromosome)
        requires
            old(self).problem.wf(),
        ensures
            final(self).problem == old(self).problem,
            genes_wf(c.genes@, old(self).problem),
            c.fitness == 0,
            c.age == 0,
    {
        let m = self.problem.size as usize;
        let mut genes: Vec<usize> = Vec::new();
        let mut i: usize = 0;
        while i < m
            invariant
                self.problem == old(self).problem,
                old(self).problem.wf(),
                m == self.problem.data@.len(),
                i <= m,
                genes@.len() == i,
                forall|j: int| 0 <= j < i ==> #[trigger] genes@[j] <= 3,
            decreases m - i,
        {
            let g = rand_below(&mut self.rng, 4);
            genes.push(g as usize);
            i = i + 1;
        }
        Chromosome { genes, fitness: 0, age: 0 }
    }

    /// A batch of `quantity` fresh chromosomes.
    pub fn generate_chromosomes(&mut self, quantity: u32) -> (cs: Vec<Chromosome>)
        requires
            old(self).problem.wf(),
        ensures
            final(self).problem == old(self).problem,
            cs@.len() == quantity,
            forall|j: int|
                0 <= j < cs@.len() ==> genes_wf((#[trigger] cs@[j]).genes@, old(self).problem)
                    && cs@[j].fitness == 0,
    {
        let mut chromosomes: Vec<Chromosome> = Vec::new();
        let mut n: u32 = 0;
        while n < quantity
            invariant
                self.problem == old(self).problem,
                old(self).problem.wf(),
                n <= quantity,
                chromosomes@.len() == n,
                forall|j: int|
                    0 <= j < chromosomes@.len() ==> genes_wf(
                        (#[trigger] chromosomes@[j]).genes@,
                        old(self).problem,
                    ) && chromosomes@[j].fitness == 0,
            decreases quantity - n,
        {
            let c = self.generate_chromosome();
            chromosomes.push(c);
            n = n + 1;
        }
        chromosomes
    }
}

/// Draws genes under the preprocessor's guidance: groups in the fixed set are
/// forced to no selection, and (in the fixed-respecting variant) draws landing
/// on a dominated tier advance cyclically toward the non-dominated support.
pub struct EnhancedChromosomeGenerator {
    pub problem: Problem,
    pub rng: rand::rngs::SmallRng,
    pub relaxation_result: LPRelaxationResult,
    pub ub_fix_result: UBFixResult,
}

impl EnhancedChromosomeGenerator {
    /// A guided generator over `problem` whose stream starts at `seed`.
    pub fn new(
        problem: Problem,
        seed: u64,
        relaxation_result: LPRelaxationResult,
        ub_fix_result: UBFixResult,
    ) -> (r: EnhancedChromosomeGenerator)
        ensures
            r.problem == problem,
            r.relaxation_result == relaxation_result,
            r.ub_fix_result == ub_fix_result,
    {
        EnhancedChromosomeGenerator { problem, rng: make_rng(seed), relaxation_result, ub_fix_result }
    }

    /// The fixed-respecting variant: fixed groups select nothing; any other
    /// draw never lands on a dominated tier.
    pub fn generate_chromosome_f0(&mut self) -> (c: Chromosome)
        requires
            old(self).problem.wf(),
        ensures
            *final(self) == (EnhancedChromosomeGenerator { rng: final(self).rng, ..*old(self) }),
            genes_wf(c.genes@, old(self).problem),
            c.fitness == 0,
            c.age == 0,
            forall|i: int|
                0 <= i < c.genes@.len() && set_has_group(old(self).ub_fix_result.f_1@, i)
                    ==> #[trigger] c.genes@[i] == 0,
            forall|i: int|
                0 <= i < c.genes@.len() && #[trigger] c.genes@[i] != 0 ==> !set_has_pair(
                    old(self).relaxation_result.f_0@,
                    i,
                    c.genes@[i] - 1,
                ),
    {
        let m = self.problem.size as usize;
        let mut genes: Vec<usize> = Vec::new();
        let mut i: usize = 0;
        while i < m
            invariant
                *self == (EnhancedChromosomeGenerator { rng: self.rng, ..*old(self) }),
                old(self).problem.wf(),
                m == self.problem.data@.len(),
                i <= m,
                genes@.len() == i,
                forall|j: int| 0 <= j < i ==> #[trigger] genes@[j] <= 3,
                forall|j: int|
                    0 <= j < i && set_has_group(old(self).ub_fix_result.f_1@, j)
                        ==> #[trigger] genes@[j] == 0,
                forall|j: int|
                    0 <= j < i && #[trigger] genes@[j] != 0 ==> !set_has_pair(
                        old(self).relaxation_result.f_0@,
                        j,
                        genes@[j] - 1,
                    ),
            decreases m - i,
        {
            let mut gene: usize = 0;
            if !contains_group(&self.ub_fix_result.f_1, i) {
                gene = rand_below(&mut self.rng, 4) as usize;
                if gene == 1 && contains_pair(&self.relaxation_result.f_0, i, 0) {
                    gene = 2;
                }
                if gene == 2 && contains_pair(&self.relaxation_result.f_0, i, 1) {
                    gene = 3;
                }
                if gene == 3 && contains_pair(&self.relaxation_result.f_0, i, 2) {
                    gene = 0;
                }
            }
            genes.push(gene);
            i = i + 1;
        }
        Chromosome { genes, fitness: 0, age: 0 }
    }

    /// The fixed-only variant: fixed groups select nothing; everything else
    /// is drawn uniformly.
    pub fn generate_chromosome_f1(&mut self) -> (c: Chromosome)
        requires
            old(self).problem.wf(),
        ensures
            *final(self) == (EnhancedChromosomeGenerator { rng: final(self).rng, ..*old(self) }),
            genes_wf(c.genes@, old(self).problem),
            c.fitness == 0,
            c.age == 0,
            forall|i: int|
                0 <= i < c.genes@.len() && set_has_group(old(self).ub_fix_result.f_1@, i)
                    ==> #[trigger] c.genes@[i] == 0,
    {
        let m = self.problem.size as usize;
        let mut genes: Vec<usize> = Vec::new();
        let mut i: usize = 0;
        while i < m
            invariant
                *self == (EnhancedChromosomeGenerator { rng: self.rng, ..*old(self) }),
                old(self).problem.wf(),
                m == self.problem.data@.len(),
                i <= m,
                genes@.len() == i,
                forall|j: int| 0 <= j < i ==> #[trigger] genes@[j] <= 3,
                forall|j: int|
                    0 <= j < i && set_has_group(old(self).ub_fix_result.f_1@, j)
                        ==> #[trigger] genes@[j] == 0,
            decreases m - i,
        {
            let mut gene: usize = 0;
            if !contains_group(&self.ub_fix_result.f_1, i) {
                gene = rand_below(&mut self.rng, 4) as usize;
            }
            genes.push(gene);
            i = i + 1;
        }
        Chromosome { genes, fitness: 0, age: 0 }
    }
}

} // verus!
