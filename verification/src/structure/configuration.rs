//! Run configuration: the knobs the genetic engine reads.

use vstd::prelude::*;

verus! {

/// A capability set the engine queries for its knobs. Each getter must return
/// the value its specification function describes, so verified callers can
/// rely on what they read.
pub trait Configuration: Sized {
    /// The stagnation budget the termination check starts from.
    spec fn spec_no_upgrade_limit(&self) -> u8;

    /// How many chromosomes each generation holds.
    spec fn spec_population_size(&self) -> u32;

    /// The initial per-mille mutation probability.
    spec fn spec_initial_mutation_factor(&self) -> u16;

    /// The seed for the run's random stream.
    spec fn spec_seed(&self) -> u64;

    /// Whether bound-aware generation is enabled.
    spec fn spec_enhanced_enabled(&self) -> bool;

    fn get_no_upgrade_limit(&self) -> (r: u8)
        ensures
            r == self.spec_no_upgrade_limit(),
    ;

    fn get_population_size(&self) -> (r: u32)
        ensures
            r == self.spec_population_size(),
    ;

    fn get_initial_mutation_factor(&self) -> (r: u16)
        ensures
            r == self.spec_initial_mutation_factor(),
    ;

    fn get_seed(&self) -> (r: u64)
        ensures
            r == self.spec_seed(),
    ;

    fn is_enhanced_enabled(&self) -> (r: bool)
        ensures
            r == self.spec_enhanced_enabled(),
    ;
}

/// The plain configuration record: evolution ends after a configured number
/// of generations without improvement.
#[derive(Debug, Clone)]
pub struct ConfigurationByGenerations {
    pub no_upgrade_limit: u8,
    pub population_size: u32,
    pub initial_mutation_factor: u16,
    pub seed: u64,
    pub enhanced_enabled: bool,
}

impl Configuration for ConfigurationByGenerations {
    open spec fn spec_no_upgrade_limit(&self) -> u8 {
        self.no_upgrade_limit
    }

    open spec fn spec_population_size(&self) -> u32 {
        self.population_size
    }

    open spec fn spec_initial_mutation_factor(&self) -> u16 {
        self.initial_mutation_factor
    }

    open spec fn spec_seed(&self) -> u64 {
        self.seed
    }

    open spec fn spec_enhanced_enabled(&self) -> bool {
        self.enhanced_enabled
    }

    fn get_no_upgrade_limit(&self) -> (r: u8) {
        self.no_upgrade_limit
    }

    fn get_population_size(&self) -> (r: u32) {
        self.population_size
    }

    fn get_initial_mutation_factor(&self) -> (r: u16) {
        self.initial_mutation_factor
    }

    fn get_seed(&self) -> (r: u64) {
        self.seed
    }

    fn is_enhanced_enabled(&self) -> (r: bool) {
        self.enhanced_enabled
    }
}

/// Bundles the command-line knobs into a configuration record.
pub fn initialize_configuration(
    initial_mutation_factor: u16,
    no_upgrade_limit: u8,
    population_size: u32,
    seed: u64,
    enhanced_enabled: bool,
) -> (c: ConfigurationByGenerations)
    ensures
        c == (ConfigurationByGenerations {
            no_upgrade_limit,
            population_size,
            initial_mutation_factor,
            seed,
            enhanced_enabled,
        }),
{
    ConfigurationByGenerations {
        no_upgrade_limit,
        population_size,
        initial_mutation_factor,
        seed,
        enhanced_enabled,
    }
}

} // verus!
