//! A multiple-choice knapsack (MCKP) solver: an LP-relaxation preprocessor
//! computes bounds and prunes dominated tiers, and a genetic engine searches
//! for a high-quality integral solution under a shared capacity budget.

pub mod generator;
pub mod genetic;
pub mod parser;
pub mod preprocessing;
pub mod report;
pub mod structure;
pub mod utils;
