//! Building blocks of a genetic optimizer for trading strategies: condition
//! identifiers, candidate building rules and random building steps,
//! population bookkeeping (ranking, elites, fresh blood, islands, migration,
//! selection for diversity, stagnation), and the structural helpers of
//! crossover and mutation, each with its contract.

pub mod text;
pub mod model;
pub mod condition_id;
pub mod build_rules;
pub mod random;
pub mod config;
pub mod rules;
pub mod operands;
pub mod selection;
pub mod ranking;
pub mod population;
pub mod signature;
pub mod genetic;
pub mod initial;
pub mod crossover;
pub mod diversity;
pub mod mutation;
pub mod builders;
pub mod condition_builder;
pub mod structure_mutation;
pub mod evolution;
