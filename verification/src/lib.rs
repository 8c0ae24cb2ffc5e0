//! Constraint simplification for partially evaluated policy queries.
//!
//! A query variable that cannot be resolved to a concrete value is bound to a
//! conjunction of constraints collected during evaluation.  This crate reduces
//! such raw, redundant, possibly contradictory constraint trees to minimal,
//! negation-normalized, satisfiability-checked expressions.

pub mod bindings;
pub mod coherence;
pub mod driver;
pub mod invert;
pub mod laws;
pub mod model;
pub mod simplify;
pub mod terms;
