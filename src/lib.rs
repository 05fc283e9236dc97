//! Native model of an account-rollup state-transition predicate: account and
//! transfer data, range checks, Merkle-root recomputation, the single
//! transition and the batch fold, with the hash and signature primitives
//! supplied through the `params::RollupParams` interface.
pub mod field;
pub mod range;
pub mod params;
pub mod model;
pub mod merkle;
pub mod rollup;
