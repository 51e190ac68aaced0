//! Thompson sampling over Beta posteriors for a roster of scripts ("arms").
//!
//! Every real number that the library handles is a double carried by its bit
//! pattern, so that the order of scores, the selection of the best arm and the
//! ranking of all arms are decided by integer arithmetic alone.

pub mod command;
pub mod config;
pub mod not_nan;
pub mod schedule;
pub mod thompson;
