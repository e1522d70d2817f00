//! Exact structural analysis of integer time series.
//!
//! The library decomposes a sample sequence into maximal monotonic runs
//! ([`segment`]), summarizes those runs into a minimal alternating sequence
//! of rising/falling/constant trends ([`trend`], with a length filter in
//! [`noise`]), and checks a sample sequence for exact conformance against a
//! declaratively built sequence of directional phases ([`pattern`]).
//! Every outcome is a deterministic function of the input; the contracts
//! below pin each result down exactly.

pub mod noise;
pub mod pattern;
pub mod segment;
pub mod trend;
