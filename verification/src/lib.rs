//! A battery-life compile benchmark: it repeatedly copies a source checkout
//! into a disposable build directory, runs a build command there, removes the
//! copy, and raises a persisted per-run score — until the battery runs out or
//! something fails. This crate holds the verified core: the run configuration
//! and its validation, the record names and their timestamp order, the score
//! ledger, the power-gating decisions, and the benchmark loop's state machine.
//! The runner around it performs the I/O that the machine asks for.

pub mod bytes;
pub mod config;
pub mod decimal;
pub mod machine;
pub mod power;
pub mod run_id;
pub mod score;
