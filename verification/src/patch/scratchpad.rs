//! Patches under trial.
pub mod a01;
