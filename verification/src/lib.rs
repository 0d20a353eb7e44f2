//! A small SSA intermediate representation: functions are graphs of blocks
//! with parameters, built step by step, validated as a whole, and run by an
//! interpreter that is the reference for what a native backend has to
//! compute.
//!
//! - `types`, `inst`, `graph`: the data model and the builder.
//! - `reach`, `validate`, `validity`: the validator and what it establishes.
//! - `interp`: the interpreter.
//! - `laws`: what holds of validation and of runs in general.
//! - `scenarios`: three small graphs and what they compute.

pub mod error;
pub mod graph;
pub mod inst;
pub mod interp;
pub mod laws;
pub mod reach;
pub mod scenarios;
pub mod seqs;
pub mod types;
pub mod validate;
pub mod validity;
