//! Critical-path scheduling over a working-day calendar.
//!
//! The crate computes early and late dates, total and free float and the
//! critical path of a hierarchical task list. Every executable function is
//! verified against a mathematical model of the schedule; the few calls into
//! `chrono` and `std` that the model cannot see are collected in small trusted
//! wrappers, each documented where it stands.

pub mod backward;
pub mod commands;
pub mod cpm;
pub mod critical;
pub mod date_utils;
pub mod engine;
pub mod engine_state;
pub mod float;
pub mod forward;
pub mod frames;
pub mod graph;
pub mod laws;
pub mod levels;
pub mod rollup;
pub mod types;
