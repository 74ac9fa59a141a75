//! Detector implementations grouped by domain.

pub mod loop_allocations;
pub mod parsing_in_loops;
pub mod concurrency;
pub mod stdlib_misuse;
pub mod general_perf;
pub mod data_access;
pub mod gin_framework;
