//! Go performance-pattern detectors over source text and pre-extracted facts.

pub mod text;
pub mod model;
pub mod common;
pub mod domains;
pub mod laws;
pub mod op_laws;
