//! Selection of a sub-model by operators and lines.

pub mod cascade;
pub mod filter;
pub mod laws;
pub mod rebuild;
