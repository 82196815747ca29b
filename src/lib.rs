//! A relational snapshot of a public-transit network and the engine that
//! extracts a consistent sub-model from it.

pub mod error;
pub mod model;
pub mod netex_france;
pub mod ntfs;
pub mod text;
