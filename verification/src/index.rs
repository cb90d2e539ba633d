//! Indices of components by their values.

pub mod laws;
pub mod query_by_index;
