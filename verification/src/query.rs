//! Queries.

pub mod access;
pub mod combinations;
pub mod data;
pub mod iteration;
pub mod laws;
pub mod lens;
pub mod state;
pub mod unsafe_query;
