//! The entity store: relational reference data and its operations.

pub mod models;
pub mod sort;
pub mod store;
