//! The mechanism and its solver.

pub mod bindings;
pub mod numeric;
pub mod solvers;
pub mod store;
pub mod types;
