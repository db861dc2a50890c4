//! Core services for traversal, aggregation, and size computation.

pub mod aggregate;
pub mod ranking;
pub mod sink;
pub mod table;
pub mod size;
pub mod traverse;
