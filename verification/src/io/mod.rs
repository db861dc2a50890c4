//! The snapshot format: its rows, the record batches that hold them, and
//! the snapshot as it is written and read.

pub mod batch;
pub mod rows;
pub mod snapshot;
