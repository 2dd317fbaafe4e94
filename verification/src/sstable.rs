//! Sealed generations persisted as columnar files: the metadata and
//! naming conventions. The file writing itself is an external
//! collaborator's work.

pub mod parquet;
