//! Workload preparation: validated percentages for the share of a dataset
//! that each update or delete operation touches, and the decisions of the
//! one-time ingestion of that dataset into a local store.

pub mod ingest;
pub mod percentage;
