//! Ingestion of tab-separated UTF-16LE source files into a typed table, with
//! the state machine that decides when an ingestion may run and the shared
//! slot through which a running ingestion reports its progress.
//!
//! - `delimited`: splitting text at a separator, with quoting.
//! - `ingest`: decoding, parsing and date casting of a source file.
//! - `progress`: the progress slot and the milestones a run reports.
//! - `catalog`: choosing and ordering the candidate files.
//! - `orchestrator`: phases, messages and the actions they call for.
pub mod delimited;
pub mod ingest;
pub mod progress;
pub mod catalog;
pub mod orchestrator;
