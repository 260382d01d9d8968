//! Log ingestion, enrichment and filtering: resolving sources, reading plain
//! or gzip-compressed lines, finding timestamps and severity levels, filtering
//! records, and following a growing file.
pub mod text;
pub mod level;
pub mod timestamp;
pub mod error;
pub mod record;
pub mod filter;
pub mod lines;
pub mod tail;
pub mod source;
pub mod ingest;
pub mod output;
