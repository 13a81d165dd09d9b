//! Detection and scrubbing of personally identifiable information (PII) in
//! text and tabular files.

pub mod pii;
pub mod text;
pub mod validate;
pub mod detect;
pub mod ner;
pub mod cache;
pub mod detector;
pub mod scrub;
pub mod files;
pub mod license;
pub mod rows;
pub mod stats;
pub mod processing;
pub mod streaming;
pub mod commands;
