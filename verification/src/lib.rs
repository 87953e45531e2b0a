//! Core of a layered configuration engine: a provenance-tagged value tree,
//! JSON ingestion into that tree, an extension-based format registry, the
//! decision logic that locates a configuration file on disk, and a pure
//! path relativizer used for display paths.

pub mod error;
pub mod format;
pub mod json;
pub mod paths;
pub mod source;
pub mod text;
pub mod value;
