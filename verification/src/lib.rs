//! Probe URL construction and measurement tag enrichment for a blackbox
//! exporter metrics source.
//!
//! The library builds one probe request URL per configured target from a base
//! endpoint, a target identifier and a probe module name, and enriches parsed
//! measurements with provenance tags (target, module, optional labels),
//! renaming colliding tags to `exported_*` so that no information is lost.

pub mod codec;
pub mod config;
pub mod enrich;
pub mod laws;
pub mod probe;
pub mod tags;
pub mod text;
