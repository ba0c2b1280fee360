//! Support-range compression and rendering for a browser-compatibility
//! dataset: given a feature's per-browser-version support table and each
//! browser's ordered version list, produce the minimal ordered sequence of
//! "version-range = support-level" report lines.

pub mod compress;
pub mod data;
pub mod errors;
pub mod render;
pub mod sync;
