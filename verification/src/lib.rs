//! Merges component-scoped JSON label files into one aggregate document.
//!
//! A label file is named `<component>.labels.json`; each component owns
//! exactly one source file at a time. The registry tracks the live set of
//! components, the merge engine bulk-loads files and applies incremental
//! file events, and the aggregate is rendered as a single JSON object.

pub mod json;
pub mod name;
pub mod registry;
pub mod render;
pub mod laws;
