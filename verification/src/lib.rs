//! Save-data relocation for Windows-targeted games running under a
//! compatibility prefix: a registry-export parser, a bidirectional
//! path-translation algebra, a manifest-driven restore planner, and
//! snapshot-isolated read access to an embedded key-value store.

pub mod hydra;
pub mod reg;
pub mod snapshot;
pub mod strutil;
pub mod wine;
