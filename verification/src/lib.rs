//! Core of a dependency-vendoring and manifest-rewriting engine.
//!
//! Given a resolved dependency graph, the engine locates each non-local
//! dependency's extracted source in a package cache, copies it into a
//! project-local vendor directory, and rewrites every affected manifest so
//! that dependency references point at local paths while preserving the
//! exact feature set each dependency was resolved with.
//!
//! The library holds the decision logic: graph lookup, cache matching,
//! relative-path computation, and the manifest-entry rewrite rules. All
//! filesystem traffic (directory listing, copying, manifest parse and
//! serialize) stays with the caller, which hands the library plain values.

pub mod paths;
pub mod errors;
pub mod search;
pub mod util;
pub mod manifest;
pub mod graph;
pub mod locate;
pub mod vendor;
