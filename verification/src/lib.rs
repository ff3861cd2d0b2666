//! A verified command-line query compiler.
//!
//! The crate turns a free-form sequence of command-line tokens into a
//! structured query descriptor: a route path, a list of normalized
//! field/operator/value filter clauses, an optional sort specification and an
//! optional record limit.  It also expands relative-date keywords ("today",
//! "next week") and natural-language dates ("March 5 2024 @ 14:30") into
//! absolute ISO-8601 timestamps, and resolves dot-separated paths against a
//! JSON-like value tree.
//!
//! Everything here is pure computation over in-memory values; reading the
//! clock, the configuration file, the network call and the pretty-printing
//! live outside this crate.

pub mod clauses;
pub mod dates;
pub mod filters;
pub mod json;
pub mod keywords;
pub mod natdate;
pub mod query;
pub mod text;
