//! Incremental structural indexing of a source tree.
//!
//! The crate decides which filesystem changes are worth re-indexing and turns
//! qualifying files into a normalized stream of code-structure events.  The
//! admission pipeline composes three independent policies (ignore patterns,
//! an extension allowlist, a per-path debounce window) in a fixed order, and
//! the parser side walks a syntax tree with a per-node-kind emit/recurse rule.

pub mod clock;
pub mod errors;
pub mod debouncer;
pub mod extension_filter;
pub mod file_watcher;
pub mod ignore_matcher;
pub mod index_decider;
pub mod parser;
