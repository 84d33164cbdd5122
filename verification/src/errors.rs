//! Error taxonomy: setup failures are fatal to startup, parse failures are
//! recovered at file granularity.

use vstd::prelude::*;

verus! {

/// A failure while assembling the watch/indexing pipeline.
#[derive(Debug, Clone, Copy, PartialEq, Eq, Structural)]
pub enum SetupError {
    /// The resolved set of directories to watch is empty.
    EmptyWatchSet,
    /// The ignore-pattern matcher could not be built.
    IgnoreBuildFailed,
}

/// A failure while turning one file's text into events.
#[derive(Debug, Clone, Copy, PartialEq, Eq, Structural)]
pub enum ParseError {
    /// The backend could not build a syntax tree from the text.
    ParseFailure,
}

} // verus!
