//! The parser side: the event model, the language-parser contract, the
//! Python implementation and the extension-keyed registry.

pub mod event;
pub mod language;
pub mod python;
pub mod registry;
