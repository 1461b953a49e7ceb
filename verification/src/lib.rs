//! An in-memory log store with verified filtering and line parsing.
//!
//! Log entries carry a severity, a message and a service name. The store
//! keeps entries in insertion order; filters return matching entries in
//! that order. A small parser turns text lines of the form
//! `<level>;<message>;<service>` into entries.

pub mod entry;
pub mod parse;
pub mod render;
pub mod store;
pub mod text;
