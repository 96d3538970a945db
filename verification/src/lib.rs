//! Classify HTTP user-agent strings as bot or browser traffic by matching
//! them against a store of known bot signature patterns.
//!
//! The store holds a de-duplicated set of lower-cased patterns and one
//! matcher compiled from all of them at once, so a query costs a single
//! matcher pass however many patterns are installed. Patterns can be added
//! and removed at runtime; every mutation rebuilds the matcher before it
//! returns, so a query never sees a stale matcher.

pub mod defaults;
pub mod fixture;
pub mod laws;
pub mod matcher;
pub mod parse;
pub mod store;
pub mod text;

pub use store::Bots;
