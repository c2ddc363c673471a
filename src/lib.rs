//! Incremental mirroring of a source directory tree into a destination
//! tree, passing files through external filter programs on the way.
//!
//! The library holds the decisions of a synchronisation pass: where each
//! entry lands, which filter claims it, whether it must be regenerated,
//! which fingerprints the pass records, and which mirror entries are
//! orphans. Walking trees, running programs and touching files is left to
//! the caller.

pub mod mapping;
pub mod names;
pub mod digest;
pub mod filter;
pub mod state;
pub mod pass;
pub mod report;
pub mod command;
