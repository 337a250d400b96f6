//! Compiles a corpus of wiki-markup articles into a compact binary link
//! graph: each article becomes a node whose outgoing links are stored as
//! absolute byte offsets of the target nodes within the same file.
//!
//! The pipeline has two passes. Pass 1 scans every page, extracts its link
//! targets, plans the byte offset its node will occupy, and records
//! lookup/redirect entries plus a spool record per accepted article. Pass 2
//! replays the spool, resolves every link target to its planned offset, and
//! emits the binary file, checking that each node lands exactly on the
//! offset planned for it.

pub mod encoder;
pub mod graph_builder;
pub mod laws;
pub mod link_handler;
pub mod models;
pub mod multipeek;
pub mod planner;
pub mod spool;
pub mod store;
pub mod utils;
