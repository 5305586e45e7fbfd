//! A workflow layer over a content-addressed version control system.
//!
//! The library keeps a durable, append-only log of reference events, replays
//! that log to decide which commits the user is still working on, builds the
//! visible commit graph that all commands operate over, plans and executes
//! subtree rebases, and synthesizes inverse operations for undo.
//!
//! The underlying version control system is modelled as plain data (commit
//! table, references, configuration); the thin shell that reads a real
//! repository into that model lives outside the library.

pub mod config;
pub mod eventlog;
pub mod graph;
pub mod hiding;
pub mod mergebase;
pub mod repo;
pub mod rewrite;
pub mod smartlog;
pub mod styled;
pub mod undo;
pub mod navigation;
pub mod oid;

pub use oid::NonZeroOid;
