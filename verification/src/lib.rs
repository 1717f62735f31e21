//! A small single-user backup library.
//!
//! The library tracks the files of a working directory in a revision ledger
//! (per filename, an append-only history of revisions), decides which files
//! must move in which direction when the working directory, the local ledger
//! and an optional remote ledger are compared, and encodes file contents for
//! a content-addressed blob store keyed by the SHA-256 digest of the
//! uncompressed bytes.
//!
//! All file, network and clock work stays outside the library: callers hand
//! in plain values (directory snapshots, ledgers, byte vectors) and get plain
//! values back (update plans, conflicts, encoded blobs).

pub mod config;
pub mod model;
pub mod reconcile;
pub mod store;
pub mod laws;
pub mod serialize;
