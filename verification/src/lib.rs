//! An ephemeral object service: binary files, short links and text snippets,
//! each addressed by an identifier under its own path prefix and stored with
//! replace semantics. This crate is the verified core — the configuration
//! lifecycle and its on-disk codec, the bounded connection-pool discipline,
//! the routing table, and the uniform CRUD contract shared by the three
//! kinds, including the inflated upload cutoff on file writes. The process
//! around it (HTTP server, filesystem, database driver) feeds plain values in
//! and carries the decided outcomes out.

pub mod bootstrap;
pub mod codec;
pub mod config;
pub mod pool;
pub mod router;
pub mod store;

use vstd::prelude::*;

verus! {

/// One of the three object categories served by the store, each under its own
/// path prefix: binary files (`/f`), short links (`/l`), text snippets (`/t`).
#[derive(Clone, Copy, PartialEq, Eq, Structural, Debug)]
pub enum Kind {
    File,
    Link,
    Text,
}

} // verus!
