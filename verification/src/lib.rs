//! A local, offline file deduplication engine, as a library without I/O.
//!
//! The library decides; its caller performs. Every protocol that touches the
//! file tree, the vault or the state store is a step function from the
//! protocol's state and the reply to its last request to the next state and
//! the next request. The hashing, the path layout and the state store's byte
//! formats are ordinary functions on plain values.
//!
//! What the protocols do to a file tree is proved in the modules whose
//! names end in `_laws`, where they are run against the model of a tree and
//! of a store in [`model`].

pub mod dedupe;
pub mod hard_link_laws;
pub mod hash_laws;
pub mod hasher;
pub mod index_laws;
pub mod link_laws;
pub mod model;
pub mod orchestrator;
pub mod paths;
pub mod pipeline;
pub mod requests;
pub mod restore;
pub mod restore_laws;
pub mod run_laws;
pub mod scanner;
pub mod state;
pub mod types;
pub mod vault;
pub mod vault_laws;
