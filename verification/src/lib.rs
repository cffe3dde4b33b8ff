//! In-memory storage backend for a Raft-style consensus node.
//!
//! The backend keeps three pieces of state: the hard state (term, vote and
//! membership), the replicated log, and the state machine built by applying
//! committed entries. Every operation has a contract over a mathematical
//! view of that state and is proved to meet it.

pub mod entry_store;
pub mod laws;
pub mod model;
pub mod storage;
pub mod types;

pub use entry_store::EntryStore;
pub use storage::MemoryStorage;
pub use types::{
    CurrentSnapshotData, Entry, HardState, InitialState, MemoryStorageError, NodeId,
    StorageErrorKind,
};
