//! The values that the storage backend stores and hands out.
//!
//! Each type comes with a view, its mathematical content, in which vectors
//! are sequences. Contracts compare views, so that two values with the same
//! content are interchangeable wherever they were allocated.

use vstd::prelude::*;

verus! {

/// Identifier of one participant of the cluster.
pub type NodeId = u64;

/// One replicated record: its position in the log, the term it was written
/// in, and a payload that the store never looks into.
#[derive(Debug, PartialEq, Eq)]
pub struct Entry {
    pub index: u64,
    pub term: u64,
    pub payload: Vec<u8>,
}

/// The content of an [`Entry`].
pub struct EntryView {
    pub index: u64,
    pub term: u64,
    pub payload: Seq<u8>,
}

impl View for Entry {
    type V = EntryView;

    open spec fn view(&self) -> EntryView {
        EntryView { index: self.index, term: self.term, payload: self.payload@ }
    }
}

impl Clone for Entry {
    fn clone(&self) -> (copy: Self)
        ensures
            copy@ == self@,
    {
        Entry { index: self.index, term: self.term, payload: self.payload.clone() }
    }
}

/// The contents of a sequence of entries, one view per entry.
pub open spec fn entry_views(entries: Seq<Entry>) -> Seq<EntryView> {
    entries.map_values(|e: Entry| e@)
}

/// The record of term, vote and membership that a node must not lose.
/// It is always replaced as a whole.
#[derive(Debug, PartialEq, Eq)]
pub struct HardState {
    pub current_term: u64,
    pub voted_for: Option<NodeId>,
    pub members: Vec<NodeId>,
}

/// The content of a [`HardState`].
pub struct HardStateView {
    pub current_term: u64,
    pub voted_for: Option<NodeId>,
    pub members: Seq<NodeId>,
}

impl View for HardState {
    type V = HardStateView;

    open spec fn view(&self) -> HardStateView {
        HardStateView {
            current_term: self.current_term,
            voted_for: self.voted_for,
            members: self.members@,
        }
    }
}

impl Clone for HardState {
    fn clone(&self) -> (copy: Self)
        ensures
            copy@ == self@,
    {
        HardState {
            current_term: self.current_term,
            voted_for: self.voted_for,
            members: self.members.clone(),
        }
    }
}

/// What a node needs to know of its storage when it starts: where the log
/// ends, how far the state machine has come, and the hard state. It is
/// computed on demand and never stored.
#[derive(Debug, PartialEq, Eq)]
pub struct InitialState {
    pub last_log_index: u64,
    pub last_log_term: u64,
    pub last_applied_log: u64,
    pub hard_state: HardState,
}

/// The content of an [`InitialState`].
pub struct InitialStateView {
    pub last_log_index: u64,
    pub last_log_term: u64,
    pub last_applied_log: u64,
    pub hard_state: HardStateView,
}

impl View for InitialState {
    type V = InitialStateView;

    open spec fn view(&self) -> InitialStateView {
        InitialStateView {
            last_log_index: self.last_log_index,
            last_log_term: self.last_log_term,
            last_applied_log: self.last_applied_log,
            hard_state: self.hard_state@,
        }
    }
}

/// Descriptor of the most recent snapshot: the index and term that it
/// covers, and a payload whose format belongs to the backend.
#[derive(Debug, PartialEq, Eq)]
pub struct CurrentSnapshotData {
    pub index: u64,
    pub term: u64,
    pub payload: Vec<u8>,
}

/// The content of a [`CurrentSnapshotData`].
pub struct CurrentSnapshotDataView {
    pub index: u64,
    pub term: u64,
    pub payload: Seq<u8>,
}

impl View for CurrentSnapshotData {
    type V = CurrentSnapshotDataView;

    open spec fn view(&self) -> CurrentSnapshotDataView {
        CurrentSnapshotDataView { index: self.index, term: self.term, payload: self.payload@ }
    }
}

impl Clone for CurrentSnapshotData {
    fn clone(&self) -> (copy: Self)
        ensures
            copy@ == self@,
    {
        CurrentSnapshotData {
            index: self.index,
            term: self.term,
            payload: self.payload.clone(),
        }
    }
}

/// The content of an optional snapshot descriptor.
pub open spec fn snapshot_view(snapshot: Option<CurrentSnapshotData>) -> Option<
    CurrentSnapshotDataView,
> {
    match snapshot {
        Some(data) => Some(data@),
        None => None,
    }
}

/// Why a storage operation failed.
#[derive(Debug, Clone, Copy, PartialEq, Eq)]
pub enum StorageErrorKind {
    /// The backend cannot create snapshots.
    SnapshotCreationUnsupported,
    /// The backend cannot install snapshots.
    SnapshotInstallationUnsupported,
}

/// The error of the in-memory backend.
#[derive(Debug, Clone, Copy, PartialEq, Eq)]
pub struct MemoryStorageError {
    pub kind: StorageErrorKind,
}

} // verus!
