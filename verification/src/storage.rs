//! The storage backend: hard state, log, state machine and snapshot slot
//! behind the eight operations that a consensus engine asks of its storage.
//!
//! The backend is passive. Each operation runs to its end against the one
//! state that the backend owns, so none ever sees the partial effect of
//! another. Everything lives in memory, and snapshots are not supported:
//! both snapshot operations fail and leave the state as it was.

use crate::entry_store::EntryStore;
use crate::model::{is_range, keyed_by_index, upsert_all, MemoryStorageView};
use crate::types::{
    entry_views, snapshot_view, CurrentSnapshotData, Entry, HardState, InitialState,
    MemoryStorageError, NodeId, StorageErrorKind,
};
use vstd::prelude::*;

verus! {

/// An in-memory storage backend.
pub struct MemoryStorage {
    hs: HardState,
    log: EntryStore,
    snapshot_data: Option<CurrentSnapshotData>,
    snapshot_dir: String,
    state_machine: EntryStore,
}

impl View for MemoryStorage {
    type V = MemoryStorageView;

    closed spec fn view(&self) -> MemoryStorageView {
        MemoryStorageView {
            hard_state: self.hs@,
            log: self.log@,
            state_machine: self.state_machine@,
            snapshot: snapshot_view(self.snapshot_data),
            snapshot_dir: self.snapshot_dir@,
        }
    }
}

/// Writes the entries of `batch` to `store`, first to last.
fn upsert_batch(store: &mut EntryStore, batch: &[Entry])
    ensures
        final(store)@ == upsert_all(old(store)@, entry_views(batch@)),
{
    let ghost views = entry_views(batch@);
    let mut i: usize = 0;
    while i < batch.len()
        invariant
            i <= batch.len(),
            views == entry_views(batch@),
            store@ == upsert_all(old(store)@, views.take(i as int)),
        decreases batch.len() - i,
    {
        let entry = batch[i].clone();
        proof {
            assert(views.take(i + 1).drop_last() =~= views.take(i as int));
            assert(views.take(i + 1).last() == entry@);
        }
        store.upsert(entry);
        i += 1;
    }
    proof {
        assert(views.take(batch.len() as int) =~= views);
    }
}

impl MemoryStorage {
    /// In the log and in the state machine, every entry stands under its
    /// own index.
    pub proof fn lemma_keyed_by_index(&self)
        ensures
            keyed_by_index(self@.log),
            keyed_by_index(self@.state_machine),
    {
        self.log.lemma_keyed_by_index();
        self.state_machine.lemma_keyed_by_index();
    }

    /// A backend for a cluster of the given members. `snapshot_dir` labels
    /// the place where a durable backend would keep its snapshots; nothing
    /// is written there.
    pub fn new(members: Vec<NodeId>, snapshot_dir: String) -> (storage: Self)
        ensures
            storage@ == MemoryStorageView::init(members@, snapshot_dir@),
    {
        MemoryStorage {
            hs: HardState { current_term: 0, voted_for: None, members },
            log: EntryStore::new(),
            snapshot_data: None,
            snapshot_dir,
            state_machine: EntryStore::new(),
        }
    }

    /// The label of the snapshot directory that the backend was made with.
    pub fn snapshot_dir(&self) -> (dir: &str)
        ensures
            dir@ == self@.snapshot_dir,
    {
        self.snapshot_dir.as_str()
    }

    /// Where the log ends, how far the state machine has come, and the
    /// hard state.
    pub fn get_initial_state(&self) -> (state: InitialState)
        ensures
            state@ == self@.initial_state(),
    {
        let (last_log_index, last_log_term) = match self.log.last() {
            Some(entry) => (entry.index, entry.term),
            None => (0, 0),
        };
        let last_applied_log = match self.state_machine.last() {
            Some(entry) => entry.index,
            None => 0,
        };
        InitialState {
            last_log_index,
            last_log_term,
            last_applied_log,
            hard_state: self.hs.clone(),
        }
    }

    /// Replaces the hard state as a whole.
    pub fn save_hard_state(&mut self, hs: HardState)
        ensures
            final(self)@ == old(self)@.save_hard_state(hs@),
    {
        self.hs = hs;
    }

    /// The entries of the log with an index of at least `start` and below
    /// `stop`, in ascending order of index. A range that holds no entry
    /// gives an empty vector.
    pub fn get_log_entries(&self, start: u64, stop: u64) -> (entries: Vec<Entry>)
        ensures
            is_range(self@.log, start, stop, entry_views(entries@)),
    {
        self.log.range(start, stop)
    }

    /// Writes each entry of `entries` to the log at its index, first to
    /// last: a later entry replaces an earlier one with the same index,
    /// from this batch or from before.
    pub fn append_log_entries(&mut self, entries: &[Entry])
        ensures
            final(self)@ == old(self)@.append_log_entries(entry_views(entries@)),
    {
        upsert_batch(&mut self.log, entries);
    }

    /// Writes each entry of `entries` to the state machine at its index,
    /// first to last.
    pub fn apply_entries_to_state_machine(&mut self, entries: &[Entry])
        ensures
            final(self)@ == old(self)@.apply_entries_to_state_machine(entry_views(entries@)),
    {
        upsert_batch(&mut self.state_machine, entries);
    }

    /// Asks for a snapshot of the log up to and including index `through`.
    /// This backend has no snapshots: the request fails, and nothing
    /// changes.
    #[allow(unused_variables)]
    pub fn create_snapshot(&mut self, through: u64) -> (result: Result<
        CurrentSnapshotData,
        MemoryStorageError,
    >)
        ensures
            result matches Err(error) && error.kind
                == StorageErrorKind::SnapshotCreationUnsupported,
            *final(self) == *old(self),
    {
        Err(MemoryStorageError { kind: StorageErrorKind::SnapshotCreationUnsupported })
    }

    /// Asks to put a snapshot that covers the log up to `index`, written in
    /// `term`, in place of the entries it covers. This backend has no
    /// snapshots: the request fails, and nothing changes.
    #[allow(unused_variables)]
    pub fn install_snapshot(&mut self, index: u64, term: u64, payload: &[u8]) -> (result: Result<
        (),
        MemoryStorageError,
    >)
        ensures
            result matches Err(error) && error.kind
                == StorageErrorKind::SnapshotInstallationUnsupported,
            *final(self) == *old(self),
    {
        Err(MemoryStorageError { kind: StorageErrorKind::SnapshotInstallationUnsupported })
    }

    /// The descriptor of the current snapshot, if there is one.
    pub fn get_current_snapshot(&self) -> (snapshot: Option<CurrentSnapshotData>)
        ensures
            snapshot_view(snapshot) == self@.snapshot,
    {
        match &self.snapshot_data {
            Some(data) => Some(data.clone()),
            None => None,
        }
    }
}

} // verus!
