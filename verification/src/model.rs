//! The mathematical model of the storage backend.
//!
//! A store of entries is a map from index to entry. The backend as a whole
//! is a record of its hard state, its two stores, its snapshot slot and the
//! label of its snapshot directory. The functions here say what each
//! operation does to that record and what it returns; the executable code
//! is proved against them.

use crate::types::{
    CurrentSnapshotDataView, EntryView, HardStateView, InitialStateView, NodeId,
};
use vstd::prelude::*;

verus! {

/// A store of entries: each entry stands under its own index.
pub type EntryMap = Map<u64, EntryView>;

/// Every entry of `m` stands under its own index.
pub open spec fn keyed_by_index(m: EntryMap) -> bool {
    forall|k: u64| #[trigger] m.contains_key(k) ==> m[k].index == k
}

/// `m` after the entries of `batch` were written one by one, first to last,
/// each at its own index and over whatever stood there.
pub open spec fn upsert_all(m: EntryMap, batch: Seq<EntryView>) -> EntryMap
    decreases batch.len(),
{
    if batch.len() == 0 {
        m
    } else {
        upsert_all(m, batch.drop_last()).insert(batch.last().index, batch.last())
    }
}

/// The entry of `writes` that a reader of index `k` sees once all of them
/// were written in order: the last one with that index, if there is any.
pub open spec fn last_write(writes: Seq<EntryView>, k: u64) -> Option<EntryView>
    decreases writes.len(),
{
    if writes.len() == 0 {
        None
    } else if writes.last().index == k {
        Some(writes.last())
    } else {
        last_write(writes.drop_last(), k)
    }
}

/// The entry at position `i` of `writes` has the index `k`, and none after
/// it has.
pub open spec fn is_last_write_at(writes: Seq<EntryView>, k: u64, i: int) -> bool {
    &&& 0 <= i < writes.len()
    &&& writes[i].index == k
    &&& forall|j: int| i < j < writes.len() ==> (#[trigger] writes[j]).index != k
}

/// `k` is the greatest index in `m`.
pub open spec fn is_last_index(m: EntryMap, k: u64) -> bool {
    m.contains_key(k) && forall|j: u64| m.contains_key(j) ==> j <= k
}

/// The greatest index in `m`, or 0 where `m` holds nothing.
pub open spec fn last_index(m: EntryMap) -> u64 {
    if exists|k: u64| m.contains_key(k) {
        choose|k: u64| is_last_index(m, k)
    } else {
        0
    }
}

/// The term of the entry with the greatest index in `m`, or 0 where `m`
/// holds nothing.
pub open spec fn last_term(m: EntryMap) -> u64 {
    if exists|k: u64| m.contains_key(k) {
        m[last_index(m)].term
    } else {
        0
    }
}

/// The indices of `entries` ascend strictly.
pub open spec fn ascending(entries: Seq<EntryView>) -> bool {
    forall|i: int, j: int|
        0 <= i < j < entries.len() ==> (#[trigger] entries[i]).index < (
        #[trigger] entries[j]).index
}

/// One of `entries` has the index `k`.
pub open spec fn has_index(entries: Seq<EntryView>, k: u64) -> bool {
    exists|i: int| 0 <= i < entries.len() && (#[trigger] entries[i]).index == k
}

/// `found` is what a read of the half-open range `[start, stop)` of `m`
/// returns: every entry of `m` with an index in the range, each once, in
/// ascending order of index, and nothing else.
pub open spec fn is_range(m: EntryMap, start: u64, stop: u64, found: Seq<EntryView>) -> bool {
    &&& ascending(found)
    &&& forall|i: int|
        0 <= i < found.len() ==> {
            &&& start <= (#[trigger] found[i]).index < stop
            &&& m.contains_key(found[i].index)
            &&& m[found[i].index] == found[i]
        }
    &&& forall|k: u64| start <= k < stop && #[trigger] m.contains_key(k) ==> has_index(found, k)
}

/// The state of a backend.
pub struct MemoryStorageView {
    pub hard_state: HardStateView,
    pub log: EntryMap,
    pub state_machine: EntryMap,
    pub snapshot: Option<CurrentSnapshotDataView>,
    pub snapshot_dir: Seq<char>,
}

impl MemoryStorageView {
    /// The state of a new backend: term 0, no vote, the given members, and
    /// nothing in the log, in the state machine or in the snapshot slot.
    pub open spec fn init(members: Seq<NodeId>, snapshot_dir: Seq<char>) -> MemoryStorageView {
        MemoryStorageView {
            hard_state: HardStateView { current_term: 0, voted_for: None, members },
            log: Map::empty(),
            state_machine: Map::empty(),
            snapshot: None,
            snapshot_dir,
        }
    }

    /// What a node learns of this state when it starts.
    pub open spec fn initial_state(self) -> InitialStateView {
        InitialStateView {
            last_log_index: last_index(self.log),
            last_log_term: last_term(self.log),
            last_applied_log: last_index(self.state_machine),
            hard_state: self.hard_state,
        }
    }

    /// This state with `hard_state` in place of its hard state.
    pub open spec fn save_hard_state(self, hard_state: HardStateView) -> MemoryStorageView {
        MemoryStorageView { hard_state, ..self }
    }

    /// This state after `batch` was written to the log.
    pub open spec fn append_log_entries(self, batch: Seq<EntryView>) -> MemoryStorageView {
        MemoryStorageView { log: upsert_all(self.log, batch), ..self }
    }

    /// This state after `batch` was applied to the state machine.
    pub open spec fn apply_entries_to_state_machine(
        self,
        batch: Seq<EntryView>,
    ) -> MemoryStorageView {
        MemoryStorageView { state_machine: upsert_all(self.state_machine, batch), ..self }
    }
}

/// One request to a backend, with its arguments.
pub enum Operation {
    /// Read the ends of the log and of the state machine, and the hard
    /// state.
    GetInitialState,
    /// Replace the hard state.
    SaveHardState { hard_state: HardStateView },
    /// Read the log from `start` up to, but without, `stop`.
    GetLogEntries { start: u64, stop: u64 },
    /// Write `entries` to the log.
    AppendLogEntries { entries: Seq<EntryView> },
    /// Write `entries` to the state machine.
    ApplyEntriesToStateMachine { entries: Seq<EntryView> },
    /// Make a snapshot of the log up to and including `through`.
    CreateSnapshot { through: u64 },
    /// Put a snapshot in place of the log up to and including `index`.
    InstallSnapshot { index: u64, term: u64, payload: Seq<u8> },
    /// Read the descriptor of the current snapshot.
    GetCurrentSnapshot,
}

/// The state in which the request `op` leaves a backend that was in state
/// `s`. The reads leave it as it was, and so do the two requests for
/// snapshots, which fail.
pub open spec fn step(s: MemoryStorageView, op: Operation) -> MemoryStorageView {
    match op {
        Operation::GetInitialState => s,
        Operation::SaveHardState { hard_state } => s.save_hard_state(hard_state),
        Operation::GetLogEntries { start, stop } => s,
        Operation::AppendLogEntries { entries } => s.append_log_entries(entries),
        Operation::ApplyEntriesToStateMachine { entries } => s.apply_entries_to_state_machine(
            entries,
        ),
        Operation::CreateSnapshot { through } => s,
        Operation::InstallSnapshot { index, term, payload } => s,
        Operation::GetCurrentSnapshot => s,
    }
}

/// The entries that the requests `ops` write to the log, in the order in
/// which they are written.
pub open spec fn appended(ops: Seq<Operation>) -> Seq<EntryView>
    decreases ops.len(),
{
    if ops.len() == 0 {
        Seq::empty()
    } else {
        match ops.last() {
            Operation::AppendLogEntries { entries } => appended(ops.drop_last()) + entries,
            _ => appended(ops.drop_last()),
        }
    }
}

/// The entries that the requests `ops` apply to the state machine, in the
/// order in which they are applied.
pub open spec fn applied(ops: Seq<Operation>) -> Seq<EntryView>
    decreases ops.len(),
{
    if ops.len() == 0 {
        Seq::empty()
    } else {
        match ops.last() {
            Operation::ApplyEntriesToStateMachine { entries } => applied(ops.drop_last())
                + entries,
            _ => applied(ops.drop_last()),
        }
    }
}

/// The hard state that the requests `ops` save last, if they save any.
pub open spec fn last_saved(ops: Seq<Operation>) -> Option<HardStateView>
    decreases ops.len(),
{
    if ops.len() == 0 {
        None
    } else {
        match ops.last() {
            Operation::SaveHardState { hard_state } => Some(hard_state),
            _ => last_saved(ops.drop_last()),
        }
    }
}

/// The state in which the requests `ops`, served first to last, leave a
/// backend that was in state `s`.
pub open spec fn run(s: MemoryStorageView, ops: Seq<Operation>) -> MemoryStorageView
    decreases ops.len(),
{
    if ops.len() == 0 {
        s
    } else {
        step(run(s, ops.drop_last()), ops.last())
    }
}

} // verus!
