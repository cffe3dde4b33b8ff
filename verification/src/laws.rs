//! What holds of the backend whatever it is asked to do.
//!
//! Each operation has its contract against the model. The laws here relate
//! the operations to each other: what a read returns after any number of
//! writes, what a node finds when it starts, and what never changes.

use crate::model::{
    appended, applied, ascending, has_index, is_last_index, is_last_write_at, is_range,
    keyed_by_index, last_index, last_saved, last_term, last_write, run, step, upsert_all,
    EntryMap, MemoryStorageView, Operation,
};
use crate::types::{EntryView, HardStateView, InitialStateView, NodeId};
use vstd::prelude::*;

verus! {

/// Writing two batches one after the other is writing the one batch that
/// holds the entries of the first followed by those of the second.
pub proof fn lemma_upsert_all_concat(m: EntryMap, first: Seq<EntryView>, second: Seq<EntryView>)
    ensures
        upsert_all(upsert_all(m, first), second) == upsert_all(m, first + second),
    decreases second.len(),
{
    if second.len() == 0 {
        assert(first + second =~= first);
    } else {
        lemma_upsert_all_concat(m, first, second.drop_last());
        assert((first + second).drop_last() =~= first + second.drop_last());
        assert((first + second).last() == second.last());
    }
}

/// The last write at an index is the entry at the greatest position among
/// those with that index; there is none exactly when no entry has it.
pub proof fn lemma_last_write(writes: Seq<EntryView>, k: u64)
    ensures
        match last_write(writes, k) {
            Some(entry) => exists|i: int|
                #[trigger] is_last_write_at(writes, k, i) && writes[i] == entry,
            None => !has_index(writes, k),
        },
    decreases writes.len(),
{
    if writes.len() == 0 {
    } else if writes.last().index == k {
        assert(is_last_write_at(writes, k, writes.len() - 1));
    } else {
        let rest = writes.drop_last();
        lemma_last_write(rest, k);
        match last_write(rest, k) {
            Some(entry) => {
                let i = choose|i: int| #[trigger]
                    is_last_write_at(rest, k, i) && rest[i] == entry;
                assert forall|j: int| i < j < writes.len() implies (#[trigger] writes[j]).index
                    != k by {
                    if j < rest.len() {
                        assert(rest[j].index != k);
                    }
                }
                assert(is_last_write_at(writes, k, i));
            },
            None => {
                if has_index(writes, k) {
                    let i = choose|i: int|
                        0 <= i < writes.len() && (#[trigger] writes[i]).index == k;
                    assert(rest[i].index == k);
                }
            },
        }
    }
}

/// Last writer wins: after a batch was written, an index holds the last
/// entry of the batch with that index, and what it held before where the
/// batch has none.
pub proof fn lemma_upsert_all_last_writer_wins(m: EntryMap, writes: Seq<EntryView>, k: u64)
    ensures
        upsert_all(m, writes).contains_key(k) <==> last_write(writes, k) is Some
            || m.contains_key(k),
        last_write(writes, k) matches Some(entry) ==> upsert_all(m, writes)[k] == entry,
        last_write(writes, k) is None ==> upsert_all(m, writes)[k] == m[k],
    decreases writes.len(),
{
    if writes.len() > 0 {
        lemma_upsert_all_last_writer_wins(m, writes.drop_last(), k);
    }
}

/// Writing entries keeps every entry under its own index.
pub proof fn lemma_upsert_all_keyed_by_index(m: EntryMap, writes: Seq<EntryView>)
    requires
        keyed_by_index(m),
    ensures
        keyed_by_index(upsert_all(m, writes)),
    decreases writes.len(),
{
    if writes.len() > 0 {
        lemma_upsert_all_keyed_by_index(m, writes.drop_last());
    }
}

/// Entries in strictly ascending order of index are all different.
pub proof fn lemma_ascending_no_duplicates(entries: Seq<EntryView>)
    requires
        ascending(entries),
    ensures
        entries.no_duplicates(),
{
    assert forall|i: int, j: int|
        0 <= i < entries.len() && 0 <= j < entries.len() && i != j implies entries[i]
        != entries[j] by {
        if i < j {
            assert(entries[i].index < entries[j].index);
        } else {
            assert(entries[j].index < entries[i].index);
        }
    }
}

/// A read without its last entry is the read that stops at that entry's
/// index.
proof fn lemma_range_shorten(m: EntryMap, start: u64, stop: u64, found: Seq<EntryView>)
    requires
        is_range(m, start, stop, found),
        found.len() > 0,
    ensures
        is_range(m, start, found.last().index, found.drop_last()),
{
    let last = found.last();
    let rest = found.drop_last();
    assert forall|i: int, j: int| 0 <= i < j < rest.len() implies (#[trigger] rest[i]).index < (
    #[trigger] rest[j]).index by {
        assert(found[i].index < found[j].index);
    }
    assert forall|i: int| 0 <= i < rest.len() implies {
        &&& start <= (#[trigger] rest[i]).index < last.index
        &&& m.contains_key(rest[i].index)
        &&& m[rest[i].index] == rest[i]
    } by {
        assert(rest[i] == found[i]);
        assert(found[i].index < found[found.len() - 1].index);
    }
    assert forall|k: u64| start <= k < last.index && #[trigger] m.contains_key(k) implies has_index(
        rest,
        k,
    ) by {
        assert(found[found.len() - 1].index < stop);
        assert(has_index(found, k));
        let c = choose|c: int| 0 <= c < found.len() && (#[trigger] found[c]).index == k;
        assert(rest[c].index == k);
    }
}

/// A read has one possible result: two sequences that both are the range
/// `[start, stop)` of `m` are the same sequence.
pub proof fn lemma_range_unique(
    m: EntryMap,
    start: u64,
    stop: u64,
    a: Seq<EntryView>,
    b: Seq<EntryView>,
)
    requires
        is_range(m, start, stop, a),
        is_range(m, start, stop, b),
    ensures
        a == b,
    decreases a.len(),
{
    if a.len() == 0 {
        if b.len() > 0 {
            assert(m.contains_key(b[0].index));
            assert(has_index(a, b[0].index));
        }
        assert(a =~= b);
    } else {
        let ka = a.last().index;
        assert(m.contains_key(ka));
        assert(has_index(b, ka));
        let j = choose|j: int| 0 <= j < b.len() && (#[trigger] b[j]).index == ka;
        let kb = b.last().index;
        assert(m.contains_key(kb));
        assert(has_index(a, kb));
        let i = choose|i: int| 0 <= i < a.len() && (#[trigger] a[i]).index == kb;
        assert(kb <= ka) by {
            if i < a.len() - 1 {
                assert(a[i].index < a[a.len() - 1].index);
            }
        }
        assert(ka <= kb) by {
            if j < b.len() - 1 {
                assert(b[j].index < b[b.len() - 1].index);
            }
        }
        assert(a.last() == b.last());
        lemma_range_shorten(m, start, stop, a);
        lemma_range_shorten(m, start, stop, b);
        lemma_range_unique(m, start, ka, a.drop_last(), b.drop_last());
        assert(a =~= a.drop_last().push(a.last()));
        assert(b =~= b.drop_last().push(b.last()));
    }
}

/// A read of a range in which the store holds no index returns nothing;
/// so does a read of a range that stops at or before its start.
pub proof fn lemma_range_empty(m: EntryMap, start: u64, stop: u64, found: Seq<EntryView>)
    requires
        is_range(m, start, stop, found),
        forall|k: u64| start <= k < stop ==> !m.contains_key(k),
    ensures
        found == Seq::<EntryView>::empty(),
{
    if found.len() > 0 {
        assert(m.contains_key(found[0].index));
    }
    assert(found =~= Seq::<EntryView>::empty());
}

/// Among the indices of a store that holds any entry, one is the greatest.
proof fn lemma_greatest_index_exists(m: EntryMap, k: u64)
    requires
        m.contains_key(k),
    ensures
        exists|g: u64| is_last_index(m, g),
    decreases u64::MAX - k,
{
    if !is_last_index(m, k) {
        let j = choose|j: u64| m.contains_key(j) && j > k;
        lemma_greatest_index_exists(m, j);
    }
}

/// The end of a store: where it holds any entry, `last_index` is its
/// greatest index and `last_term` the term of the entry there; where it
/// holds none, both are 0.
pub proof fn lemma_last_index(m: EntryMap)
    ensures
        m.dom().is_empty() ==> last_index(m) == 0 && last_term(m) == 0,
        !m.dom().is_empty() ==> is_last_index(m, last_index(m)),
        !m.dom().is_empty() ==> last_term(m) == m[last_index(m)].term,
{
    if m.dom().is_empty() {
        assert forall|k: u64| !m.contains_key(k) by {
            assert(!m.dom().contains(k));
        }
    } else {
        let k = choose|k: u64| m.dom().contains(k);
        assert(m.contains_key(k));
        lemma_greatest_index_exists(m, k);
    }
}

/// What a node finds when it starts: the index and term of the log's last
/// entry, or 0 and 0 where the log is empty.
pub proof fn lemma_initial_state_log_end(s: MemoryStorageView)
    ensures
        s.log.dom().is_empty() ==> s.initial_state().last_log_index == 0,
        s.log.dom().is_empty() ==> s.initial_state().last_log_term == 0,
        !s.log.dom().is_empty() ==> is_last_index(s.log, s.initial_state().last_log_index),
        !s.log.dom().is_empty() ==> s.initial_state().last_log_term
            == s.log[s.initial_state().last_log_index].term,
{
    lemma_last_index(s.log);
}

/// What a node finds when it starts: the greatest index in the state
/// machine, or 0 where nothing was applied.
pub proof fn lemma_initial_state_last_applied(s: MemoryStorageView)
    ensures
        s.state_machine.dom().is_empty() ==> s.initial_state().last_applied_log == 0,
        !s.state_machine.dom().is_empty() ==> is_last_index(
            s.state_machine,
            s.initial_state().last_applied_log,
        ),
{
    lemma_last_index(s.state_machine);
}

/// A node that saves a hard state and then asks for its initial state gets
/// that hard state back, and the ends of the log and of the state machine
/// as they were.
pub proof fn lemma_save_then_initial_state(s: MemoryStorageView, hard_state: HardStateView)
    ensures
        s.save_hard_state(hard_state).initial_state().hard_state == hard_state,
        s.save_hard_state(hard_state).initial_state() == (InitialStateView {
            hard_state,
            ..s.initial_state()
        }),
{
}

/// After any requests, the hard state is the one saved last, or what it
/// was where none was saved; the log is what it was with every appended
/// entry written over it in order; the state machine is what it was with
/// every applied entry written over it in order; and the snapshot slot and
/// the directory label are what they were.
pub proof fn lemma_run(s: MemoryStorageView, ops: Seq<Operation>)
    ensures
        run(s, ops).hard_state == match last_saved(ops) {
            Some(hard_state) => hard_state,
            None => s.hard_state,
        },
        run(s, ops).log == upsert_all(s.log, appended(ops)),
        run(s, ops).state_machine == upsert_all(s.state_machine, applied(ops)),
        run(s, ops).snapshot == s.snapshot,
        run(s, ops).snapshot_dir == s.snapshot_dir,
    decreases ops.len(),
{
    if ops.len() > 0 {
        let before = ops.drop_last();
        lemma_run(s, before);
        match ops.last() {
            Operation::AppendLogEntries { entries } => {
                lemma_upsert_all_concat(s.log, appended(before), entries);
            },
            Operation::ApplyEntriesToStateMachine { entries } => {
                lemma_upsert_all_concat(s.state_machine, applied(before), entries);
            },
            _ => {},
        }
    }
}

/// A backend holds nothing that it was not given: after any requests to a
/// new backend, the log holds an index exactly when an entry with that
/// index was appended, the state machine exactly when one was applied, and
/// what stands there is the last such entry.
pub proof fn lemma_stores_hold_what_was_written(
    members: Seq<NodeId>,
    snapshot_dir: Seq<char>,
    ops: Seq<Operation>,
    k: u64,
)
    ensures
        ({
            let s = run(MemoryStorageView::init(members, snapshot_dir), ops);
            &&& s.log.contains_key(k) <==> last_write(appended(ops), k) is Some
            &&& s.log.contains_key(k) ==> last_write(appended(ops), k) == Some(s.log[k])
            &&& s.state_machine.contains_key(k) <==> last_write(applied(ops), k) is Some
            &&& s.state_machine.contains_key(k) ==> last_write(applied(ops), k) == Some(
                s.state_machine[k],
            )
        }),
{
    let start = MemoryStorageView::init(members, snapshot_dir);
    lemma_run(start, ops);
    lemma_upsert_all_last_writer_wins(start.log, appended(ops), k);
    lemma_upsert_all_last_writer_wins(start.state_machine, applied(ops), k);
}

/// Requests for snapshots change nothing.
pub proof fn lemma_snapshot_requests_change_nothing(
    s: MemoryStorageView,
    through: u64,
    index: u64,
    term: u64,
    payload: Seq<u8>,
)
    ensures
        step(s, Operation::CreateSnapshot { through }) == s,
        step(s, Operation::InstallSnapshot { index, term, payload }) == s,
{
}

/// A backend never has a current snapshot, whatever it was asked since it
/// was made.
pub proof fn lemma_no_snapshot(members: Seq<NodeId>, snapshot_dir: Seq<char>, ops: Seq<Operation>)
    ensures
        run(MemoryStorageView::init(members, snapshot_dir), ops).snapshot is None,
{
    lemma_run(MemoryStorageView::init(members, snapshot_dir), ops);
}

/// A read after any requests returns its entries in strictly ascending
/// order of index, none twice; each is the last entry appended at its
/// index, or the one that the log held before where none was appended
/// there; and every index of the range that was appended to, or that the
/// log held before, is among them.
pub proof fn lemma_read_after_appends(
    s: MemoryStorageView,
    ops: Seq<Operation>,
    start: u64,
    stop: u64,
    found: Seq<EntryView>,
)
    requires
        is_range(run(s, ops).log, start, stop, found),
    ensures
        ascending(found),
        found.no_duplicates(),
        forall|i: int|
            0 <= i < found.len() ==> match last_write(appended(ops), (#[trigger] found[i]).index) {
                Some(entry) => found[i] == entry,
                None => s.log.contains_key(found[i].index) && found[i] == s.log[found[i].index],
            },
        forall|k: u64|
            start <= k < stop && (#[trigger] last_write(appended(ops), k)) is Some ==> has_index(
                found,
                k,
            ),
        forall|k: u64| start <= k < stop && #[trigger] s.log.contains_key(k) ==> has_index(found, k),
{
    let log = run(s, ops).log;
    lemma_run(s, ops);
    lemma_ascending_no_duplicates(found);
    assert forall|i: int| 0 <= i < found.len() implies match last_write(
        appended(ops),
        (#[trigger] found[i]).index,
    ) {
        Some(entry) => found[i] == entry,
        None => s.log.contains_key(found[i].index) && found[i] == s.log[found[i].index],
    } by {
        lemma_upsert_all_last_writer_wins(s.log, appended(ops), found[i].index);
    }
    assert forall|k: u64|
        start <= k < stop && (#[trigger] last_write(appended(ops), k)) is Some implies has_index(
        found,
        k,
    ) by {
        lemma_upsert_all_last_writer_wins(s.log, appended(ops), k);
        assert(log.contains_key(k));
    }
    assert forall|k: u64| start <= k < stop && #[trigger] s.log.contains_key(k) implies has_index(
        found,
        k,
    ) by {
        lemma_upsert_all_last_writer_wins(s.log, appended(ops), k);
        assert(log.contains_key(k));
    }
}

} // verus!
