use memory_storage::{
    Entry, HardState, InitialState, MemoryStorage, MemoryStorageError, StorageErrorKind,
};

fn entry(index: u64, term: u64, payload: &[u8]) -> Entry {
    Entry { index, term, payload: payload.to_vec() }
}

fn storage() -> MemoryStorage {
    MemoryStorage::new(vec![1, 2, 3], String::from("/tmp/snapshots"))
}

#[test]
fn new_storage_starts_at_term_zero_with_its_members() {
    let storage = MemoryStorage::new(vec![7, 8, 9], String::from("snapshots"));
    let state = storage.get_initial_state();
    assert_eq!(
        state,
        InitialState {
            last_log_index: 0,
            last_log_term: 0,
            last_applied_log: 0,
            hard_state: HardState { current_term: 0, voted_for: None, members: vec![7, 8, 9] },
        }
    );
    assert_eq!(storage.snapshot_dir(), "snapshots");
    assert_eq!(storage.get_log_entries(0, u64::MAX), vec![]);
    assert_eq!(storage.get_current_snapshot(), None);
}

#[test]
fn new_storage_accepts_an_empty_membership() {
    let storage = MemoryStorage::new(vec![], String::new());
    let state = storage.get_initial_state();
    assert_eq!(state.hard_state.members, Vec::<u64>::new());
    assert_eq!(storage.snapshot_dir(), "");
}

#[test]
fn append_two_entries_then_read_and_restart() {
    let mut storage = storage();
    storage.append_log_entries(&[entry(1, 1, b"a"), entry(2, 1, b"b")]);
    assert_eq!(storage.get_log_entries(1, 3), vec![entry(1, 1, b"a"), entry(2, 1, b"b")]);
    let state = storage.get_initial_state();
    assert_eq!(state.last_log_index, 2);
    assert_eq!(state.last_log_term, 1);
    assert_eq!(state.last_applied_log, 0);
}

#[test]
fn save_hard_state_is_read_back_whole() {
    let mut storage = storage();
    let saved = HardState { current_term: 5, voted_for: Some(2), members: vec![2, 3, 4, 5] };
    storage.save_hard_state(HardState {
        current_term: 5,
        voted_for: Some(2),
        members: vec![2, 3, 4, 5],
    });
    assert_eq!(storage.get_initial_state().hard_state, saved);
}

#[test]
fn save_hard_state_replaces_every_field() {
    let mut storage = storage();
    storage.save_hard_state(HardState { current_term: 5, voted_for: Some(2), members: vec![2] });
    storage.save_hard_state(HardState { current_term: 6, voted_for: None, members: vec![] });
    assert_eq!(
        storage.get_initial_state().hard_state,
        HardState { current_term: 6, voted_for: None, members: vec![] }
    );
}

#[test]
fn save_hard_state_leaves_log_and_state_machine_alone() {
    let mut storage = storage();
    storage.append_log_entries(&[entry(1, 1, b"a"), entry(2, 2, b"b")]);
    storage.apply_entries_to_state_machine(&[entry(1, 1, b"a")]);
    storage.save_hard_state(HardState { current_term: 9, voted_for: Some(3), members: vec![3] });
    let state = storage.get_initial_state();
    assert_eq!(state.last_log_index, 2);
    assert_eq!(state.last_log_term, 2);
    assert_eq!(state.last_applied_log, 1);
    assert_eq!(storage.get_log_entries(0, 10), vec![entry(1, 1, b"a"), entry(2, 2, b"b")]);
}

#[test]
fn later_write_at_an_index_wins_across_batches() {
    let mut storage = storage();
    storage.append_log_entries(&[entry(1, 1, b"old"), entry(2, 1, b"keep")]);
    storage.append_log_entries(&[entry(1, 3, b"new")]);
    assert_eq!(
        storage.get_log_entries(0, 10),
        vec![entry(1, 3, b"new"), entry(2, 1, b"keep")]
    );
}

#[test]
fn later_write_at_an_index_wins_within_a_batch() {
    let mut storage = storage();
    storage.append_log_entries(&[entry(4, 1, b"first"), entry(4, 2, b"second")]);
    assert_eq!(storage.get_log_entries(0, 10), vec![entry(4, 2, b"second")]);
    let state = storage.get_initial_state();
    assert_eq!(state.last_log_index, 4);
    assert_eq!(state.last_log_term, 2);
}

#[test]
fn entries_are_read_in_index_order_whatever_the_write_order() {
    let mut storage = storage();
    storage.append_log_entries(&[entry(5, 2, b"e"), entry(1, 1, b"a"), entry(3, 1, b"c")]);
    storage.append_log_entries(&[entry(4, 2, b"d"), entry(2, 1, b"b")]);
    let read = storage.get_log_entries(0, u64::MAX);
    assert_eq!(
        read,
        vec![
            entry(1, 1, b"a"),
            entry(2, 1, b"b"),
            entry(3, 1, b"c"),
            entry(4, 2, b"d"),
            entry(5, 2, b"e"),
        ]
    );
}

#[test]
fn gaps_are_kept_and_the_last_index_is_the_greatest() {
    let mut storage = storage();
    storage.append_log_entries(&[entry(10, 1, b"x"), entry(20, 4, b"y")]);
    storage.append_log_entries(&[entry(15, 2, b"z")]);
    assert_eq!(
        storage.get_log_entries(0, 100),
        vec![entry(10, 1, b"x"), entry(15, 2, b"z"), entry(20, 4, b"y")]
    );
    let state = storage.get_initial_state();
    assert_eq!(state.last_log_index, 20);
    assert_eq!(state.last_log_term, 4);
}

#[test]
fn last_log_term_is_the_term_of_the_last_entry_not_the_greatest_term() {
    let mut storage = storage();
    storage.append_log_entries(&[entry(1, 9, b""), entry(2, 3, b"")]);
    let state = storage.get_initial_state();
    assert_eq!(state.last_log_index, 2);
    assert_eq!(state.last_log_term, 3);
}

#[test]
fn range_is_half_open() {
    let mut storage = storage();
    storage.append_log_entries(&[
        entry(1, 1, b"a"),
        entry(2, 1, b"b"),
        entry(3, 1, b"c"),
        entry(4, 1, b"d"),
    ]);
    assert_eq!(storage.get_log_entries(2, 4), vec![entry(2, 1, b"b"), entry(3, 1, b"c")]);
    assert_eq!(storage.get_log_entries(2, 3), vec![entry(2, 1, b"b")]);
    assert_eq!(storage.get_log_entries(4, 5), vec![entry(4, 1, b"d")]);
    assert_eq!(storage.get_log_entries(0, 2), vec![entry(1, 1, b"a")]);
}

#[test]
fn range_outside_the_log_is_empty() {
    let mut storage = storage();
    storage.append_log_entries(&[entry(5, 1, b"a"), entry(6, 1, b"b")]);
    assert_eq!(storage.get_log_entries(0, 5), vec![]);
    assert_eq!(storage.get_log_entries(7, 100), vec![]);
    assert_eq!(storage.get_log_entries(100, u64::MAX), vec![]);
}

#[test]
fn range_that_stops_at_or_before_its_start_is_empty() {
    let mut storage = storage();
    storage.append_log_entries(&[entry(1, 1, b"a"), entry(2, 1, b"b"), entry(3, 1, b"c")]);
    assert_eq!(storage.get_log_entries(2, 2), vec![]);
    assert_eq!(storage.get_log_entries(3, 1), vec![]);
    assert_eq!(storage.get_log_entries(u64::MAX, 0), vec![]);
}

#[test]
fn range_in_a_gap_is_empty() {
    let mut storage = storage();
    storage.append_log_entries(&[entry(1, 1, b"a"), entry(9, 1, b"b")]);
    assert_eq!(storage.get_log_entries(2, 9), vec![]);
}

#[test]
fn reading_does_not_change_the_log() {
    let mut storage = storage();
    storage.append_log_entries(&[entry(1, 1, b"a"), entry(2, 1, b"b")]);
    let first = storage.get_log_entries(0, 10);
    let second = storage.get_log_entries(0, 10);
    assert_eq!(first, second);
    assert_eq!(first.len(), 2);
}

#[test]
fn empty_batch_changes_nothing() {
    let mut storage = storage();
    storage.append_log_entries(&[entry(1, 1, b"a")]);
    storage.append_log_entries(&[]);
    storage.apply_entries_to_state_machine(&[]);
    assert_eq!(storage.get_log_entries(0, 10), vec![entry(1, 1, b"a")]);
    assert_eq!(storage.get_initial_state().last_applied_log, 0);
}

#[test]
fn entry_at_index_zero_is_stored_like_any_other() {
    let mut storage = storage();
    storage.append_log_entries(&[entry(0, 7, b"zero")]);
    assert_eq!(storage.get_log_entries(0, 1), vec![entry(0, 7, b"zero")]);
    let state = storage.get_initial_state();
    assert_eq!(state.last_log_index, 0);
    assert_eq!(state.last_log_term, 7);
}

#[test]
fn entry_at_the_greatest_index_is_last_but_below_no_stop() {
    let mut storage = storage();
    storage.append_log_entries(&[entry(u64::MAX, 2, b"end"), entry(3, 1, b"c")]);
    let state = storage.get_initial_state();
    assert_eq!(state.last_log_index, u64::MAX);
    assert_eq!(state.last_log_term, 2);
    assert_eq!(storage.get_log_entries(0, u64::MAX), vec![entry(3, 1, b"c")]);
}

#[test]
fn applied_entries_move_last_applied_log_only() {
    let mut storage = storage();
    storage.append_log_entries(&[entry(1, 1, b"a"), entry(2, 1, b"b"), entry(3, 2, b"c")]);
    storage.apply_entries_to_state_machine(&[entry(1, 1, b"a"), entry(2, 1, b"b")]);
    let state = storage.get_initial_state();
    assert_eq!(state.last_log_index, 3);
    assert_eq!(state.last_log_term, 2);
    assert_eq!(state.last_applied_log, 2);
}

#[test]
fn applying_does_not_write_to_the_log() {
    let mut storage = storage();
    storage.apply_entries_to_state_machine(&[entry(4, 1, b"a")]);
    assert_eq!(storage.get_log_entries(0, 10), vec![]);
    let state = storage.get_initial_state();
    assert_eq!(state.last_log_index, 0);
    assert_eq!(state.last_log_term, 0);
    assert_eq!(state.last_applied_log, 4);
}

#[test]
fn last_applied_log_is_the_greatest_applied_index() {
    let mut storage = storage();
    storage.apply_entries_to_state_machine(&[entry(5, 1, b"e")]);
    storage.apply_entries_to_state_machine(&[entry(2, 1, b"b"), entry(5, 2, b"again")]);
    assert_eq!(storage.get_initial_state().last_applied_log, 5);
}

#[test]
fn stored_entries_are_copies() {
    let mut storage = storage();
    let mut batch = vec![entry(1, 1, b"a")];
    storage.append_log_entries(&batch);
    batch[0].payload.push(b'!');
    batch[0].term = 8;
    assert_eq!(storage.get_log_entries(1, 2), vec![entry(1, 1, b"a")]);
}

#[test]
fn create_snapshot_fails_and_changes_nothing() {
    let mut storage = storage();
    storage.append_log_entries(&[entry(1, 1, b"a"), entry(2, 1, b"b")]);
    storage.apply_entries_to_state_machine(&[entry(1, 1, b"a")]);
    storage.save_hard_state(HardState { current_term: 1, voted_for: Some(1), members: vec![1] });
    let before = storage.get_initial_state();
    assert_eq!(
        storage.create_snapshot(1),
        Err(MemoryStorageError { kind: StorageErrorKind::SnapshotCreationUnsupported })
    );
    assert_eq!(
        storage.create_snapshot(1),
        Err(MemoryStorageError { kind: StorageErrorKind::SnapshotCreationUnsupported })
    );
    assert_eq!(storage.get_initial_state(), before);
    assert_eq!(storage.get_log_entries(0, 10), vec![entry(1, 1, b"a"), entry(2, 1, b"b")]);
    assert_eq!(storage.get_current_snapshot(), None);
}

#[test]
fn install_snapshot_fails_and_changes_nothing() {
    let mut storage = storage();
    storage.append_log_entries(&[entry(1, 1, b"a"), entry(2, 1, b"b")]);
    storage.apply_entries_to_state_machine(&[entry(1, 1, b"a")]);
    let before = storage.get_initial_state();
    assert_eq!(
        storage.install_snapshot(2, 1, b"snapshot"),
        Err(MemoryStorageError { kind: StorageErrorKind::SnapshotInstallationUnsupported })
    );
    assert_eq!(
        storage.install_snapshot(2, 1, b"snapshot"),
        Err(MemoryStorageError { kind: StorageErrorKind::SnapshotInstallationUnsupported })
    );
    assert_eq!(storage.get_initial_state(), before);
    assert_eq!(storage.get_log_entries(0, 10), vec![entry(1, 1, b"a"), entry(2, 1, b"b")]);
    assert_eq!(storage.get_current_snapshot(), None);
}

#[test]
fn the_two_snapshot_failures_differ() {
    let mut storage = storage();
    let creation = storage.create_snapshot(0).unwrap_err();
    let installation = storage.install_snapshot(0, 0, b"").unwrap_err();
    assert_ne!(creation, installation);
}

#[test]
fn no_current_snapshot_after_any_requests() {
    let mut storage = storage();
    assert_eq!(storage.get_current_snapshot(), None);
    storage.append_log_entries(&[entry(1, 1, b"a")]);
    storage.apply_entries_to_state_machine(&[entry(1, 1, b"a")]);
    assert!(storage.create_snapshot(1).is_err());
    assert!(storage.install_snapshot(1, 1, b"s").is_err());
    storage.save_hard_state(HardState { current_term: 2, voted_for: None, members: vec![1] });
    assert_eq!(storage.get_current_snapshot(), None);
}

#[test]
fn many_entries_written_backwards_come_out_forwards() {
    let mut storage = storage();
    let mut index = 200u64;
    while index > 0 {
        storage.append_log_entries(&[entry(index, index / 10, &index.to_be_bytes())]);
        index -= 1;
    }
    let read = storage.get_log_entries(1, 201);
    assert_eq!(read.len(), 200);
    for (position, found) in read.iter().enumerate() {
        let expected = position as u64 + 1;
        assert_eq!(found, &entry(expected, expected / 10, &expected.to_be_bytes()));
    }
    assert_eq!(storage.get_log_entries(50, 60).len(), 10);
    assert_eq!(storage.get_initial_state().last_log_index, 200);
    assert_eq!(storage.get_initial_state().last_log_term, 20);
}
