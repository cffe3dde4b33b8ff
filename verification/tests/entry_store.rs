use memory_storage::{Entry, EntryStore};

fn record(index: u64, term: u64) -> Entry {
    Entry { index, term, payload: vec![index as u8, term as u8] }
}

#[test]
fn empty_store_has_no_last_entry_and_no_range() {
    let store = EntryStore::new();
    assert_eq!(store.last(), None);
    assert_eq!(store.range(0, u64::MAX), vec![]);
}

#[test]
fn upsert_puts_an_entry_between_its_neighbours() {
    let mut store = EntryStore::new();
    store.upsert(record(10, 1));
    store.upsert(record(30, 1));
    store.upsert(record(20, 1));
    store.upsert(record(5, 1));
    store.upsert(record(40, 1));
    assert_eq!(
        store.range(0, 100),
        vec![record(5, 1), record(10, 1), record(20, 1), record(30, 1), record(40, 1)]
    );
}

#[test]
fn upsert_replaces_the_entry_with_the_same_index() {
    let mut store = EntryStore::new();
    store.upsert(record(1, 1));
    store.upsert(record(2, 1));
    store.upsert(record(3, 1));
    store.upsert(record(2, 7));
    assert_eq!(store.range(0, 10), vec![record(1, 1), record(2, 7), record(3, 1)]);
    store.upsert(record(1, 8));
    store.upsert(record(3, 9));
    assert_eq!(store.range(0, 10), vec![record(1, 8), record(2, 7), record(3, 9)]);
}

#[test]
fn last_is_the_entry_with_the_greatest_index() {
    let mut store = EntryStore::new();
    store.upsert(record(8, 2));
    assert_eq!(store.last(), Some(&record(8, 2)));
    store.upsert(record(3, 5));
    assert_eq!(store.last(), Some(&record(8, 2)));
    store.upsert(record(9, 1));
    assert_eq!(store.last(), Some(&record(9, 1)));
    store.upsert(record(9, 4));
    assert_eq!(store.last(), Some(&record(9, 4)));
}

#[test]
fn store_range_bounds_are_start_inclusive_and_stop_exclusive() {
    let mut store = EntryStore::new();
    for index in [2u64, 4, 6, 8] {
        store.upsert(record(index, 1));
    }
    assert_eq!(store.range(4, 8), vec![record(4, 1), record(6, 1)]);
    assert_eq!(store.range(3, 9), vec![record(4, 1), record(6, 1), record(8, 1)]);
    assert_eq!(store.range(5, 6), vec![]);
    assert_eq!(store.range(6, 6), vec![]);
    assert_eq!(store.range(8, 2), vec![]);
    assert_eq!(store.range(9, u64::MAX), vec![]);
    assert_eq!(store.range(0, 2), vec![]);
    assert_eq!(store.range(0, 3), vec![record(2, 1)]);
}

#[test]
fn entry_clone_keeps_every_field() {
    let source = Entry { index: 3, term: 4, payload: vec![1, 2, 3] };
    let copy = source.clone();
    assert_eq!(copy, source);
    assert_eq!(copy.payload, vec![1, 2, 3]);
}
