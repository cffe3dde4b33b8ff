//! An ordered store of entries, keyed by index.
//!
//! The entries are kept in a vector in strictly ascending order of index,
//! so that a lookup is a binary search, a range is a slice, and the entry
//! with the greatest index is the last one. To its users the store is a map
//! from index to entry.

use crate::model::{ascending, has_index, is_last_index, is_range, keyed_by_index, EntryMap};
use crate::types::{entry_views, Entry, EntryView};
use vstd::prelude::*;

verus! {

/// The map that the sequence `s` stands for: an index leads to an entry of
/// `s` that has it.
spec fn as_map(s: Seq<EntryView>) -> EntryMap {
    Map::new(
        |k: u64| has_index(s, k),
        |k: u64| s[choose|i: int| 0 <= i < s.len() && (#[trigger] s[i]).index == k],
    )
}

/// `p` is the position of the first entry of `s` whose index is at least
/// `key`: the length of `s` where there is none.
spec fn is_lower_bound(s: Seq<EntryView>, key: u64, p: int) -> bool {
    &&& 0 <= p <= s.len()
    &&& forall|i: int| 0 <= i < p ==> (#[trigger] s[i]).index < key
    &&& forall|i: int| p <= i < s.len() ==> (#[trigger] s[i]).index >= key
}

/// In an ascending sequence each entry is the one that the map holds under
/// its index.
proof fn lemma_lookup(s: Seq<EntryView>, i: int)
    requires
        ascending(s),
        0 <= i < s.len(),
    ensures
        as_map(s).contains_key(s[i].index),
        as_map(s)[s[i].index] == s[i],
{
    let k = s[i].index;
    assert(has_index(s, k));
    let c = choose|c: int| 0 <= c < s.len() && (#[trigger] s[c]).index == k;
    if c < i {
        assert(s[c].index < s[i].index);
    } else if i < c {
        assert(s[i].index < s[c].index);
    }
}

/// Putting an entry at the lower bound of its index, where no entry has
/// that index yet, keeps the order and adds the entry to the map.
proof fn lemma_insert(s: Seq<EntryView>, p: int, e: EntryView)
    requires
        ascending(s),
        is_lower_bound(s, e.index, p),
        p < s.len() ==> s[p].index != e.index,
    ensures
        ascending(s.insert(p, e)),
        as_map(s.insert(p, e)) == as_map(s).insert(e.index, e),
{
    let t = s.insert(p, e);
    assert forall|i: int, j: int| 0 <= i < j < t.len() implies (#[trigger] t[i]).index < (
    #[trigger] t[j]).index by {
        if p < s.len() {
            assert(s[p].index > e.index);
        }
        if j < p {
            assert(s[i].index < s[j].index);
        } else if j == p {
            assert(s[i].index < e.index);
        } else if i < p {
            assert(s[i].index < s[j - 1].index);
        } else if i == p {
            assert(s[p].index <= s[j - 1].index) by {
                if p < j - 1 {
                    assert(s[p].index < s[j - 1].index);
                }
            }
        } else {
            assert(s[i - 1].index < s[j - 1].index);
        }
    }
    assert(t[p] == e);
    assert forall|k: u64| as_map(t).contains_key(k) <==> as_map(s).insert(
        e.index,
        e,
    ).contains_key(k) by {
        if has_index(t, k) {
            let i = choose|i: int| 0 <= i < t.len() && (#[trigger] t[i]).index == k;
            if i < p {
                assert(s[i].index == k);
            } else if i > p {
                assert(s[i - 1].index == k);
            }
        }
        if has_index(s, k) {
            let i = choose|i: int| 0 <= i < s.len() && (#[trigger] s[i]).index == k;
            if i < p {
                assert(t[i].index == k);
            } else {
                assert(t[i + 1].index == k);
            }
        }
        if k == e.index {
            assert(t[p].index == k);
        }
    }
    assert forall|k: u64| as_map(t).contains_key(k) implies as_map(t)[k] == as_map(s).insert(
        e.index,
        e,
    )[k] by {
        let i = choose|i: int| 0 <= i < t.len() && (#[trigger] t[i]).index == k;
        lemma_lookup(t, i);
        if i < p {
            lemma_lookup(s, i);
        } else if i > p {
            lemma_lookup(s, i - 1);
        }
    }
    assert(as_map(t) =~= as_map(s).insert(e.index, e));
}

/// Replacing an entry by one with the same index keeps the order and
/// replaces the entry in the map.
proof fn lemma_replace(s: Seq<EntryView>, p: int, e: EntryView)
    requires
        ascending(s),
        0 <= p < s.len(),
        s[p].index == e.index,
    ensures
        ascending(s.update(p, e)),
        as_map(s.update(p, e)) == as_map(s).insert(e.index, e),
{
    let t = s.update(p, e);
    assert forall|i: int, j: int| 0 <= i < j < t.len() implies (#[trigger] t[i]).index < (
    #[trigger] t[j]).index by {
        assert(s[i].index < s[j].index);
    }
    assert(t[p] == e);
    assert forall|k: u64| as_map(t).contains_key(k) <==> as_map(s).insert(
        e.index,
        e,
    ).contains_key(k) by {
        if has_index(t, k) {
            let i = choose|i: int| 0 <= i < t.len() && (#[trigger] t[i]).index == k;
            assert(s[i].index == k);
        }
        if has_index(s, k) {
            let i = choose|i: int| 0 <= i < s.len() && (#[trigger] s[i]).index == k;
            assert(t[i].index == k);
        }
        if k == e.index {
            assert(t[p].index == k);
        }
    }
    assert forall|k: u64| as_map(t).contains_key(k) implies as_map(t)[k] == as_map(s).insert(
        e.index,
        e,
    )[k] by {
        let i = choose|i: int| 0 <= i < t.len() && (#[trigger] t[i]).index == k;
        lemma_lookup(t, i);
        if i != p {
            lemma_lookup(s, i);
        }
    }
    assert(as_map(t) =~= as_map(s).insert(e.index, e));
}

/// The stretch of an ascending sequence from the lower bound of `start` to
/// the lower bound of `stop` is the range `[start, stop)` of its map; where
/// the second bound does not come after the first, the range holds nothing.
proof fn lemma_slice_is_range(s: Seq<EntryView>, start: u64, stop: u64, lo: int, hi: int)
    requires
        ascending(s),
        is_lower_bound(s, start, lo),
        is_lower_bound(s, stop, hi),
    ensures
        lo < hi ==> is_range(as_map(s), start, stop, s.subrange(lo, hi)),
        lo >= hi ==> is_range(as_map(s), start, stop, Seq::empty()),
{
    let found = if lo < hi {
        s.subrange(lo, hi)
    } else {
        Seq::empty()
    };
    let m = as_map(s);
    assert forall|i: int, j: int| 0 <= i < j < found.len() implies (#[trigger] found[i]).index < (
    #[trigger] found[j]).index by {
        assert(s[lo + i].index < s[lo + j].index);
    }
    assert forall|i: int| 0 <= i < found.len() implies {
        &&& start <= (#[trigger] found[i]).index < stop
        &&& m.contains_key(found[i].index)
        &&& m[found[i].index] == found[i]
    } by {
        assert(found[i] == s[lo + i]);
        lemma_lookup(s, lo + i);
    }
    assert forall|k: u64| start <= k < stop && #[trigger] m.contains_key(k) implies has_index(
        found,
        k,
    ) by {
        let c = choose|c: int| 0 <= c < s.len() && (#[trigger] s[c]).index == k;
        assert(lo <= c < hi);
        assert(found[c - lo].index == k);
    }
}

/// An ordered store of entries.
pub struct EntryStore {
    entries: Vec<Entry>,
}

impl View for EntryStore {
    type V = EntryMap;

    closed spec fn view(&self) -> EntryMap {
        as_map(entry_views(self.entries@))
    }
}

impl EntryStore {
    #[verifier::type_invariant]
    spec fn well_formed(&self) -> bool {
        ascending(entry_views(self.entries@))
    }

    /// Whatever a store holds, it holds under the entry's own index.
    pub proof fn lemma_keyed_by_index(&self)
        ensures
            keyed_by_index(self@),
    {
        let s = entry_views(self.entries@);
        assert forall|k: u64| #[trigger] self@.contains_key(k) implies self@[k].index == k by {
            assert(has_index(s, k));
        }
    }

    /// A store that holds nothing.
    pub fn new() -> (store: Self)
        ensures
            store@ == EntryMap::empty(),
    {
        let store = EntryStore { entries: Vec::new() };
        assert(store@ =~= EntryMap::empty());
        store
    }

    /// The position of the first entry whose index is at least `key`, found
    /// by binary search.
    fn lower_bound(entries: &Vec<Entry>, key: u64) -> (p: usize)
        requires
            ascending(entry_views(entries@)),
        ensures
            is_lower_bound(entry_views(entries@), key, p as int),
    {
        let ghost s = entry_views(entries@);
        let mut lo: usize = 0;
        let mut hi: usize = entries.len();
        while lo < hi
            invariant
                lo <= hi <= entries.len(),
                s == entry_views(entries@),
                ascending(s),
                forall|i: int| 0 <= i < lo ==> (#[trigger] s[i]).index < key,
                forall|i: int| hi <= i < s.len() ==> (#[trigger] s[i]).index >= key,
            decreases hi - lo,
        {
            let mid: usize = lo + (hi - lo) / 2;
            assert(s[mid as int] == entries[mid as int]@);
            if entries[mid].index < key {
                assert forall|i: int| 0 <= i < mid + 1 implies (#[trigger] s[i]).index < key by {
                    if i < mid {
                        assert(s[i].index < s[mid as int].index);
                    }
                }
                lo = mid + 1;
            } else {
                assert forall|i: int| mid <= i < s.len() implies (#[trigger] s[i]).index >= key by {
                    if mid < i {
                        assert(s[mid as int].index < s[i].index);
                    }
                }
                hi = mid;
            }
        }
        lo
    }

    /// Writes `entry` at its index, over the entry that stood there if
    /// there was one.
    pub fn upsert(&mut self, entry: Entry)
        ensures
            final(self)@ == old(self)@.insert(entry.index, entry@),
    {
        proof {
            use_type_invariant(&*self);
        }
        let mut entries: Vec<Entry> = Vec::new();
        std::mem::swap(&mut entries, &mut self.entries);
        let ghost before = entry_views(entries@);
        let p = Self::lower_bound(&entries, entry.index);
        if p < entries.len() && entries[p].index == entry.index {
            proof {
                lemma_replace(before, p as int, entry@);
                assert(entry_views(entries@.update(p as int, entry)) =~= before.update(
                    p as int,
                    entry@,
                ));
            }
            entries.set(p, entry);
        } else {
            proof {
                lemma_insert(before, p as int, entry@);
                assert(entry_views(entries@.insert(p as int, entry)) =~= before.insert(
                    p as int,
                    entry@,
                ));
            }
            entries.insert(p, entry);
        }
        self.entries = entries;
    }

    /// The entries with an index of at least `start` and below `stop`, in
    /// ascending order of index.
    pub fn range(&self, start: u64, stop: u64) -> (found: Vec<Entry>)
        ensures
            is_range(self@, start, stop, entry_views(found@)),
    {
        proof {
            use_type_invariant(self);
        }
        let ghost s = entry_views(self.entries@);
        let lo = Self::lower_bound(&self.entries, start);
        let hi = Self::lower_bound(&self.entries, stop);
        proof {
            lemma_slice_is_range(s, start, stop, lo as int, hi as int);
        }
        let mut found: Vec<Entry> = Vec::new();
        assert(entry_views(found@) =~= Seq::empty());
        let mut i: usize = lo;
        while i < hi
            invariant
                lo <= i,
                lo < hi ==> i <= hi,
                hi <= self.entries.len(),
                s == entry_views(self.entries@),
                lo < hi ==> entry_views(found@) == s.subrange(lo as int, i as int),
                lo >= hi ==> entry_views(found@) == Seq::<EntryView>::empty(),
            decreases hi - i,
        {
            let entry = self.entries[i].clone();
            proof {
                assert(entry_views(found@.push(entry)) =~= entry_views(found@).push(entry@));
                assert(s.subrange(lo as int, i + 1) =~= s.subrange(lo as int, i as int).push(
                    s[i as int],
                ));
            }
            found.push(entry);
            i += 1;
        }
        found
    }

    /// The entry with the greatest index, if the store holds any.
    pub fn last(&self) -> (last: Option<&Entry>)
        ensures
            match last {
                Some(entry) => is_last_index(self@, entry.index) && self@[entry.index] == entry@,
                None => self@ == EntryMap::empty(),
            },
    {
        proof {
            use_type_invariant(self);
        }
        let ghost s = entry_views(self.entries@);
        let n = self.entries.len();
        if n == 0 {
            assert(self@ =~= EntryMap::empty());
            None
        } else {
            let entry = &self.entries[n - 1];
            proof {
                lemma_lookup(s, n - 1);
                assert forall|j: u64| self@.contains_key(j) implies j <= entry.index by {
                    let c = choose|c: int| 0 <= c < s.len() && (#[trigger] s[c]).index == j;
                    if c < n - 1 {
                        assert(s[c].index < s[n - 1].index);
                    }
                }
            }
            Some(entry)
        }
    }
}

} // verus!
