//! An in-memory key/value store: byte keys, typed records.

use crate::address::Address;
use vstd::prelude::*;

verus! {

/// A record as it is kept in the store.
#[derive(Debug)]
pub enum Value {
    /// An amount or a counter.
    Num(u128),
    /// An account address.
    Addr(Address),
    /// A piece of text.
    Text(String),
    /// A byte string.
    Bytes(Vec<u8>),
    /// A list of token ids.
    Ids(Vec<u128>),
}

/// What a [`Value`] holds, as a mathematical value.
pub enum ValueView {
    Num(u128),
    Addr(Address),
    Text(Seq<char>),
    Bytes(Seq<u8>),
    Ids(Seq<u128>),
}

impl View for Value {
    type V = ValueView;

    open spec fn view(&self) -> ValueView {
        match self {
            Value::Num(n) => ValueView::Num(*n),
            Value::Addr(a) => ValueView::Addr(*a),
            Value::Text(s) => ValueView::Text(s@),
            Value::Bytes(b) => ValueView::Bytes(b@),
            Value::Ids(ids) => ValueView::Ids(ids@),
        }
    }
}

/// Copies a byte string.
pub fn copy_bytes(src: &[u8]) -> (out: Vec<u8>)
    ensures
        out@ == src@,
{
    let mut out: Vec<u8> = Vec::new();
    let mut i: usize = 0;
    while i < src.len()
        invariant
            i <= src.len(),
            out@ == src@.subrange(0, i as int),
        decreases src.len() - i,
    {
        out.push(src[i]);
        i += 1;
    }
    assert(src@.subrange(0, src.len() as int) == src@);
    out
}

/// Copies a list of token ids.
pub fn copy_ids(src: &[u128]) -> (out: Vec<u128>)
    ensures
        out@ == src@,
{
    let mut out: Vec<u128> = Vec::new();
    let mut i: usize = 0;
    while i < src.len()
        invariant
            i <= src.len(),
            out@ == src@.subrange(0, i as int),
        decreases src.len() - i,
    {
        out.push(src[i]);
        i += 1;
    }
    assert(src@.subrange(0, src.len() as int) == src@);
    out
}

/// Whether two byte strings are the same.
pub fn bytes_eq(a: &[u8], b: &[u8]) -> (same: bool)
    ensures
        same == (a@ == b@),
{
    if a.len() != b.len() {
        return false;
    }
    let mut i: usize = 0;
    while i < a.len()
        invariant
            i <= a.len(),
            a.len() == b.len(),
            forall|j: int| 0 <= j < i ==> a@[j] == b@[j],
        decreases a.len() - i,
    {
        if a[i] != b[i] {
            return false;
        }
        i += 1;
    }
    assert(a@ =~= b@);
    true
}

impl Value {
    /// A copy of the record.
    pub fn duplicate(&self) -> (copy: Value)
        ensures
            copy@ == self@,
    {
        match self {
            Value::Num(n) => Value::Num(*n),
            Value::Addr(a) => Value::Addr(*a),
            Value::Text(s) => Value::Text(s.clone()),
            Value::Bytes(b) => Value::Bytes(copy_bytes(b.as_slice())),
            Value::Ids(ids) => Value::Ids(copy_ids(ids.as_slice())),
        }
    }
}

/// One key with its record.
struct Entry {
    key: Vec<u8>,
    value: Value,
}

/// Whether some entry of `entries` has the key `k`.
spec fn has_key(entries: Seq<Entry>, k: Seq<u8>) -> bool {
    exists|i: int| 0 <= i < entries.len() && (#[trigger] entries[i]).key@ == k
}

/// The position of an entry with the key `k`.
spec fn slot(entries: Seq<Entry>, k: Seq<u8>) -> int {
    choose|i: int| 0 <= i < entries.len() && (#[trigger] entries[i]).key@ == k
}

/// No two entries share a key.
spec fn distinct_keys(entries: Seq<Entry>) -> bool {
    forall|i: int, j: int|
        0 <= i < j < entries.len() ==> (#[trigger] entries[i]).key@ != (#[trigger] entries[j]).key@
}

/// The map that a list of entries stands for.
spec fn entries_map(entries: Seq<Entry>) -> Map<Seq<u8>, ValueView> {
    Map::new(|k: Seq<u8>| has_key(entries, k), |k: Seq<u8>| entries[slot(entries, k)].value@)
}

/// With distinct keys, the entry at position `i` is the one its key maps to.
proof fn lemma_entry_in_map(entries: Seq<Entry>, i: int)
    requires
        distinct_keys(entries),
        0 <= i < entries.len(),
    ensures
        entries_map(entries).contains_key(entries[i].key@),
        entries_map(entries)[entries[i].key@] == entries[i].value@,
        slot(entries, entries[i].key@) == i,
{
    let k = entries[i].key@;
    assert(has_key(entries, k));
    let j = slot(entries, k);
    assert(0 <= j < entries.len() && entries[j].key@ == k);
    if j < i {
        assert(entries[j].key@ != entries[i].key@);
    } else if i < j {
        assert(entries[i].key@ != entries[j].key@);
    }
}

/// A key/value store held in memory.
///
/// It stands for a finite map from byte keys to records: that map is the
/// store's view.
pub struct Store {
    entries: Vec<Entry>,
}

impl View for Store {
    type V = Map<Seq<u8>, ValueView>;

    closed spec fn view(&self) -> Map<Seq<u8>, ValueView> {
        entries_map(self.entries@)
    }
}

impl Store {
    #[verifier::type_invariant]
    spec fn well_formed(&self) -> bool {
        distinct_keys(self.entries@)
    }

    /// The empty store.
    pub fn new() -> (store: Store)
        ensures
            store@ == Map::<Seq<u8>, ValueView>::empty(),
    {
        let store = Store { entries: Vec::new() };
        assert(store@ =~= Map::<Seq<u8>, ValueView>::empty());
        store
    }

    /// The position of `key` among the entries, if it is there.
    fn find(&self, key: &[u8]) -> (at: Option<usize>)
        ensures
            match at {
                Some(i) => i < self.entries.len() && self.entries[i as int].key@ == key@,
                None => !has_key(self.entries@, key@),
            },
    {
        let mut i: usize = 0;
        while i < self.entries.len()
            invariant
                i <= self.entries.len(),
                forall|j: int| 0 <= j < i ==> (#[trigger] self.entries[j]).key@ != key@,
            decreases self.entries.len() - i,
        {
            if bytes_eq(self.entries[i].key.as_slice(), key) {
                return Some(i);
            }
            i += 1;
        }
        None
    }

    /// Whether a record is stored under `key`.
    pub fn contains(&self, key: &[u8]) -> (found: bool)
        ensures
            found == self@.contains_key(key@),
    {
        match self.find(key) {
            Some(i) => {
                assert(has_key(self.entries@, key@));
                true
            },
            None => false,
        }
    }

    /// The record stored under `key`, if there is one.
    pub fn get(&self, key: &[u8]) -> (found: Option<&Value>)
        ensures
            match found {
                Some(value) => self@.contains_key(key@) && self@[key@] == value@,
                None => !self@.contains_key(key@),
            },
    {
        match self.find(key) {
            Some(i) => {
                proof {
                    use_type_invariant(self);
                    lemma_entry_in_map(self.entries@, i as int);
                }
                Some(&self.entries[i].value)
            },
            None => None,
        }
    }

    /// Stores `value` under `key`, in place of what was there.
    pub fn put(&mut self, key: Vec<u8>, value: Value)
        ensures
            final(self)@ == old(self)@.insert(key@, value@),
    {
        proof {
            use_type_invariant(&*self);
        }
        let ghost before = self.entries@;
        let ghost k = key@;
        let ghost v = value@;
        let at = self.find(key.as_slice());
        let mut entries: Vec<Entry> = Vec::new();
        core::mem::swap(&mut self.entries, &mut entries);
        match at {
            Some(i) => {
                entries.set(i, Entry { key, value });
                proof {
                    let after = entries@;
                    assert(distinct_keys(after)) by {
                        assert forall|a: int, b: int| 0 <= a < b < after.len() implies (
                        #[trigger] after[a]).key@ != (#[trigger] after[b]).key@ by {
                            assert(after[a].key@ == before[a].key@);
                            assert(after[b].key@ == before[b].key@);
                        }
                    }
                    assert forall|q: Seq<u8>| has_key(after, q) == has_key(before, q) by {
                        if has_key(after, q) {
                            let j = slot(after, q);
                            assert(before[j].key@ == q);
                        }
                        if has_key(before, q) {
                            let j = slot(before, q);
                            assert(after[j].key@ == q);
                        }
                    }
                    assert forall|q: Seq<u8>| has_key(after, q) implies entries_map(after)[q]
                        == entries_map(before).insert(k, v)[q] by {
                        let j = slot(after, q);
                        lemma_entry_in_map(after, j);
                        if q != k {
                            assert(before[j].key@ == q);
                            lemma_entry_in_map(before, j);
                        } else {
                            lemma_entry_in_map(after, i as int);
                        }
                    }
                    assert(has_key(before, k));
                    assert(entries_map(after) =~= entries_map(before).insert(k, v));
                }
            },
            None => {
                entries.push(Entry { key, value });
                proof {
                    let after = entries@;
                    let n = before.len() as int;
                    assert(distinct_keys(after)) by {
                        assert forall|a: int, b: int| 0 <= a < b < after.len() implies (
                        #[trigger] after[a]).key@ != (#[trigger] after[b]).key@ by {
                            assert(after[a] == before[a]);
                            if b < n {
                                assert(after[b] == before[b]);
                            }
                        }
                    }
                    assert forall|q: Seq<u8>| has_key(after, q) == (has_key(before, q) || q
                        == k) by {
                        if has_key(after, q) {
                            let j = slot(after, q);
                            if j < n {
                                assert(before[j].key@ == q);
                            }
                        }
                        if has_key(before, q) {
                            let j = slot(before, q);
                            assert(after[j].key@ == q);
                        }
                        if q == k {
                            assert(after[n].key@ == q);
                        }
                    }
                    assert forall|q: Seq<u8>| has_key(after, q) implies entries_map(after)[q]
                        == entries_map(before).insert(k, v)[q] by {
                        let j = slot(after, q);
                        lemma_entry_in_map(after, j);
                        if j < n {
                            assert(before[j] == after[j]);
                            lemma_entry_in_map(before, j);
                        }
                    }
                    assert(entries_map(after) =~= entries_map(before).insert(k, v));
                }
            },
        }
        core::mem::swap(&mut self.entries, &mut entries);
    }

    /// Removes the record stored under `key`, if there is one.
    pub fn delete(&mut self, key: &[u8])
        ensures
            final(self)@ == old(self)@.remove(key@),
    {
        proof {
            use_type_invariant(&*self);
        }
        let ghost before = self.entries@;
        let ghost k = key@;
        let at = self.find(key);
        let mut entries: Vec<Entry> = Vec::new();
        core::mem::swap(&mut self.entries, &mut entries);
        match at {
            Some(i) => {
                entries.remove(i);
                proof {
                    let after = entries@;
                    assert forall|a: int| 0 <= a < after.len() implies #[trigger] after[a] == (
                    if a < i {
                        before[a]
                    } else {
                        before[a + 1]
                    }) by {}
                    assert(distinct_keys(after)) by {
                        assert forall|a: int, b: int| 0 <= a < b < after.len() implies (
                        #[trigger] after[a]).key@ != (#[trigger] after[b]).key@ by {
                            let a0 = if a < i { a } else { a + 1 };
                            let b0 = if b < i { b } else { b + 1 };
                            assert(after[a] == before[a0]);
                            assert(after[b] == before[b0]);
                            assert(before[a0].key@ != before[b0].key@);
                        }
                    }
                    assert forall|q: Seq<u8>| has_key(after, q) == (has_key(before, q) && q
                        != k) by {
                        if has_key(after, q) {
                            let j = slot(after, q);
                            let j0 = if j < i { j } else { j + 1 };
                            assert(after[j] == before[j0]);
                            assert(before[j0].key@ == q);
                            if j0 < i as int {
                                assert(before[j0].key@ != before[i as int].key@);
                            } else {
                                assert(before[i as int].key@ != before[j0].key@);
                            }
                        }
                        if has_key(before, q) && q != k {
                            let j0 = slot(before, q);
                            let j = if j0 < i { j0 } else { j0 - 1 };
                            assert(after[j] == before[j0]);
                            assert(after[j].key@ == q);
                        }
                    }
                    assert forall|q: Seq<u8>| has_key(after, q) implies entries_map(after)[q]
                        == entries_map(before).remove(k)[q] by {
                        let j = slot(after, q);
                        lemma_entry_in_map(after, j);
                        let j0 = if j < i { j } else { j + 1 };
                        assert(after[j] == before[j0]);
                        lemma_entry_in_map(before, j0);
                    }
                    assert(entries_map(after) =~= entries_map(before).remove(k));
                }
            },
            None => {
                assert(entries_map(before) =~= entries_map(before).remove(k));
            },
        }
        core::mem::swap(&mut self.entries, &mut entries);
    }

    /// A copy of the store.
    pub fn snapshot(&self) -> (copy: Store)
        ensures
            copy@ == self@,
    {
        proof {
            use_type_invariant(self);
        }
        let mut entries: Vec<Entry> = Vec::new();
        let mut i: usize = 0;
        while i < self.entries.len()
            invariant
                i <= self.entries.len(),
                entries.len() == i,
                forall|j: int|
                    0 <= j < i ==> (#[trigger] entries[j]).key@ == self.entries[j].key@
                        && entries[j].value@ == self.entries[j].value@,
            decreases self.entries.len() - i,
        {
            let entry = &self.entries[i];
            entries.push(
                Entry { key: copy_bytes(entry.key.as_slice()), value: entry.value.duplicate() },
            );
            i += 1;
        }
        proof {
            let mine = self.entries@;
            let theirs = entries@;
            assert(distinct_keys(theirs)) by {
                assert forall|a: int, b: int| 0 <= a < b < theirs.len() implies (
                #[trigger] theirs[a]).key@ != (#[trigger] theirs[b]).key@ by {
                    assert(mine[a].key@ != mine[b].key@);
                }
            }
            assert forall|q: Seq<u8>| has_key(theirs, q) == has_key(mine, q) by {
                if has_key(theirs, q) {
                    let j = slot(theirs, q);
                    assert(mine[j].key@ == q);
                }
                if has_key(mine, q) {
                    let j = slot(mine, q);
                    assert(theirs[j].key@ == q);
                }
            }
            assert forall|q: Seq<u8>| has_key(theirs, q) implies entries_map(theirs)[q]
                == entries_map(mine)[q] by {
                let j = slot(theirs, q);
                lemma_entry_in_map(theirs, j);
                assert(mine[j].key@ == q);
                lemma_entry_in_map(mine, j);
            }
            assert(entries_map(theirs) =~= entries_map(mine));
        }
        Store { entries }
    }
}

} // verus!
