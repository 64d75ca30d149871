//! A small table from keys to values that keeps the order in which its keys
//! first came.
use vstd::prelude::*;

verus! {

/// A key that can be compared for equality at run time.
pub trait TableKey: Copy {
    fn same_key(&self, other: &Self) -> (r: bool)
        ensures
            r == (*self == *other),
    ;
}

impl TableKey for u64 {
    fn same_key(&self, other: &Self) -> (r: bool) {
        *self == *other
    }
}

/// Keys with one value each, in the order in which they were first inserted.
#[derive(Debug)]
pub struct Table<K, V> {
    pub entries: Vec<(K, V)>,
}

pub open spec fn distinct_keys<K, V>(entries: Seq<(K, V)>) -> bool {
    forall|i: int, j: int|
        0 <= i < j < entries.len() ==> (#[trigger] entries[i]).0 != (#[trigger] entries[j]).0
}

/// The map that the entries spell.
pub open spec fn entry_map<K, V>(entries: Seq<(K, V)>) -> Map<K, V> {
    Map::new(
        |k: K| exists|i: int| 0 <= i < entries.len() && (#[trigger] entries[i]).0 == k,
        |k: K|
            entries[choose|i: int|
                0 <= i < entries.len() && (#[trigger] entries[i]).0 == k].1,
    )
}

impl<K, V> View for Table<K, V> {
    type V = Map<K, V>;

    open spec fn view(&self) -> Map<K, V> {
        entry_map(self.entries@)
    }
}

/// With distinct keys, the map gives for each entry's key that entry's value.
pub proof fn lemma_entry<K, V>(entries: Seq<(K, V)>, i: int)
    requires
        distinct_keys(entries),
        0 <= i < entries.len(),
    ensures
        entry_map(entries).dom().contains(entries[i].0),
        entry_map(entries)[entries[i].0] == entries[i].1,
{
    let k = entries[i].0;
    let j = choose|j: int| 0 <= j < entries.len() && (#[trigger] entries[j]).0 == k;
    assert(entries[i].0 == k);
    if i < j {
        assert(entries[i].0 != entries[j].0);
    } else if j < i {
        assert(entries[j].0 != entries[i].0);
    }
}

/// Replacing one value keeps the keys distinct and changes the map there alone.
pub proof fn lemma_entry_update<K, V>(entries: Seq<(K, V)>, i: int, value: V)
    requires
        distinct_keys(entries),
        0 <= i < entries.len(),
    ensures
        distinct_keys(entries.update(i, (entries[i].0, value))),
        entry_map(entries.update(i, (entries[i].0, value))) == entry_map(entries).insert(
            entries[i].0,
            value,
        ),
{
    let next = entries.update(i, (entries[i].0, value));
    let k = entries[i].0;
    let left = entry_map(next);
    let right = entry_map(entries).insert(k, value);
    assert forall|x: K| left.dom().contains(x) <==> right.dom().contains(x) by {
        if left.dom().contains(x) {
            let j = choose|j: int| 0 <= j < next.len() && (#[trigger] next[j]).0 == x;
            assert(entries[j].0 == x);
        }
        if right.dom().contains(x) {
            if x == k {
                assert(next[i].0 == x);
            } else {
                let j = choose|j: int| 0 <= j < entries.len() && (#[trigger] entries[j]).0 == x;
                assert(next[j].0 == x);
            }
        }
    }
    assert forall|x: K| left.dom().contains(x) implies left[x] == right[x] by {
        let j = choose|j: int| 0 <= j < next.len() && (#[trigger] next[j]).0 == x;
        assert(next[j].0 == x);
        lemma_entry(next, j);
        lemma_entry(entries, j);
    }
    assert(left =~= right);
}

/// A new key at the end extends the map.
pub proof fn lemma_entry_push<K, V>(entries: Seq<(K, V)>, key: K, value: V)
    requires
        distinct_keys(entries),
        !entry_map(entries).dom().contains(key),
    ensures
        distinct_keys(entries.push((key, value))),
        entry_map(entries.push((key, value))) == entry_map(entries).insert(key, value),
{
    let next = entries.push((key, value));
    assert forall|i: int, j: int| 0 <= i < j < next.len() implies (#[trigger] next[i]).0 != (
    #[trigger] next[j]).0 by {
        if j == entries.len() {
            assert(entries[i] == next[i]);
        }
    }
    let left = entry_map(next);
    let right = entry_map(entries).insert(key, value);
    assert forall|x: K| left.dom().contains(x) <==> right.dom().contains(x) by {
        if left.dom().contains(x) {
            let j = choose|j: int| 0 <= j < next.len() && (#[trigger] next[j]).0 == x;
            if j < entries.len() {
                assert(entries[j].0 == x);
            }
        }
        if right.dom().contains(x) {
            if x == key {
                assert(next[entries.len() as int].0 == x);
            } else {
                let j = choose|j: int| 0 <= j < entries.len() && (#[trigger] entries[j]).0 == x;
                assert(next[j].0 == x);
            }
        }
    }
    assert forall|x: K| left.dom().contains(x) implies left[x] == right[x] by {
        let j = choose|j: int| 0 <= j < next.len() && (#[trigger] next[j]).0 == x;
        assert(next[j].0 == x);
        lemma_entry(next, j);
        if j < entries.len() {
            lemma_entry(entries, j);
        }
    }
    assert(left =~= right);
}

/// Dropping an entry removes its key from the map.
pub proof fn lemma_entry_remove<K, V>(entries: Seq<(K, V)>, i: int)
    requires
        distinct_keys(entries),
        0 <= i < entries.len(),
    ensures
        distinct_keys(entries.remove(i)),
        entry_map(entries.remove(i)) == entry_map(entries).remove(entries[i].0),
{
    let next = entries.remove(i);
    let k = entries[i].0;
    assert forall|a: int, b: int| 0 <= a < b < next.len() implies (#[trigger] next[a]).0 != (
    #[trigger] next[b]).0 by {
        let a2 = if a < i { a } else { a + 1 };
        let b2 = if b < i { b } else { b + 1 };
        assert(next[a] == entries[a2]);
        assert(next[b] == entries[b2]);
    }
    let left = entry_map(next);
    let right = entry_map(entries).remove(k);
    assert forall|x: K| left.dom().contains(x) <==> right.dom().contains(x) by {
        if left.dom().contains(x) {
            let j = choose|j: int| 0 <= j < next.len() && (#[trigger] next[j]).0 == x;
            let j2 = if j < i { j } else { j + 1 };
            assert(entries[j2].0 == x);
            if j2 < i {
                assert(entries[j2].0 != entries[i].0);
            } else {
                assert(entries[i].0 != entries[j2].0);
            }
        }
        if right.dom().contains(x) {
            let j = choose|j: int| 0 <= j < entries.len() && (#[trigger] entries[j]).0 == x;
            let j2 = if j < i { j } else { j - 1 };
            assert(next[j2].0 == x);
        }
    }
    assert forall|x: K| left.dom().contains(x) implies left[x] == right[x] by {
        let j = choose|j: int| 0 <= j < next.len() && (#[trigger] next[j]).0 == x;
        assert(next[j].0 == x);
        let j2 = if j < i { j } else { j + 1 };
        assert(entries[j2] == next[j]);
        lemma_entry(next, j);
        lemma_entry(entries, j2);
    }
    assert(left =~= right);
}

impl<K, V> Table<K, V> {
    /// No key occurs twice.
    pub open spec fn wf(self) -> bool {
        distinct_keys(self.entries@)
    }

    pub fn new() -> (r: Self)
        ensures
            r.wf(),
            r.entries@.len() == 0,
            r@ == Map::<K, V>::empty(),
    {
        let r = Table { entries: Vec::new() };
        assert(r@ =~= Map::<K, V>::empty());
        r
    }

    pub fn len(&self) -> (r: usize)
        ensures
            r == self.entries@.len(),
    {
        self.entries.len()
    }

    pub fn clear(&mut self)
        ensures
            final(self).wf(),
            final(self).entries@.len() == 0,
            final(self)@ == Map::<K, V>::empty(),
    {
        self.entries = Vec::new();
        assert(self@ =~= Map::<K, V>::empty());
    }
}

impl<K: TableKey, V> Table<K, V> {
    /// The position of `key`, where it has one.
    pub fn find(&self, key: K) -> (r: Option<usize>)
        requires
            self.wf(),
        ensures
            r is Some <==> self@.dom().contains(key),
            r is Some ==> r->0 < self.entries@.len() && self.entries@[r->0 as int].0 == key
                && self@[key] == self.entries@[r->0 as int].1,
    {
        let mut i: usize = 0;
        while i < self.entries.len()
            invariant
                self.wf(),
                i <= self.entries@.len(),
                forall|k: int| 0 <= k < i ==> (#[trigger] self.entries@[k]).0 != key,
            decreases self.entries@.len() - i,
        {
            if self.entries[i].0.same_key(&key) {
                proof {
                    lemma_entry(self.entries@, i as int);
                }
                return Some(i);
            }
            i = i + 1;
        }
        None
    }

    pub fn contains(&self, key: K) -> (r: bool)
        requires
            self.wf(),
        ensures
            r == self@.dom().contains(key),
    {
        self.find(key).is_some()
    }

    pub fn get(&self, key: K) -> (r: Option<&V>)
        requires
            self.wf(),
        ensures
            r is Some <==> self@.dom().contains(key),
            r is Some ==> *r->0 == self@[key],
    {
        match self.find(key) {
            Some(i) => Some(&self.entries[i].1),
            None => None,
        }
    }

    /// Sets the value of `key`; a new key goes to the end.
    pub fn insert(&mut self, key: K, value: V)
        requires
            old(self).wf(),
        ensures
            final(self).wf(),
            final(self)@ == old(self)@.insert(key, value),
            final(self).entries@.len() == old(self).entries@.len() + (if old(
                self,
            )@.dom().contains(key) {
                0int
            } else {
                1int
            }),
    {
        match self.find(key) {
            Some(i) => {
                proof {
                    lemma_entry_update(self.entries@, i as int, value);
                }
                self.entries.set(i, (key, value));
            },
            None => {
                proof {
                    lemma_entry_push(self.entries@, key, value);
                }
                self.entries.push((key, value));
            },
        }
    }

    /// Removes `key` and returns its value, where it had one.
    pub fn remove(&mut self, key: K) -> (r: Option<V>)
        requires
            old(self).wf(),
        ensures
            final(self).wf(),
            final(self)@ == old(self)@.remove(key),
            r is Some <==> old(self)@.dom().contains(key),
            r is Some ==> r->0 == old(self)@[key],
    {
        match self.find(key) {
            Some(i) => {
                proof {
                    lemma_entry_remove(self.entries@, i as int);
                }
                let (_, value) = self.entries.remove(i);
                Some(value)
            },
            None => {
                assert(self@.remove(key) =~= self@);
                None
            },
        }
    }
}

} // verus!
