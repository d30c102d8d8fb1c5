//! The flat key-value store under the page storage, and an in-memory
//! implementation of it.

use vstd::prelude::*;
use crate::bytes::slices_equal;

verus! {

/// The map that results from `m` when `changes` are applied to it in order.
/// A later change of a key overrides an earlier one.
pub open spec fn apply_changes(m: Map<Seq<u8>, Seq<u8>>, changes: Seq<(Seq<u8>, Seq<u8>)>) -> Map<
    Seq<u8>,
    Seq<u8>,
>
    decreases changes.len(),
{
    if changes.len() == 0 {
        m
    } else {
        apply_changes(m, changes.drop_last()).insert(changes.last().0, changes.last().1)
    }
}

/// The keys and values of a batch of changes, as sequences of bytes.
pub open spec fn changes_view(changes: Seq<(&[u8], &[u8])>) -> Seq<(Seq<u8>, Seq<u8>)> {
    Seq::new(changes.len(), |i: int| (changes[i].0@, changes[i].1@))
}

/// A store of byte values under byte keys, written in batches.
pub trait KVStore {
    /// What the store holds. An implementation that gives no model of it
    /// leaves it unknown.
    open spec fn view(&self) -> Map<Seq<u8>, Seq<u8>> {
        arbitrary()
    }

    /// The value stored under `key`, if there is one.
    fn get(&self, key: &[u8]) -> (r: Option<Vec<u8>>)
        ensures
            match r {
                Some(v) => self@.contains_key(key@) && self@[key@] == v@,
                None => !self@.contains_key(key@),
            },
    ;

    /// Applies all `changes`, in order and as a whole. A store that cannot
    /// apply the batch must not return from the call.
    fn store(&mut self, changes: &[(&[u8], &[u8])])
        ensures
            final(self)@ == apply_changes(old(self)@, changes_view(changes@)),
    ;
}

/// Tells whether `changes` holds a change of `key`.
pub open spec fn changes_key(changes: Seq<(Seq<u8>, Seq<u8>)>, key: Seq<u8>) -> bool {
    exists|i: int| 0 <= i < changes.len() && (#[trigger] changes[i]).0 == key
}

/// Tells whether no two changes of `changes` have the same key.
pub open spec fn distinct_keys(changes: Seq<(Seq<u8>, Seq<u8>)>) -> bool {
    forall|i: int, j: int|
        0 <= i < j < changes.len() ==> (#[trigger] changes[i]).0 != (#[trigger] changes[j]).0
}

/// Tells whether no change after the change at `i` names the same key.
pub open spec fn last_of_key(changes: Seq<(Seq<u8>, Seq<u8>)>, i: int) -> bool {
    forall|j: int| i < j < changes.len() ==> (#[trigger] changes[j]).0 != changes[i].0
}

/// A key that no change names keeps what it had.
pub proof fn lemma_apply_changes_untouched(
    m: Map<Seq<u8>, Seq<u8>>,
    changes: Seq<(Seq<u8>, Seq<u8>)>,
    key: Seq<u8>,
)
    requires
        !changes_key(changes, key),
    ensures
        apply_changes(m, changes).contains_key(key) == m.contains_key(key),
        m.contains_key(key) ==> apply_changes(m, changes)[key] == m[key],
    decreases changes.len(),
{
    if changes.len() > 0 {
        let rest = changes.drop_last();
        assert(changes[changes.len() - 1].0 != key);
        assert forall|i: int| 0 <= i < rest.len() implies (#[trigger] rest[i]).0 != key by {
            assert(rest[i] == changes[i]);
        }
        lemma_apply_changes_untouched(m, rest, key);
    }
}

/// A key holds the value of the last change that names it.
pub proof fn lemma_apply_changes_last_wins(
    m: Map<Seq<u8>, Seq<u8>>,
    changes: Seq<(Seq<u8>, Seq<u8>)>,
    i: int,
)
    requires
        0 <= i < changes.len(),
        forall|j: int| i < j < changes.len() ==> (#[trigger] changes[j]).0 != changes[i].0,
    ensures
        apply_changes(m, changes).contains_key(changes[i].0),
        apply_changes(m, changes)[changes[i].0] == changes[i].1,
    decreases changes.len(),
{
    if i < changes.len() - 1 {
        let rest = changes.drop_last();
        assert(changes[changes.len() - 1].0 != changes[i].0);
        assert(rest[i] == changes[i]);
        assert forall|j: int| i < j < rest.len() implies (#[trigger] rest[j]).0 != rest[i].0 by {
            assert(rest[j] == changes[j]);
        }
        lemma_apply_changes_last_wins(m, rest, i);
    }
}

/// Every key of the result was in the map before or is named by a change.
pub proof fn lemma_apply_changes_dom(
    m: Map<Seq<u8>, Seq<u8>>,
    changes: Seq<(Seq<u8>, Seq<u8>)>,
    key: Seq<u8>,
)
    ensures
        apply_changes(m, changes).contains_key(key) <==> (m.contains_key(key) || changes_key(
            changes,
            key,
        )),
    decreases changes.len(),
{
    if changes.len() > 0 {
        let rest = changes.drop_last();
        lemma_apply_changes_dom(m, rest, key);
        if changes_key(rest, key) {
            let i = choose|i: int| 0 <= i < rest.len() && (#[trigger] rest[i]).0 == key;
            assert(changes[i] == rest[i]);
        }
        if changes_key(changes, key) {
            let i = choose|i: int| 0 <= i < changes.len() && (#[trigger] changes[i]).0 == key;
            if i < rest.len() {
                assert(rest[i] == changes[i]);
            }
        }
    }
}

/// Replacing the value of the last change of a key is the same as inserting
/// the new value under that key.
pub proof fn lemma_apply_changes_replace(
    m: Map<Seq<u8>, Seq<u8>>,
    changes: Seq<(Seq<u8>, Seq<u8>)>,
    i: int,
    value: Seq<u8>,
)
    requires
        0 <= i < changes.len(),
        forall|j: int| i < j < changes.len() ==> (#[trigger] changes[j]).0 != changes[i].0,
    ensures
        apply_changes(m, changes.update(i, (changes[i].0, value))) == apply_changes(
            m,
            changes,
        ).insert(changes[i].0, value),
    decreases changes.len(),
{
    let key = changes[i].0;
    let updated = changes.update(i, (key, value));
    let rest = changes.drop_last();
    if i == changes.len() - 1 {
        assert(updated.drop_last() =~= rest);
        assert(apply_changes(m, updated) =~= apply_changes(m, changes).insert(key, value));
    } else {
        let last = changes.last();
        assert(changes[changes.len() - 1].0 != changes[i].0);
        assert(rest[i] == changes[i]);
        assert forall|j: int| i < j < rest.len() implies (#[trigger] rest[j]).0 != rest[i].0 by {
            assert(rest[j] == changes[j]);
        }
        lemma_apply_changes_replace(m, rest, i, value);
        assert(updated.drop_last() =~= rest.update(i, (key, value)));
        assert(updated.last() == last);
        assert(apply_changes(m, updated) =~= apply_changes(m, changes).insert(key, value));
    }
}

/// A key-value store that lives in memory.
pub struct MemKVStore {
    entries: Vec<(Vec<u8>, Vec<u8>)>,
}

/// The keys and values of a list of entries, as sequences of bytes.
pub open spec fn entries_view(entries: Seq<(Vec<u8>, Vec<u8>)>) -> Seq<(Seq<u8>, Seq<u8>)> {
    Seq::new(entries.len(), |i: int| (entries[i].0@, entries[i].1@))
}

impl MemKVStore {
    /// The entries of the store as they lie in memory.
    spec fn entries(&self) -> Seq<(Seq<u8>, Seq<u8>)> {
        entries_view(self.entries@)
    }

    /// An empty store.
    pub fn new() -> (kv: MemKVStore)
        ensures
            kv@ == Map::<Seq<u8>, Seq<u8>>::empty(),
    {
        let kv = MemKVStore { entries: Vec::new() };
        assert(entries_view(kv.entries@) =~= Seq::empty());
        kv
    }

    /// Removes all entries.
    pub fn clear(&mut self)
        ensures
            final(self)@ == Map::<Seq<u8>, Seq<u8>>::empty(),
    {
        self.entries.clear();
        assert(entries_view(self.entries@) =~= Seq::empty());
    }

    /// The position of the last entry of `key`, if the store holds one.
    fn find(&self, key: &[u8]) -> (r: Option<usize>)
        ensures
            match r {
                Some(i) => {
                    &&& i < self.entries().len()
                    &&& self.entries()[i as int].0 == key@
                    &&& forall|j: int|
                        i < j < self.entries().len() ==> (#[trigger] self.entries()[j]).0 != key@
                },
                None => !changes_key(self.entries(), key@),
            },
    {
        let n: usize = self.entries.len();
        let mut i: usize = n;
        while i > 0
            invariant
                i <= n,
                n == self.entries@.len(),
                forall|j: int| i <= j < n ==> (#[trigger] self.entries()[j]).0 != key@,
            decreases i,
        {
            i -= 1;
            if slices_equal(self.entries[i].0.as_slice(), key) {
                return Some(i);
            }
        }
        None
    }

    /// Stores `value` under `key`, in place of what was there.
    fn put(&mut self, key: &[u8], value: &[u8])
        ensures
            final(self)@ == old(self)@.insert(key@, value@),
    {
        let ghost before = self.entries();
        let entry = (vstd::slice::slice_to_vec(key), vstd::slice::slice_to_vec(value));
        match self.find(key) {
            Some(i) => {
                proof {
                    lemma_apply_changes_replace(Map::empty(), before, i as int, value@);
                    assert(entries_view(self.entries@.update(i as int, entry)) =~= before.update(
                        i as int,
                        (key@, value@),
                    ));
                }
                self.entries[i] = entry;
            },
            None => {
                proof {
                    assert(entries_view(self.entries@.push(entry)) =~= before.push(
                        (key@, value@),
                    ));
                    assert(before.push((key@, value@)).drop_last() =~= before);
                }
                self.entries.push(entry);
            },
        }
    }

    /// The entries of the store: every key once, with the value that the
    /// store holds under it.
    pub fn iter(&self) -> (items: Vec<(Vec<u8>, Vec<u8>)>)
        ensures
            distinct_keys(entries_view(items@)),
            forall|i: int|
                0 <= i < items@.len() ==> self@.contains_key((#[trigger] items@[i]).0@)
                    && self@[items@[i].0@] == items@[i].1@,
            forall|key: Seq<u8>|
                self@.contains_key(key) ==> changes_key(entries_view(items@), key),
    {
        let n: usize = self.entries.len();
        let mut items: Vec<(Vec<u8>, Vec<u8>)> = Vec::new();
        // For each entry of `items`, the position in the store that it was
        // copied from.
        let ghost mut origin: Seq<int> = Seq::empty();
        let mut i: usize = 0;
        while i < n
            invariant
                i <= n,
                n == self.entries@.len(),
                origin.len() == items@.len(),
                forall|a: int|
                    0 <= a < origin.len() ==> 0 <= (#[trigger] origin[a]) < i && entries_view(
                        items@,
                    )[a] == self.entries()[origin[a]],
                forall|a: int, b: int|
                    0 <= a < b < origin.len() ==> (#[trigger] origin[a]) < (#[trigger] origin[b]),
                forall|a: int, j: int|
                    0 <= a < origin.len() && origin[a] < j < n ==> (#[trigger] self.entries()[j]).0
                        != (#[trigger] entries_view(items@)[a]).0,
                forall|j: int|
                    0 <= j < i && #[trigger] last_of_key(self.entries(), j) ==> exists|a: int|
                        0 <= a < origin.len() && #[trigger] origin[a] == j,
            decreases n - i,
        {
            let found = self.find(self.entries[i].0.as_slice());
            if found == Some(i) {
                let item = (
                    vstd::slice::slice_to_vec(self.entries[i].0.as_slice()),
                    vstd::slice::slice_to_vec(self.entries[i].1.as_slice()),
                );
                let ghost old_items = entries_view(items@);
                let ghost old_origin = origin;
                items.push(item);
                proof {
                    origin = origin.push(i as int);
                    assert(entries_view(items@) =~= old_items.push(self.entries()[i as int]));
                    assert forall|j: int|
                        0 <= j < i + 1 && #[trigger] last_of_key(self.entries(), j) implies exists|
                        a: int,
                    |
                        0 <= a < origin.len() && #[trigger] origin[a] == j by {
                        if j < i {
                            let a = choose|a: int|
                                0 <= a < old_origin.len() && #[trigger] old_origin[a] == j;
                            assert(origin[a] == j);
                        } else {
                            assert(origin[origin.len() - 1] == j);
                        }
                    }
                }
            } else {
                proof {
                    // the last entry of this key lies further on
                    let here = self.entries()[i as int];
                    match found {
                        Some(k) => {
                            assert(self.entries()[k as int].0 == here.0);
                            assert(k > i);
                        },
                        None => {
                            assert(changes_key(self.entries(), here.0));
                        },
                    }
                    assert(!last_of_key(self.entries(), i as int));
                }
            }
            i += 1;
        }
        proof {
            let view = entries_view(items@);
            assert forall|a: int, b: int| 0 <= a < b < view.len() implies (#[trigger] view[a]).0 != (
            #[trigger] view[b]).0 by {
                assert(origin[a] < origin[b]);
                assert(self.entries()[origin[b]].0 != view[a].0);
            }
            assert forall|a: int| 0 <= a < items@.len() implies self@.contains_key(
                (#[trigger] items@[a]).0@,
            ) && self@[items@[a].0@] == items@[a].1@ by {
                assert(view[a] == self.entries()[origin[a]]);
                assert forall|j: int| origin[a] < j < n implies (#[trigger] self.entries()[j]).0
                    != self.entries()[origin[a]].0 by {
                    assert(self.entries()[j].0 != view[a].0);
                }
                lemma_apply_changes_last_wins(Map::empty(), self.entries(), origin[a]);
            }
            assert forall|key: Seq<u8>| self@.contains_key(key) implies changes_key(
                view,
                key,
            ) by {
                lemma_apply_changes_dom(Map::empty(), self.entries(), key);
                let j = lemma_last_change(self.entries(), key);
                assert(last_of_key(self.entries(), j));
                let a = choose|a: int| 0 <= a < origin.len() && #[trigger] origin[a] == j;
                assert(view[a].0 == key);
            }
        }
        items
    }

    /// The keys of the store, each once.
    pub fn keys(&self) -> (keys: Vec<Vec<u8>>)
        ensures
            forall|i: int, j: int|
                0 <= i < j < keys@.len() ==> (#[trigger] keys@[i])@ != (#[trigger] keys@[j])@,
            forall|i: int| 0 <= i < keys@.len() ==> self@.contains_key((#[trigger] keys@[i])@),
            forall|key: Seq<u8>|
                self@.contains_key(key) ==> exists|i: int|
                    0 <= i < keys@.len() && (#[trigger] keys@[i])@ == key,
    {
        let items = self.iter();
        let n: usize = items.len();
        let mut keys: Vec<Vec<u8>> = Vec::with_capacity(n);
        let mut i: usize = 0;
        while i < n
            invariant
                i <= n,
                n == items@.len(),
                keys@.len() == i,
                forall|j: int| 0 <= j < i ==> (#[trigger] keys@[j])@ == items@[j].0@,
            decreases n - i,
        {
            keys.push(vstd::slice::slice_to_vec(items[i].0.as_slice()));
            i += 1;
        }
        proof {
            let view = entries_view(items@);
            assert forall|a: int, b: int| 0 <= a < b < keys@.len() implies (#[trigger] keys@[a])@
                != (#[trigger] keys@[b])@ by {
                assert(view[a].0 != view[b].0);
            }
            assert forall|a: int| 0 <= a < keys@.len() implies self@.contains_key(
                (#[trigger] keys@[a])@,
            ) by {
                assert(self@.contains_key(items@[a].0@));
            }
            assert forall|key: Seq<u8>| self@.contains_key(key) implies exists|a: int|
                0 <= a < keys@.len() && (#[trigger] keys@[a])@ == key by {
                assert(changes_key(view, key));
                let a = choose|a: int| 0 <= a < view.len() && (#[trigger] view[a]).0 == key;
                assert(keys@[a]@ == key);
            }
        }
        keys
    }
}

/// The position of the last change of a key that some change names.
pub proof fn lemma_last_change(changes: Seq<(Seq<u8>, Seq<u8>)>, key: Seq<u8>) -> (i: int)
    requires
        changes_key(changes, key),
    ensures
        0 <= i < changes.len(),
        changes[i].0 == key,
        forall|j: int| i < j < changes.len() ==> (#[trigger] changes[j]).0 != key,
    decreases changes.len(),
{
    if changes.last().0 == key {
        changes.len() - 1
    } else {
        let rest = changes.drop_last();
        let w = choose|w: int| 0 <= w < changes.len() && (#[trigger] changes[w]).0 == key;
        assert(rest[w] == changes[w]);
        let i = lemma_last_change(rest, key);
        assert(rest[i] == changes[i]);
        assert forall|j: int| i < j < changes.len() implies (#[trigger] changes[j]).0 != key by {
            if j < rest.len() {
                assert(rest[j] == changes[j]);
            }
        }
        i
    }
}

impl KVStore for MemKVStore {
    closed spec fn view(&self) -> Map<Seq<u8>, Seq<u8>> {
        apply_changes(Map::empty(), entries_view(self.entries@))
    }

    fn get(&self, key: &[u8]) -> (r: Option<Vec<u8>>) {
        match self.find(key) {
            Some(i) => {
                proof {
                    lemma_apply_changes_last_wins(Map::empty(), self.entries(), i as int);
                }
                Some(vstd::slice::slice_to_vec(self.entries[i].1.as_slice()))
            },
            None => {
                proof {
                    lemma_apply_changes_untouched(Map::empty(), self.entries(), key@);
                }
                None
            },
        }
    }

    fn store(&mut self, changes: &[(&[u8], &[u8])]) {
        let n: usize = changes.len();
        let mut i: usize = 0;
        assert(changes_view(changes@).take(0) =~= Seq::empty());
        while i < n
            invariant
                i <= n,
                n == changes@.len(),
                self@ == apply_changes(old(self)@, changes_view(changes@).take(i as int)),
            decreases n - i,
        {
            let change = changes[i];
            self.put(change.0, change.1);
            proof {
                let done = changes_view(changes@).take(i + 1);
                assert(done.drop_last() =~= changes_view(changes@).take(i as int));
                assert(done.last() == (change.0@, change.1@));
            }
            i += 1;
        }
        assert(changes_view(changes@).take(n as int) =~= changes_view(changes@));
    }
}

} // verus!
