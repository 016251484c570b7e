//! A small association map kept in insertion order.
//!
//! Keys are compared by their view; a later insertion of a key replaces the
//! value that an earlier one stored.

use vstd::prelude::*;

verus! {

/// A key that can be compared for equality of its view.
pub trait DictKey: View + Sized {
    fn same_key(&self, other: &Self) -> (r: bool)
        ensures
            r == (self@ == other@),
    ;
}

impl DictKey for String {
    fn same_key(&self, other: &Self) -> (r: bool) {
        *self == *other
    }
}

impl DictKey for Vec<u8> {
    fn same_key(&self, other: &Self) -> (r: bool) {
        if self.len() != other.len() {
            return false;
        }
        let mut i: usize = 0;
        while i < self.len()
            invariant
                self@.len() == other@.len(),
                i <= self@.len(),
                forall|j: int| 0 <= j < i ==> self@[j] == other@[j],
            decreases self@.len() - i,
        {
            if self[i] != other[i] {
                return false;
            }
            i = i + 1;
        }
        assert(self@ =~= other@);
        true
    }
}

/// The map that a sequence of entries denotes: each entry is inserted in
/// turn, so the last entry of a key decides its value.
pub open spec fn entries_map<K: View, V: View>(e: Seq<(K, V)>) -> Map<K::V, V::V>
    decreases e.len(),
{
    if e.len() == 0 {
        Map::empty()
    } else {
        entries_map(e.drop_last()).insert(e.last().0@, e.last().1@)
    }
}

/// Entries at `i` and later do not hold `k`, so they do not decide it.
proof fn lemma_entries_skip<K: View, V: View>(e: Seq<(K, V)>, i: int, k: K::V)
    requires
        0 <= i <= e.len(),
        forall|j: int| i <= j < e.len() ==> e[j].0@ != k,
    ensures
        entries_map(e).contains_key(k) == entries_map(e.take(i)).contains_key(k),
        entries_map(e).contains_key(k) ==> entries_map(e)[k] == entries_map(e.take(i))[k],
    decreases e.len() - i,
{
    if i < e.len() {
        lemma_entries_skip(e, i + 1, k);
        assert(e.take(i + 1).drop_last() =~= e.take(i));
    } else {
        assert(e.take(i) =~= e);
    }
}

/// Replacing the last entry of a key replaces its value in the map.
proof fn lemma_entries_replace<K: View, V: View>(e: Seq<(K, V)>, i: int, kv: (K, V))
    requires
        0 <= i < e.len(),
        e[i].0@ == kv.0@,
        forall|j: int| i < j < e.len() ==> e[j].0@ != kv.0@,
    ensures
        entries_map(e.update(i, kv)) =~= entries_map(e).insert(kv.0@, kv.1@),
    decreases e.len(),
{
    let u = e.update(i, kv);
    if i == e.len() - 1 {
        assert(u.drop_last() =~= e.drop_last());
    } else {
        assert(u.drop_last() =~= e.drop_last().update(i, kv));
        lemma_entries_replace(e.drop_last(), i, kv);
    }
}

/// An association map from keys to values.
#[derive(Debug, Clone)]
pub struct Dictionary<K, V> {
    entries: Vec<(K, V)>,
}

impl<K: View, V: View> View for Dictionary<K, V> {
    type V = Map<K::V, V::V>;

    closed spec fn view(&self) -> Map<K::V, V::V> {
        entries_map(self.entries@)
    }
}

impl<K: DictKey, V: View> Dictionary<K, V> {
    /// The entries, in the order in which their keys first arrived.
    pub closed spec fn entries(&self) -> Seq<(K, V)> {
        self.entries@
    }

    pub fn new() -> (r: Self)
        ensures
            r@ == Map::<K::V, V::V>::empty(),
            r.entries().len() == 0,
    {
        Dictionary { entries: Vec::new() }
    }

    pub fn len(&self) -> (r: usize)
        ensures
            r == self.entries().len(),
    {
        self.entries.len()
    }

    /// The key of the entry at position `i`.
    pub fn key_at(&self, i: usize) -> (r: &K)
        requires
            i < self.entries().len(),
        ensures
            *r == self.entries()[i as int].0,
    {
        &self.entries[i].0
    }

    /// The keys of the entries denote exactly the keys of the map.
    pub proof fn lemma_keys(&self)
        ensures
            forall|k: K::V|
                self@.contains_key(k) <==> exists|i: int|
                    0 <= i < self.entries().len() && #[trigger] self.entries()[i].0@ == k,
    {
        assert forall|k: K::V|
            self@.contains_key(k) <==> exists|i: int|
                0 <= i < self.entries().len() && #[trigger] self.entries()[i].0@ == k by {
            let e = self.entries@;
            if forall|i: int| 0 <= i < e.len() ==> e[i].0@ != k {
                lemma_entries_skip(e, 0, k);
                assert(e.take(0) =~= Seq::<(K, V)>::empty());
                assert(!exists|i: int|
                    0 <= i < self.entries().len() && #[trigger] self.entries()[i].0@ == k);
            } else {
                let i = choose|i: int| 0 <= i < e.len() && e[i].0@ == k;
                lemma_last_index_in_map(e, i, k);
                assert(self.entries()[i].0@ == k);
            }
        }
    }

    /// The position of the last entry whose key is `key`.
    fn find(&self, key: &K) -> (r: Option<usize>)
        ensures
            r is None ==> !self@.contains_key(key@),
            r matches Some(i) ==> {
                &&& i < self.entries().len()
                &&& self.entries()[i as int].0@ == key@
                &&& forall|j: int| i < j < self.entries().len() ==> self.entries()[j].0@ != key@
                &&& self@.contains_key(key@)
                &&& self@[key@] == self.entries()[i as int].1@
            },
    {
        let mut i: usize = self.entries.len();
        while i > 0
            invariant
                i <= self.entries@.len(),
                forall|j: int| i <= j < self.entries@.len() ==> self.entries@[j].0@ != key@,
            decreases i,
        {
            if self.entries[i - 1].0.same_key(key) {
                proof {
                    lemma_entries_skip(self.entries@, i as int, key@);
                    let t = self.entries@.take(i as int);
                    assert(t.drop_last() =~= self.entries@.take(i - 1));
                }
                return Some(i - 1);
            }
            i = i - 1;
        }
        proof {
            lemma_entries_skip(self.entries@, 0, key@);
            assert(self.entries@.take(0) =~= Seq::<(K, V)>::empty());
        }
        None
    }

    /// The value stored for `key`, if any.
    pub fn get(&self, key: &K) -> (r: Option<&V>)
        ensures
            r is None <==> !self@.contains_key(key@),
            r matches Some(v) ==> self@[key@] == v@,
    {
        match self.find(key) {
            Some(i) => Some(&self.entries[i].1),
            None => None,
        }
    }

    /// Stores `value` for `key`, and hands back the value that it replaces.
    pub fn insert(&mut self, key: K, value: V) -> (r: Option<V>)
        ensures
            final(self)@ == old(self)@.insert(key@, value@),
            r is None <==> !old(self)@.contains_key(key@),
            r matches Some(v) ==> old(self)@[key@] == v@,
            old(self)@.contains_key(key@) ==> final(self).entries().len() == old(
                self,
            ).entries().len(),
            !old(self)@.contains_key(key@) ==> final(self).entries() == old(self).entries().push(
                (key, value),
            ),
            forall|i: int|
                0 <= i < old(self).entries().len() ==> #[trigger] final(self).entries()[i].0@
                    == old(self).entries()[i].0@,
    {
        match self.find(&key) {
            Some(i) => {
                let ghost e = self.entries@;
                let ghost kv = (key, value);
                proof {
                    lemma_entries_replace(e, i as int, kv);
                }
                self.entries.push((key, value));
                let old_entry = self.entries.swap_remove(i);
                proof {
                    assert(self.entries@ =~= e.update(i as int, kv));
                }
                Some(old_entry.1)
            },
            None => {
                let ghost e = self.entries@;
                self.entries.push((key, value));
                proof {
                    assert(self.entries@.drop_last() =~= e);
                }
                None
            },
        }
    }
}

/// An entry at `i` holds `k`: then the map holds `k`.
proof fn lemma_last_index_in_map<K: View, V: View>(e: Seq<(K, V)>, i: int, k: K::V)
    requires
        0 <= i < e.len(),
        e[i].0@ == k,
    ensures
        entries_map(e).contains_key(k),
    decreases e.len(),
{
    if i < e.len() - 1 {
        lemma_last_index_in_map(e.drop_last(), i, k);
    }
}

} // verus!
