//! A small keyed table, found by comparing keys.
//!
//! The records of the engine are few and keyed by account addresses, so a
//! table is a vector of pairs that is searched from the front. Its meaning is
//! the finite map that sends the view of a key to the view of the value in
//! the first entry with that key.

use vstd::prelude::*;

verus! {

/// A key that can be compared at run time in agreement with its view.
pub trait Key: View + Sized {
    /// Whether two keys have the same view.
    fn same(&self, other: &Self) -> (r: bool)
        ensures
            r == (self@ == other@),
    ;
}

impl Key for String {
    fn same(&self, other: &Self) -> (r: bool) {
        *self == *other
    }
}

impl Key for (String, String) {
    fn same(&self, other: &Self) -> (r: bool) {
        self.0 == other.0 && self.1 == other.1
    }
}

/// Whether `i` is the first position of `keys` that holds `k`.
pub open spec fn is_first_at<A>(keys: Seq<A>, k: A, i: int) -> bool {
    &&& 0 <= i < keys.len()
    &&& keys[i] == k
    &&& forall|j: int| 0 <= j < i ==> keys[j] != k
}

/// The first position of `keys` that holds `k`; arbitrary where none does.
pub open spec fn first_at<A>(keys: Seq<A>, k: A) -> int {
    choose|i: int| is_first_at(keys, k, i)
}

/// A key that occurs in a sequence has a first position there.
pub proof fn lemma_first_exists<A>(keys: Seq<A>, k: A, i: int)
    requires
        0 <= i < keys.len(),
        keys[i] == k,
    ensures
        is_first_at(keys, k, first_at(keys, k)),
        first_at(keys, k) <= i,
    decreases i,
{
    if exists|j: int| 0 <= j < i && keys[j] == k {
        let j = choose|j: int| 0 <= j < i && keys[j] == k;
        lemma_first_exists(keys, k, j);
    } else {
        assert(is_first_at(keys, k, i));
        let f = first_at(keys, k);
        assert(is_first_at(keys, k, f));
        if f > i {
            assert(keys[i] != k);
        }
    }
}

/// The first position of a key is unique.
pub proof fn lemma_first_unique<A>(keys: Seq<A>, k: A, i: int)
    requires
        is_first_at(keys, k, i),
    ensures
        first_at(keys, k) == i,
{
    let f = first_at(keys, k);
    assert(is_first_at(keys, k, f));
    if f < i {
        assert(keys[f] != k);
    }
    if i < f {
        assert(keys[i] != k);
    }
}

/// A finite map from keys to values.
pub struct Table<K: Key, V: View> {
    entries: Vec<(K, V)>,
}

impl<K: Key, V: View> View for Table<K, V> {
    type V = Map<K::V, V::V>;

    closed spec fn view(&self) -> Map<K::V, V::V> {
        Self::map_of(self.entries@)
    }
}

impl<K: Key, V: View> Table<K, V> {
    /// The views of the keys, in storage order.
    pub closed spec fn keys_of(entries: Seq<(K, V)>) -> Seq<K::V> {
        entries.map_values(|e: (K, V)| e.0@)
    }

    /// The map that a sequence of entries stands for.
    pub closed spec fn map_of(entries: Seq<(K, V)>) -> Map<K::V, V::V> {
        Map::new(
            |k: K::V| Self::keys_of(entries).contains(k),
            |k: K::V| entries[first_at(Self::keys_of(entries), k)].1@,
        )
    }

    /// The empty table.
    pub fn new() -> (r: Self)
        ensures
            r@ == Map::<K::V, V::V>::empty(),
    {
        let r = Table { entries: Vec::new() };
        assert(r@ =~= Map::<K::V, V::V>::empty());
        r
    }

    /// The first position of `key` among the entries, if it is present.
    fn position(&self, key: &K) -> (r: Option<usize>)
        ensures
            match r {
                Some(i) => is_first_at(Self::keys_of(self.entries@), key@, i as int),
                None => !Self::keys_of(self.entries@).contains(key@),
            },
    {
        let ghost keys = Self::keys_of(self.entries@);
        let mut i: usize = 0;
        while i < self.entries.len()
            invariant
                i <= self.entries.len(),
                keys == Self::keys_of(self.entries@),
                forall|j: int| 0 <= j < i ==> keys[j] != key@,
            decreases self.entries.len() - i,
        {
            if self.entries[i].0.same(key) {
                return Some(i);
            }
            i += 1;
        }
        None
    }

    /// Whether the table holds a value under `key`.
    pub fn contains_key(&self, key: &K) -> (r: bool)
        ensures
            r == self@.contains_key(key@),
    {
        self.position(key).is_some()
    }

    /// The value under `key`, if there is one.
    pub fn get(&self, key: &K) -> (r: Option<&V>)
        ensures
            match r {
                Some(v) => self@.contains_key(key@) && v@ == self@[key@],
                None => !self@.contains_key(key@),
            },
    {
        match self.position(key) {
            Some(i) => {
                proof {
                    lemma_first_unique(Self::keys_of(self.entries@), key@, i as int);
                }
                Some(&self.entries[i].1)
            },
            None => None,
        }
    }

    /// Puts `value` under `key`, replacing what was there.
    pub fn insert(&mut self, key: K, value: V)
        ensures
            final(self)@ == old(self)@.insert(key@, value@),
    {
        let ghost before = self.entries@;
        let ghost old_keys = Self::keys_of(before);
        match self.position(&key) {
            Some(i) => {
                self.entries.set(i, (key, value));
                proof {
                    let after = self.entries@;
                    let new_keys = Self::keys_of(after);
                    assert(new_keys =~= old_keys);
                    lemma_first_unique(old_keys, key@, i as int);
                    assert forall|k: K::V| old_keys.contains(k) implies #[trigger] Self::map_of(
                        after,
                    )[k] == Self::map_of(before).insert(key@, value@)[k] by {
                        let w = choose|w: int| 0 <= w < old_keys.len() && old_keys[w] == k;
                        lemma_first_exists(old_keys, k, w);
                    }
                    assert(Self::map_of(after) =~= Self::map_of(before).insert(key@, value@));
                }
            },
            None => {
                self.entries.push((key, value));
                proof {
                    let after = self.entries@;
                    let new_keys = Self::keys_of(after);
                    let n = old_keys.len() as int;
                    assert(new_keys =~= old_keys.push(key@));
                    assert(new_keys[n] == key@);
                    assert(is_first_at(new_keys, key@, n));
                    lemma_first_unique(new_keys, key@, n);
                    assert forall|k: K::V| old_keys.contains(k) implies new_keys.contains(k)
                        && Self::map_of(after)[k] == Self::map_of(before)[k] by {
                        let w = choose|w: int| 0 <= w < old_keys.len() && old_keys[w] == k;
                        lemma_first_exists(old_keys, k, w);
                        let f = first_at(old_keys, k);
                        assert(new_keys[f] == k);
                        assert(is_first_at(new_keys, k, f));
                        lemma_first_unique(new_keys, k, f);
                    }
                    assert forall|k: K::V| new_keys.contains(k) implies old_keys.contains(k) || k
                        == key@ by {
                        let w = choose|w: int| 0 <= w < new_keys.len() && new_keys[w] == k;
                        if w < n {
                            assert(old_keys[w] == k);
                        }
                    }
                    assert(Self::map_of(after) =~= Self::map_of(before).insert(key@, value@));
                }
            },
        }
    }

    /// What removing the entry at the first position of `k` does to the map.
    proof fn lemma_remove_first(entries: Seq<(K, V)>, k: K::V, i: int)
        requires
            is_first_at(Self::keys_of(entries), k, i),
        ensures
            Self::map_of(entries.remove(i)).remove(k) == Self::map_of(entries).remove(k),
    {
        let keys = Self::keys_of(entries);
        let after = entries.remove(i);
        let new_keys = Self::keys_of(after);
        assert(new_keys =~= keys.remove(i));
        assert forall|x: K::V| x != k && keys.contains(x) implies new_keys.contains(x)
            && Self::map_of(after)[x] == Self::map_of(entries)[x] by {
            let w = choose|w: int| 0 <= w < keys.len() && keys[w] == x;
            lemma_first_exists(keys, x, w);
            let f = first_at(keys, x);
            let g = if f < i {
                f
            } else {
                f - 1
            };
            assert(new_keys[g] == x);
            assert forall|j: int| 0 <= j < g implies new_keys[j] != x by {
                if j < i {
                    assert(new_keys[j] == keys[j]);
                } else {
                    assert(new_keys[j] == keys[j + 1]);
                }
            }
            assert(is_first_at(new_keys, x, g));
            lemma_first_unique(new_keys, x, g);
            assert(after[g] == entries[f]);
        }
        assert forall|x: K::V| x != k && new_keys.contains(x) implies keys.contains(x) by {
            let w = choose|w: int| 0 <= w < new_keys.len() && new_keys[w] == x;
            if w < i {
                assert(keys[w] == x);
            } else {
                assert(keys[w + 1] == x);
            }
        }
        assert(Self::map_of(after).remove(k) =~= Self::map_of(entries).remove(k));
    }

    /// Removes what is under `key`, if anything.
    pub fn remove(&mut self, key: &K)
        ensures
            final(self)@ == old(self)@.remove(key@),
    {
        let ghost before = self.entries@;
        loop
            invariant
                Self::map_of(self.entries@).remove(key@) == Self::map_of(before).remove(key@),
            ensures
                !Self::keys_of(self.entries@).contains(key@),
            decreases self.entries.len(),
        {
            match self.position(key) {
                Some(i) => {
                    proof {
                        Self::lemma_remove_first(self.entries@, key@, i as int);
                    }
                    self.entries.remove(i);
                },
                None => {
                    break ;
                },
            }
        }
        assert(Self::map_of(self.entries@).remove(key@) =~= Self::map_of(self.entries@));
    }
}

} // verus!
