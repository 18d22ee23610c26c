//! A map from keys to values, kept as a list.
use vstd::prelude::*;

verus! {

/// Keys that can be told apart by what they hold.
pub trait Key: View {
    /// Whether both hold the same.
    fn same_key(&self, other: &Self) -> (same: bool)
        ensures
            same == (self@ == other@),
    ;
}

/// A map in which no key occurs twice.
#[derive(Clone, Debug)]
pub struct Table<K, T> {
    pub entries: Vec<(K, T)>,
}

/// The keys of a list, in order.
pub open spec fn keys_of<K: View, T>(entries: Seq<(K, T)>) -> Seq<K::V> {
    entries.map_values(|entry: (K, T)| entry.0@)
}

/// The map that a list stands for.
pub open spec fn map_of<K: View, T>(entries: Seq<(K, T)>) -> Map<K::V, T> {
    Map::new(
        |key: K::V| keys_of(entries).contains(key),
        |key: K::V| entries[keys_of(entries).index_of(key)].1,
    )
}

impl<K: View, T> View for Table<K, T> {
    type V = Map<K::V, T>;

    open spec fn view(&self) -> Map<K::V, T> {
        map_of(self.entries@)
    }
}

impl<K: View, T> Table<K, T> {
    /// No key occurs twice.
    pub open spec fn wf(self) -> bool {
        keys_of(self.entries@).no_duplicates()
    }

    /// Any index at which a key stands is the one that counts.
    pub proof fn lemma_entry(self, at: int)
        requires
            self.wf(),
            0 <= at < self.entries@.len(),
        ensures
            self@.dom().contains(self.entries@[at].0@),
            self@[self.entries@[at].0@] == self.entries@[at].1,
    {
        let keys = keys_of(self.entries@);
        let key = self.entries@[at].0@;
        assert(keys[at] == key);
        assert(keys.contains(key));
        let index = keys.index_of(key);
        assert(keys[index] == key);
        assert(index == at);
    }

    /// The map has as many keys as the list has entries.
    pub proof fn lemma_len(self)
        requires
            self.wf(),
        ensures
            self@.dom().finite(),
            self@.dom().len() == self.entries@.len(),
    {
        let keys = keys_of(self.entries@);
        keys.unique_seq_to_set();
        assert(self@.dom() =~= keys.to_set());
    }
}

impl<K: Key, T> Table<K, T> {
    pub fn new() -> (table: Table<K, T>)
        ensures
            table.wf(),
            table@ == Map::<K::V, T>::empty(),
    {
        let table = Table { entries: Vec::new() };
        assert(keys_of(table.entries@) =~= Seq::empty());
        assert(table@ =~= Map::<K::V, T>::empty());
        table
    }

    /// How many keys there are.
    pub fn len(&self) -> (count: usize)
        requires
            self.wf(),
        ensures
            self@.dom().finite(),
            count == self@.dom().len(),
    {
        proof {
            self.lemma_len();
        }
        self.entries.len()
    }

    fn position(&self, key: &K) -> (place: Option<usize>)
        requires
            self.wf(),
        ensures
            match place {
                Some(at) => at < self.entries@.len() && self.entries@[at as int].0@ == key@
                    && self@.dom().contains(key@) && self@[key@] == self.entries@[at as int].1,
                None => !self@.dom().contains(key@),
            },
    {
        for i in 0..self.entries.len()
            invariant
                self.wf(),
                forall|j: int| 0 <= j < i ==> (#[trigger] self.entries@[j]).0@ != key@,
        {
            if self.entries[i].0.same_key(key) {
                proof {
                    self.lemma_entry(i as int);
                }
                return Some(i);
            }
        }
        proof {
            let keys = keys_of(self.entries@);
            if keys.contains(key@) {
                let at = keys.index_of(key@);
                assert(keys[at] == key@);
                assert(self.entries@[at].0@ == key@);
            }
        }
        None
    }

    /// Whether a key is there.
    pub fn contains(&self, key: &K) -> (yes: bool)
        requires
            self.wf(),
        ensures
            yes == self@.dom().contains(key@),
    {
        self.position(key).is_some()
    }

    /// The value of a key.
    pub fn get(&self, key: &K) -> (value: Option<&T>)
        requires
            self.wf(),
        ensures
            match value {
                Some(value) => self@.dom().contains(key@) && self@[key@] == *value,
                None => !self@.dom().contains(key@),
            },
    {
        match self.position(key) {
            Some(at) => Some(&self.entries[at].1),
            None => None,
        }
    }

    /// Sets the value of a key.
    pub fn insert(&mut self, key: K, value: T)
        requires
            old(self).wf(),
        ensures
            final(self).wf(),
            final(self)@ == old(self)@.insert(key@, value),
    {
        let ghost before = *self;
        match self.position(&key) {
            Some(at) => {
                self.entries.set(at, (key, value));
                proof {
                    let keys = keys_of(self.entries@);
                    assert(keys =~= keys_of(before.entries@));
                    assert forall|other: K::V| #[trigger] keys.contains(other) implies self@[other]
                        == before@.insert(key@, value)[other] by {
                        let index = keys.index_of(other);
                        assert(keys[index] == other);
                        if index == at {
                            assert(other == key@);
                        } else {
                            assert(keys[at as int] == key@);
                        }
                    }
                    assert(self@ =~= before@.insert(key@, value));
                }
            },
            None => {
                self.entries.push((key, value));
                proof {
                    let keys = keys_of(self.entries@);
                    let old_keys = keys_of(before.entries@);
                    assert(keys =~= old_keys.push(key@));
                    assert(!old_keys.contains(key@));
                    assert(keys.no_duplicates());
                    self.lemma_entry(self.entries@.len() - 1);
                    assert forall|other: K::V| #[trigger] keys.contains(other) <==> (other == key@
                        || old_keys.contains(other)) by {
                        if old_keys.contains(other) {
                            let index = old_keys.index_of(other);
                            assert(keys[index] == other);
                        }
                        if keys.contains(other) {
                            let index = keys.index_of(other);
                            if index < old_keys.len() {
                                assert(old_keys[index] == other);
                            }
                        }
                        assert(keys[keys.len() - 1] == key@);
                    }
                    assert forall|other: K::V| #[trigger] old_keys.contains(other) implies self@[other]
                        == before@[other] by {
                        let index = old_keys.index_of(other);
                        self.lemma_entry(index);
                        before.lemma_entry(index);
                        assert(self.entries@[index] == before.entries@[index]);
                    }
                    assert(self@ =~= before@.insert(key@, value));
                }
            },
        }
    }

    /// Takes some key out.
    pub fn remove_any(&mut self)
        requires
            old(self).wf(),
            old(self)@.dom().len() > 0,
        ensures
            final(self).wf(),
            exists|key: K::V|
                #[trigger] old(self)@.dom().contains(key) && final(self)@ == old(self)@.remove(key),
    {
        proof {
            self.lemma_len();
        }
        let ghost before = *self;
        let gone = self.entries.remove(0);
        proof {
            let key = gone.0@;
            let keys = keys_of(self.entries@);
            let old_keys = keys_of(before.entries@);
            before.lemma_entry(0);
            assert(keys =~= old_keys.skip(1));
            assert forall|other: K::V| #[trigger] keys.contains(other) <==> (other != key
                && old_keys.contains(other)) by {
                if keys.contains(other) {
                    let index = keys.index_of(other);
                    assert(old_keys[index + 1] == other);
                    assert(old_keys[0] == key);
                }
                if old_keys.contains(other) && other != key {
                    let index = old_keys.index_of(other);
                    assert(keys[index - 1] == other);
                }
            }
            assert forall|other: K::V| #[trigger] keys.contains(other) implies self@[other]
                == before@[other] by {
                let index = keys.index_of(other);
                self.lemma_entry(index);
                before.lemma_entry(index + 1);
            }
            assert(self@ =~= before@.remove(key));
        }
    }
}

} // verus!
