use vstd::prelude::*;

verus! {

/// A map keyed by strings that keeps each key once, in the order in which
/// the keys were first inserted. Inserting a key that is already present
/// replaces its value.
pub struct StrMap<T> {
    entries: Vec<(String, T)>,
}

impl<T> StrMap<T> {
    /// The keys, in entry order.
    pub closed spec fn spec_keys(&self) -> Seq<Seq<char>> {
        self.entries@.map_values(|e: (String, T)| e.0@)
    }

    /// The values, in entry order.
    pub closed spec fn spec_values(&self) -> Seq<T> {
        self.entries@.map_values(|e: (String, T)| e.1)
    }

    /// Well-formedness: no key occurs twice.
    pub open spec fn wf(&self) -> bool {
        &&& self.spec_keys().no_duplicates()
        &&& self.spec_keys().len() == self.spec_values().len()
    }

    /// The number of entries.
    pub open spec fn size(&self) -> nat {
        self.spec_keys().len()
    }

    /// The map from each key to its value.
    pub open spec fn view(&self) -> Map<Seq<char>, T> {
        Map::new(
            |k: Seq<char>| self.spec_keys().contains(k),
            |k: Seq<char>| self.spec_values()[self.spec_keys().index_of(k)],
        )
    }

    /// The entry at position `i` is in the map with its value.
    pub proof fn lemma_entry_in_view(&self, i: int)
        requires
            self.wf(),
            0 <= i < self.size(),
        ensures
            self.view().contains_key(self.spec_keys()[i]),
            self.view()[self.spec_keys()[i]] == self.spec_values()[i],
    {
        let k = self.spec_keys()[i];
        assert(self.spec_keys().contains(k));
        let j = self.spec_keys().index_of(k);
        assert(self.spec_keys()[j] == k);
    }

    /// The number of keys of the map is the number of entries.
    pub proof fn lemma_dom_len(&self)
        requires
            self.wf(),
        ensures
            self.view().dom().len() == self.size(),
            self.view().dom() == self.spec_keys().to_set(),
    {
        assert(self.view().dom() =~= self.spec_keys().to_set());
        self.spec_keys().unique_seq_to_set();
    }

    pub fn new() -> (m: Self)
        ensures
            m.wf(),
            m.size() == 0,
            m.view() == Map::<Seq<char>, T>::empty(),
    {
        let m = StrMap { entries: Vec::new() };
        assert(m.spec_keys() =~= Seq::<Seq<char>>::empty());
        assert(m.view() =~= Map::<Seq<char>, T>::empty());
        m
    }

    pub fn len(&self) -> (n: usize)
        ensures
            n == self.size(),
            self.wf() ==> n == self.view().dom().len(),
    {
        proof {
            if self.wf() {
                self.lemma_dom_len();
            }
        }
        self.entries.len()
    }

    /// The key and the value at position `i`.
    pub fn entry(&self, i: usize) -> (r: (&String, &T))
        requires
            self.wf(),
            i < self.size(),
        ensures
            r.0@ == self.spec_keys()[i as int],
            *r.1 == self.spec_values()[i as int],
    {
        let e = &self.entries[i];
        (&e.0, &e.1)
    }

    /// The value stored under `key`, if any.
    pub fn get(&self, key: &String) -> (r: Option<&T>)
        requires
            self.wf(),
        ensures
            match r {
                Some(v) => self.view().contains_key(key@) && *v == self.view()[key@],
                None => !self.view().contains_key(key@),
            },
    {
        let n = self.entries.len();
        let mut i: usize = 0;
        while i < n
            invariant
                self.wf(),
                n == self.size(),
                i <= n,
                forall|j: int| 0 <= j < i ==> self.spec_keys()[j] != key@,
            decreases n - i,
        {
            if self.entries[i].0 == *key {
                proof {
                    assert(self.spec_keys()[i as int] == key@);
                    self.lemma_entry_in_view(i as int);
                }
                return Some(&self.entries[i].1);
            }
            i = i + 1;
        }
        proof {
            if self.spec_keys().contains(key@) {
                let j = choose|j: int| 0 <= j < self.size() && self.spec_keys()[j] == key@;
                assert(self.spec_keys()[j] == key@);
            }
        }
        None
    }

    /// Stores `value` under `key`: a present key keeps its position and gets
    /// the new value, a new key is appended.
    pub fn insert(&mut self, key: String, value: T)
        requires
            old(self).wf(),
        ensures
            final(self).wf(),
            final(self).view() == old(self).view().insert(key@, value),
            old(self).view().contains_key(key@) ==> {
                &&& final(self).spec_keys() == old(self).spec_keys()
                &&& final(self).spec_values() == old(self).spec_values().update(
                    old(self).spec_keys().index_of(key@),
                    value,
                )
            },
            !old(self).view().contains_key(key@) ==> {
                &&& final(self).spec_keys() == old(self).spec_keys().push(key@)
                &&& final(self).spec_values() == old(self).spec_values().push(value)
            },
    {
        let ghost old_keys = self.spec_keys();
        let ghost old_values = self.spec_values();
        let n = self.entries.len();
        let mut i: usize = 0;
        while i < n
            invariant
                self.entries@ == old(self).entries@,
                old_keys == old(self).spec_keys(),
                old_values == old(self).spec_values(),
                old(self).wf(),
                n == self.entries@.len(),
                i <= n,
                forall|j: int| 0 <= j < i ==> self.spec_keys()[j] != key@,
            decreases n - i,
        {
            if self.entries[i].0 == key {
                let ghost idx = i as int;
                assert(old_keys[idx] == self.entries@[idx].0@);
                assert(old_keys[idx] == key@);
                assert(old_keys.index_of(key@) == idx) by {
                    let c = old_keys.index_of(key@);
                    assert(old_keys.contains(key@));
                    assert(old_keys[c] == key@);
                }
                let mut e = self.entries.remove(i);
                e.1 = value;
                self.entries.insert(i, e);
                assert(self.spec_keys() =~= old_keys);
                assert(self.spec_values() =~= old_values.update(idx, value));
                assert forall|k: Seq<char>|
                    #![auto]
                    self.view().contains_key(k) implies self.view()[k] == old(self).view().insert(
                        key@,
                        value,
                    )[k] by {
                    let c = old_keys.index_of(k);
                    assert(old_keys.contains(k));
                    assert(old_keys[c] == k);
                }
                assert(self.view() =~= old(self).view().insert(key@, value));
                return ;
            }
            i = i + 1;
        }
        assert(old_keys == old(self).spec_keys());
        assert(self.spec_keys() =~= old_keys);
        assert(!old_keys.contains(key@)) by {
            if old_keys.contains(key@) {
                let j = choose|j: int| 0 <= j < old_keys.len() && old_keys[j] == key@;
                assert(old_keys[j] == key@);
            }
        }
        self.entries.push((key, value));
        assert(self.spec_keys() =~= old_keys.push(key@));
        assert(self.spec_values() =~= old_values.push(value));
        let ghost new_keys = self.spec_keys();
        assert(new_keys.no_duplicates()) by {
            assert forall|a: int, b: int|
                0 <= a < new_keys.len() && 0 <= b < new_keys.len() && a != b implies new_keys[a]
                != new_keys[b] by {
                if a < old_keys.len() && b < old_keys.len() {
                    assert(old_keys[a] != old_keys[b]);
                } else if a < old_keys.len() {
                    assert(old_keys.contains(old_keys[a]));
                } else {
                    assert(old_keys.contains(old_keys[b]));
                }
            }
        }
        assert forall|k: Seq<char>|
            #![auto]
            self.view().contains_key(k) implies self.view()[k] == old(self).view().insert(
                key@,
                value,
            )[k] by {
            let c = new_keys.index_of(k);
            assert(new_keys.contains(k));
            assert(new_keys[c] == k);
            if k == key@ {
                assert(new_keys[n as int] == k);
                assert(c == n);
            } else {
                assert(c < n);
                assert(old_keys.contains(k)) by {
                    assert(old_keys[c] == k);
                }
                let d = old_keys.index_of(k);
                assert(old_keys[d] == k);
                assert(d == c);
            }
        }
        assert forall|k: Seq<char>|
            self.view().contains_key(k) <==> old(self).view().insert(key@, value).contains_key(
                k,
            ) by {
            if old_keys.contains(k) {
                let d = choose|d: int| 0 <= d < old_keys.len() && old_keys[d] == k;
                assert(new_keys[d] == k);
            }
            if k == key@ {
                assert(new_keys[n as int] == k);
            }
            if new_keys.contains(k) && k != key@ {
                let d = choose|d: int| 0 <= d < new_keys.len() && new_keys[d] == k;
                assert(old_keys[d] == k);
            }
        }
        assert(self.view() =~= old(self).view().insert(key@, value));
    }
}

/// After storing `value` under `key`, the map gives back `value` for `key`
/// and what it gave before for every other key.
pub proof fn lemma_get_after_insert<T>(before: Map<Seq<char>, T>, after: Map<Seq<char>, T>, key: Seq<
    char,
>, value: T)
    requires
        after == before.insert(key, value),
    ensures
        after.contains_key(key),
        after[key] == value,
        forall|k: Seq<char>|
            k != key ==> (#[trigger] after.contains_key(k) == before.contains_key(k) && (
            before.contains_key(k) ==> after[k] == before[k])),
{
}

} // verus!
