//! A map from texts to values that is walked in the order of its keys.

use vstd::prelude::*;

use crate::lists::reversed;
use crate::text;

verus! {

/// A map from texts to values, kept in the order of the keys.
#[derive(Debug)]
pub struct SortedMap<V> {
    entries: Vec<(String, V)>,
}

/// The keys of a list of entries.
pub open spec fn keys_of<V>(entries: Seq<(String, V)>) -> Seq<Seq<char>> {
    entries.map_values(|e: (String, V)| e.0@)
}

/// The place of a key.
pub open spec fn place_of<V>(entries: Seq<(String, V)>, key: Seq<char>) -> int {
    choose|i: int| 0 <= i < entries.len() && (#[trigger] keys_of(entries)[i]) == key
}

impl<V> View for SortedMap<V> {
    type V = Map<Seq<char>, V>;

    closed spec fn view(&self) -> Map<Seq<char>, V> {
        Map::new(
            |key: Seq<char>| keys_of(self.entries@).contains(key),
            |key: Seq<char>| self.entries@[place_of(self.entries@, key)].1,
        )
    }
}

impl<V> SortedMap<V> {
    /// The keys are in order, and none stands twice.
    pub closed spec fn wf(&self) -> bool {
        text::ascending(keys_of(self.entries@))
    }

    /// The keys in their order.
    pub closed spec fn keys(&self) -> Seq<Seq<char>> {
        keys_of(self.entries@)
    }

    /// The keys stand in ascending order, and they are those of the map.
    pub proof fn lemma_keys(&self)
        requires
            self.wf(),
        ensures
            text::ascending(self.keys()),
            self.keys().no_duplicates(),
            forall|key: Seq<char>| self.keys().contains(key) <==> self@.dom().contains(key),
            self@.dom().finite(),
    {
        text::lemma_ascending_distinct(self.keys());
        vstd::seq_lib::seq_to_set_is_finite(self.keys());
        assert(self@.dom() =~= self.keys().to_set());
    }

    proof fn lemma_value(&self, i: int)
        requires
            self.wf(),
            0 <= i < self.entries@.len(),
        ensures
            self@.dom().contains(self.entries@[i].0@),
            self@[self.entries@[i].0@] == self.entries@[i].1,
    {
        let keys = keys_of(self.entries@);
        let key = self.entries@[i].0@;
        text::lemma_ascending_distinct(keys);
        assert(keys[i] == key);
        assert(keys.contains(key));
        let k = place_of(self.entries@, key);
        assert(keys[k] == key);
        assert(k == i);
    }

    /// The empty map.
    pub fn new() -> (map: Self)
        ensures
            map.wf(),
            map@ == Map::<Seq<char>, V>::empty(),
            map.keys() == Seq::<Seq<char>>::empty(),
    {
        let map = SortedMap { entries: Vec::new() };
        assert(map.keys() == Seq::<Seq<char>>::empty());
        assert(map@ =~= Map::<Seq<char>, V>::empty());
        map
    }

    /// The number of entries.
    pub fn len(&self) -> (n: usize)
        ensures
            n == self.keys().len(),
    {
        self.entries.len()
    }

    /// The `i`th entry in the order of the keys.
    pub fn entry(&self, i: usize) -> (entry: (&str, &V))
        requires
            self.wf(),
            i < self.keys().len(),
        ensures
            entry.0@ == self.keys()[i as int],
            self@.dom().contains(entry.0@),
            *entry.1 == self@[entry.0@],
    {
        proof {
            self.lemma_value(i as int);
        }
        (self.entries[i].0.as_str(), &self.entries[i].1)
    }

    /// The place of a key, or where it would stand.
    fn search(&self, key: &str) -> (found: (usize, bool))
        requires
            self.wf(),
        ensures
            found.0 <= self.entries@.len(),
            forall|j: int| 0 <= j < found.0 ==> text::precedes(#[trigger] self.keys()[j], key@),
            found.1 ==> found.0 < self.entries@.len() && self.keys()[found.0 as int] == key@,
            !found.1 ==> !self.keys().contains(key@) && forall|j: int|
                found.0 <= j < self.entries@.len() ==> text::precedes(
                    key@,
                    #[trigger] self.keys()[j],
                ),
    {
        let ghost keys = self.keys();
        let mut i: usize = 0;
        while i < self.entries.len() && text::is_before(self.entries[i].0.as_str(), key)
            invariant
                i <= self.entries.len(),
                keys == self.keys(),
                forall|j: int| 0 <= j < i ==> text::precedes(#[trigger] keys[j], key@),
            decreases self.entries.len() - i,
        {
            assert(keys[i as int] == self.entries@[i as int].0@);
            i = i + 1;
        }
        if i < self.entries.len() {
            assert(keys[i as int] == self.entries@[i as int].0@);
            if text::same_text(self.entries[i].0.as_str(), key) {
                return (i, true);
            }
            proof {
                text::lemma_precedes_total(keys[i as int], key@);
                assert forall|j: int| i <= j < keys.len() implies text::precedes(
                    key@,
                    #[trigger] keys[j],
                ) by {
                    if j > i {
                        text::lemma_precedes_transitive(key@, keys[i as int], keys[j]);
                    }
                }
            }
        }
        assert(!keys.contains(key@)) by {
            if keys.contains(key@) {
                let k = choose|k: int| 0 <= k < keys.len() && keys[k] == key@;
                text::lemma_precedes_irreflexive(key@);
            }
        }
        (i, false)
    }

    /// The value of a key.
    pub fn get(&self, key: &str) -> (found: Option<&V>)
        requires
            self.wf(),
        ensures
            found is Some <==> self@.dom().contains(key@),
            found matches Some(value) ==> *value == self@[key@],
    {
        let (i, present) = self.search(key);
        if present {
            proof {
                self.lemma_value(i as int);
            }
            Some(&self.entries[i].1)
        } else {
            None
        }
    }

    /// Whether the map has a key.
    pub fn contains_key(&self, key: &str) -> (b: bool)
        requires
            self.wf(),
        ensures
            b == self@.dom().contains(key@),
    {
        self.get(key).is_some()
    }

    /// Gives a key a value, in place of the one that it had.
    pub fn insert(&mut self, key: String, value: V)
        requires
            old(self).wf(),
        ensures
            final(self).wf(),
            final(self)@ == old(self)@.insert(key@, value),
    {
        let ghost before = *self;
        let ghost old_keys = self.keys();
        let ghost key_text = key@;
        let (i, present) = self.search(key.as_str());
        if present {
            let ghost old_entries = self.entries@;
            self.entries[i] = (key, value);
            proof {
                assert(keys_of(self.entries@) == old_keys);
                assert forall|k: Seq<char>| self@.dom().contains(k) implies self@[k]
                    == before@.insert(key_text, value)[k] by {
                    let p = place_of(self.entries@, k);
                    assert(self.keys()[p] == k);
                    before.lemma_value(p);
                    text::lemma_ascending_distinct(old_keys);
                    if p == i {
                        assert(k == key_text);
                    } else {
                        assert(self.entries@[p] == old_entries[p]);
                    }
                }
                assert(self@ =~= before@.insert(key_text, value));
            }
        } else {
            self.entries.insert(i, (key, value));
            proof {
                let new_keys = self.keys();
                assert(new_keys == old_keys.insert(i as int, key_text));
                assert forall|a: int, b: int| 0 <= a < b < new_keys.len() implies text::precedes(
                    #[trigger] new_keys[a],
                    #[trigger] new_keys[b],
                ) by {
                    let a0 = if a < i { a } else { a - 1 };
                    let b0 = if b < i { b } else { b - 1 };
                    if a == i {
                        assert(new_keys[b] == old_keys[b0]);
                    } else if b == i {
                        assert(new_keys[a] == old_keys[a0]);
                    } else {
                        assert(new_keys[a] == old_keys[a0] && new_keys[b] == old_keys[b0]);
                    }
                }
                assert(self.wf());
                assert forall|k: Seq<char>|
                    self@.dom().contains(k) <==> before@.insert(key_text, value).dom().contains(
                        k,
                    ) by {
                    if new_keys.contains(k) {
                        let p = choose|p: int| 0 <= p < new_keys.len() && new_keys[p] == k;
                        if p < i {
                            assert(old_keys[p] == k);
                        } else if p > i {
                            assert(old_keys[p - 1] == k);
                        }
                    }
                    if old_keys.contains(k) {
                        let p = choose|p: int| 0 <= p < old_keys.len() && old_keys[p] == k;
                        if p < i {
                            assert(new_keys[p] == k);
                        } else {
                            assert(new_keys[p + 1] == k);
                        }
                    }
                    assert(new_keys[i as int] == key_text);
                }
                assert forall|k: Seq<char>| self@.dom().contains(k) implies self@[k]
                    == before@.insert(key_text, value)[k] by {
                    let p = choose|p: int| 0 <= p < new_keys.len() && new_keys[p] == k;
                    self.lemma_value(p);
                    if p < i {
                        before.lemma_value(p);
                        assert(old_keys[p] == k);
                    } else if p > i {
                        before.lemma_value(p - 1);
                        assert(old_keys[p - 1] == k);
                    } else {
                        assert(k == key_text);
                    }
                    if k == key_text && p != i {
                        assert(new_keys[i as int] == key_text);
                        text::lemma_ascending_distinct(new_keys);
                    }
                }
                assert(self@ =~= before@.insert(key_text, value));
            }
        }
    }

    /// Takes a key and its value out of the map.
    pub fn remove(&mut self, key: &str) -> (taken: Option<V>)
        requires
            old(self).wf(),
        ensures
            final(self).wf(),
            final(self)@ == old(self)@.remove(key@),
            taken is Some <==> old(self)@.dom().contains(key@),
            taken matches Some(value) ==> value == old(self)@[key@],
    {
        let ghost before = *self;
        let ghost old_keys = self.keys();
        let (i, present) = self.search(key);
        if !present {
            assert(self@ =~= before@.remove(key@));
            return None;
        }
        proof {
            before.lemma_value(i as int);
        }
        let (_, value) = self.entries.remove(i);
        proof {
            let new_keys = self.keys();
            text::lemma_ascending_distinct(old_keys);
            assert(new_keys == old_keys.remove(i as int));
            assert forall|a: int, b: int| 0 <= a < b < new_keys.len() implies text::precedes(
                #[trigger] new_keys[a],
                #[trigger] new_keys[b],
            ) by {
                let a0 = if a < i { a } else { a + 1 };
                let b0 = if b < i { b } else { b + 1 };
                assert(new_keys[a] == old_keys[a0] && new_keys[b] == old_keys[b0]);
            }
            assert(self.wf());
            assert forall|k: Seq<char>|
                self@.dom().contains(k) <==> before@.remove(key@).dom().contains(k) by {
                if new_keys.contains(k) {
                    let p = choose|p: int| 0 <= p < new_keys.len() && new_keys[p] == k;
                    let p0 = if p < i { p } else { p + 1 };
                    assert(old_keys[p0] == k);
                }
                if old_keys.contains(k) && k != key@ {
                    let p = choose|p: int| 0 <= p < old_keys.len() && old_keys[p] == k;
                    let p1 = if p < i { p } else { p - 1 };
                    assert(new_keys[p1] == k);
                }
            }
            assert forall|k: Seq<char>| self@.dom().contains(k) implies self@[k]
                == before@.remove(key@)[k] by {
                let p = choose|p: int| 0 <= p < new_keys.len() && new_keys[p] == k;
                self.lemma_value(p);
                let p0 = if p < i { p } else { p + 1 };
                before.lemma_value(p0);
                assert(old_keys[p0] == k);
            }
            assert(self@ =~= before@.remove(key@));
        }
        Some(value)
    }

    /// The values in the order of the keys.
    pub fn into_values(self) -> (values: Vec<V>)
        requires
            self.wf(),
        ensures
            values@.len() == self.keys().len(),
            forall|i: int|
                0 <= i < values@.len() ==> (#[trigger] values@[i]) == self@[self.keys()[i]],
    {
        let ghost map = self;
        let ghost all = self.entries@;
        let mut rest = reversed(self.entries);
        let mut values: Vec<V> = Vec::new();
        while rest.len() > 0
            invariant
                values@.len() + rest@.len() == all.len(),
                forall|j: int|
                    0 <= j < rest@.len() ==> (#[trigger] rest@[j]) == all[all.len() - 1 - j],
                forall|j: int| 0 <= j < values@.len() ==> (#[trigger] values@[j]) == all[j].1,
            decreases rest.len(),
        {
            let (_, value) = rest.pop().unwrap();
            values.push(value);
        }
        proof {
            assert forall|i: int| 0 <= i < values@.len() implies (#[trigger] values@[i])
                == map@[map.keys()[i]] by {
                map.lemma_value(i);
            }
        }
        values
    }
}

} // verus!
