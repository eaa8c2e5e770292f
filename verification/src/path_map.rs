//! An ordered map keyed by text.

use crate::text::{in_order, ordered, ordered_is_in_order, text_eq, text_less, text_lt};
use crate::text::{text_lt_asymmetric, text_lt_irreflexive, text_lt_total, text_lt_transitive};
use crate::text::{views, views_push};
use vstd::prelude::*;

verus! {

/// Keys strictly increasing: every key occurs once, and a search can halve the range.
pub open spec fn sorted_entries<V>(entries: Seq<(String, V)>) -> bool {
    forall|i: int, j: int|
        0 <= i < j < entries.len() ==> #[trigger] text_lt(entries[i].0@, entries[j].0@)
}

spec fn key_at<V>(entries: Seq<(String, V)>, key: Seq<char>, i: int) -> bool {
    0 <= i < entries.len() && entries[i].0@ == key
}

spec fn entries_map<V: View>(entries: Seq<(String, V)>) -> Map<Seq<char>, V::V> {
    Map::new(
        |key: Seq<char>| exists|i: int| key_at(entries, key, i),
        |key: Seq<char>| entries[choose|i: int| key_at(entries, key, i)].1@,
    )
}

spec fn entry_keys<V>(entries: Seq<(String, V)>) -> Seq<Seq<char>> {
    entries.map_values(|entry: (String, V)| entry.0@)
}

/// A map from texts to values that keeps its entries in the order of their keys.
pub struct PathMap<V> {
    entries: Vec<(String, V)>,
}

impl<V: View> View for PathMap<V> {
    type V = Map<Seq<char>, V::V>;

    closed spec fn view(&self) -> Map<Seq<char>, V::V> {
        entries_map(self.entries@)
    }
}

proof fn entry_in_map<V: View>(entries: Seq<(String, V)>, i: int)
    requires
        sorted_entries(entries),
        0 <= i < entries.len(),
    ensures
        entries_map(entries).contains_key(entries[i].0@),
        entries_map(entries)[entries[i].0@] == entries[i].1@,
{
    let key = entries[i].0@;
    assert(key_at(entries, key, i));
    let j = choose|j: int| key_at(entries, key, j);
    text_lt_irreflexive(key);
    if i < j {
        assert(text_lt(entries[i].0@, entries[j].0@));
    }
    if j < i {
        assert(text_lt(entries[j].0@, entries[i].0@));
    }
}

impl<V> PathMap<V> {
    #[verifier::type_invariant]
    spec fn well_formed(self) -> bool {
        sorted_entries(self.entries@)
    }
}

impl<V: View> PathMap<V> {
    /// The empty map.
    pub fn new() -> (r: Self)
        ensures
            r@ == Map::<Seq<char>, V::V>::empty(),
    {
        let r = PathMap { entries: Vec::new() };
        assert(r@ =~= Map::<Seq<char>, V::V>::empty());
        r
    }

    /// The number of keys.
    pub fn len(&self) -> (r: usize)
        ensures
            r == self@.dom().len(),
            self@.dom().finite(),
            r == in_order(self@.dom()).len(),
            in_order(self@.dom()).to_set() == self@.dom(),
    {
        proof {
            use_type_invariant(self);
            self.dom_lemma();
            keys_len(self.entries@);
        }
        self.entries.len()
    }

    proof fn dom_lemma(&self)
        requires
            self.well_formed(),
        ensures
            self@.dom() == entry_keys(self.entries@).to_set(),
            ordered(entry_keys(self.entries@)),
            in_order(self@.dom()) == entry_keys(self.entries@),
    {
        let keys = entry_keys(self.entries@);
        assert forall|k: Seq<char>| self@.dom().contains(k) <==> keys.to_set().contains(k) by {
            if self@.dom().contains(k) {
                let i = choose|i: int| key_at(self.entries@, k, i);
                assert(keys[i] == k);
            }
            if keys.contains(k) {
                let i = choose|i: int| 0 <= i < keys.len() && keys[i] == k;
                assert(key_at(self.entries@, k, i));
            }
        }
        assert(self@.dom() =~= keys.to_set());
        assert forall|i: int, j: int| 0 <= i < j < keys.len() implies #[trigger] text_lt(
            keys[i],
            keys[j],
        ) by {
            assert(text_lt(self.entries@[i].0@, self.entries@[j].0@));
        }
        ordered_is_in_order(keys);
    }

    /// The index of the first entry whose key does not come before `key`.
    fn position(&self, key: &str) -> (r: usize)
        requires
            sorted_entries(self.entries@),
        ensures
            r <= self.entries.len(),
            forall|i: int| 0 <= i < r ==> text_lt(#[trigger] self.entries@[i].0@, key@),
            forall|i: int|
                r <= i < self.entries.len() ==> !text_lt(#[trigger] self.entries@[i].0@, key@),
    {
        let mut low: usize = 0;
        let mut high: usize = self.entries.len();
        while low < high
            invariant
                sorted_entries(self.entries@),
                low <= high <= self.entries.len(),
                forall|i: int| 0 <= i < low ==> text_lt(#[trigger] self.entries@[i].0@, key@),
                forall|i: int|
                    high <= i < self.entries.len() ==> !text_lt(
                        #[trigger] self.entries@[i].0@,
                        key@,
                    ),
            decreases high - low,
        {
            let middle = low + (high - low) / 2;
            if text_less(self.entries[middle].0.as_str(), key) {
                assert forall|i: int| 0 <= i < middle + 1 implies text_lt(
                    #[trigger] self.entries@[i].0@,
                    key@,
                ) by {
                    if i < middle {
                        assert(text_lt(self.entries@[i].0@, self.entries@[middle as int].0@));
                        text_lt_transitive(
                            self.entries@[i].0@,
                            self.entries@[middle as int].0@,
                            key@,
                        );
                    }
                }
                low = middle + 1;
            } else {
                assert forall|i: int| middle <= i < self.entries.len() implies !text_lt(
                    #[trigger] self.entries@[i].0@,
                    key@,
                ) by {
                    if middle < i && text_lt(self.entries@[i].0@, key@) {
                        assert(text_lt(self.entries@[middle as int].0@, self.entries@[i].0@));
                        text_lt_transitive(
                            self.entries@[middle as int].0@,
                            self.entries@[i].0@,
                            key@,
                        );
                    }
                }
                high = middle;
            }
        }
        low
    }

    /// The value under `key`.
    pub fn get(&self, key: &str) -> (r: Option<&V>)
        ensures
            r is Some == self@.contains_key(key@),
            r matches Some(value) ==> value@ == self@[key@],
    {
        proof {
            use_type_invariant(self);
        }
        let at = self.position(key);
        if at < self.entries.len() && text_eq(self.entries[at].0.as_str(), key) {
            proof {
                entry_in_map(self.entries@, at as int);
            }
            Some(&self.entries[at].1)
        } else {
            proof {
                if self@.contains_key(key@) {
                    let i = choose|i: int| key_at(self.entries@, key@, i);
                    text_lt_irreflexive(key@);
                    assert(i >= at);
                    if i > at {
                        assert(text_lt(self.entries@[at as int].0@, self.entries@[i].0@));
                    }
                }
            }
            None
        }
    }

    /// Whether `key` has a value.
    pub fn contains(&self, key: &str) -> (r: bool)
        ensures
            r == self@.contains_key(key@),
    {
        self.get(key).is_some()
    }

    /// Puts `value` under `key`, and gives back what was there.
    pub fn insert(&mut self, key: String, value: V) -> (r: Option<V>)
        ensures
            final(self)@ == old(self)@.insert(key@, value@),
            r is Some == old(self)@.contains_key(key@),
            r matches Some(value) ==> value@ == old(self)@[key@],
    {
        proof {
            use_type_invariant(&*self);
        }
        let at = self.position(key.as_str());
        let mut entries: Vec<(String, V)> = Vec::new();
        std::mem::swap(&mut entries, &mut self.entries);
        let ghost before = entries@;
        let ghost model = entries_map(before);
        let ghost text = key@;
        let ghost item = value@;
        assert(forall|i: int|
            at <= i < before.len() ==> !text_lt(#[trigger] before[i].0@, text));
        let mut replaced: Option<V> = None;
        if at < entries.len() && text_eq(entries[at].0.as_str(), key.as_str()) {
            entries.push((key, value));
            let entry = entries.swap_remove(at);
            replaced = Some(entry.1);
            assert(entries@ =~= before.update(at as int, entries@[at as int]));
            proof {
                entry_in_map(before, at as int);
                assert forall|i: int, j: int|
                    0 <= i < j < entries@.len() implies #[trigger] text_lt(
                    entries@[i].0@,
                    entries@[j].0@,
                ) by {
                    assert(text_lt(before[i].0@, before[j].0@));
                }
                assert(entries_map(entries@) =~= model.insert(text, item)) by {
                    assert forall|k: Seq<char>|
                        #![trigger entries_map(entries@).contains_key(k)]
                        entries_map(entries@).contains_key(k) <==> model.insert(
                            text,
                            item,
                        ).contains_key(k) by {
                        if entries_map(entries@).contains_key(k) {
                            let i = choose|i: int| key_at(entries@, k, i);
                            assert(key_at(before, k, i));
                        }
                        if model.contains_key(k) || k == text {
                            if k == text {
                                assert(key_at(entries@, k, at as int));
                            } else {
                                let i = choose|i: int| key_at(before, k, i);
                                assert(key_at(entries@, k, i));
                            }
                        }
                    }
                    assert forall|k: Seq<char>|
                        #![trigger entries_map(entries@)[k]]
                        entries_map(entries@).contains_key(k) implies entries_map(entries@)[k]
                        == model.insert(text, item)[k] by {
                        let i = choose|i: int| key_at(entries@, k, i);
                        entry_in_map(entries@, i);
                        entry_in_map(before, i);
                        entry_in_map(entries@, at as int);
                    }
                }
            }
        } else {
            entries.insert(at, (key, value));
            proof {
                if model.contains_key(text) {
                    let i = choose|i: int| key_at(before, text, i);
                    text_lt_irreflexive(text);
                    assert(i >= at);
                    if i > at {
                        assert(text_lt(before[at as int].0@, before[i].0@));
                    }
                }
                let after = entries@;
                assert forall|i: int| at <= i < before.len() implies text_lt(
                    text,
                    #[trigger] before[i].0@,
                ) by {
                    text_lt_total(text, before[i].0@);
                    if text == before[i].0@ {
                        if i > at {
                            assert(text_lt(before[at as int].0@, before[i].0@));
                        }
                    }
                }
                assert(forall|i: int| 0 <= i < at ==> after[i] == before[i]);
                assert(forall|i: int| at < i < after.len() ==> after[i] == before[i - 1]);
                assert forall|i: int, j: int| 0 <= i < j < after.len() implies #[trigger] text_lt(
                    after[i].0@,
                    after[j].0@,
                ) by {
                    if i < at && j < at {
                        assert(text_lt(before[i].0@, before[j].0@));
                    } else if i < at && j > at {
                        assert(text_lt(before[i].0@, before[j - 1].0@));
                    } else if i > at {
                        assert(text_lt(before[i - 1].0@, before[j - 1].0@));
                    } else if i < at && j == at {
                        assert(text_lt(before[i].0@, text));
                    } else {
                        assert(text_lt(text, before[j - 1].0@));
                    }
                }
                assert(entries_map(after) =~= model.insert(text, item)) by {
                    assert forall|k: Seq<char>|
                        #![trigger entries_map(after).contains_key(k)]
                        entries_map(after).contains_key(k) <==> model.insert(
                            text,
                            item,
                        ).contains_key(k) by {
                        if entries_map(after).contains_key(k) {
                            let i = choose|i: int| key_at(after, k, i);
                            if i < at {
                                assert(key_at(before, k, i));
                            } else if i > at {
                                assert(key_at(before, k, i - 1));
                            }
                        }
                        if k == text {
                            assert(key_at(after, k, at as int));
                        } else if model.contains_key(k) {
                            let i = choose|i: int| key_at(before, k, i);
                            if i < at {
                                assert(key_at(after, k, i));
                            } else {
                                assert(key_at(after, k, i + 1));
                            }
                        }
                    }
                    assert forall|k: Seq<char>|
                        #![trigger entries_map(after)[k]]
                        entries_map(after).contains_key(k) implies entries_map(after)[k]
                        == model.insert(text, item)[k] by {
                        let i = choose|i: int| key_at(after, k, i);
                        entry_in_map(after, i);
                        text_lt_irreflexive(text);
                        if i < at {
                            entry_in_map(before, i);
                            assert(text_lt(before[i].0@, text));
                        } else if i > at {
                            entry_in_map(before, i - 1);
                            assert(text_lt(text, before[i - 1].0@));
                        }
                    }
                }
            }
        }
        self.entries = entries;
        replaced
    }

    /// The key and value of the entry at `index`, in the order of keys.
    pub fn entry(&self, index: usize) -> (r: (&String, &V))
        requires
            index < in_order(self@.dom()).len(),
        ensures
            r.0@ == in_order(self@.dom())[index as int],
            self@.contains_key(r.0@),
            r.1@ == self@[r.0@],
    {
        proof {
            use_type_invariant(self);
            self.dom_lemma();
            entry_in_map(self.entries@, index as int);
        }
        let entry = &self.entries[index];
        (&entry.0, &entry.1)
    }

    /// The keys, in order.
    pub fn keys(&self) -> (r: Vec<String>)
        ensures
            views(r@) == in_order(self@.dom()),
            views(r@).to_set() == self@.dom(),
            ordered(views(r@)),
    {
        proof {
            use_type_invariant(self);
            self.dom_lemma();
        }
        let mut out: Vec<String> = Vec::new();
        let mut i: usize = 0;
        while i < self.entries.len()
            invariant
                i <= self.entries.len(),
                views(out@) == entry_keys(self.entries@).take(i as int),
            decreases self.entries.len() - i,
        {
            let ghost before = out@;
            out.push(self.entries[i].0.clone());
            proof {
                views_push(before, out@.last());
            }
            assert(views(out@) =~= entry_keys(self.entries@).take(i + 1));
            i += 1;
        }
        assert(views(out@) =~= entry_keys(self.entries@));
        out
    }
}

proof fn keys_len<V>(entries: Seq<(String, V)>)
    requires
        sorted_entries(entries),
    ensures
        entry_keys(entries).to_set().finite(),
        entry_keys(entries).to_set().len() == entries.len(),
{
    let keys = entry_keys(entries);
    assert forall|i: int, j: int| 0 <= i < keys.len() && 0 <= j < keys.len() && i != j implies
        keys[i] != keys[j] by {
        if i < j {
            assert(text_lt(entries[i].0@, entries[j].0@));
            text_lt_asymmetric(keys[i], keys[j]);
        } else {
            assert(text_lt(entries[j].0@, entries[i].0@));
            text_lt_asymmetric(keys[j], keys[i]);
        }
    }
    assert(keys.no_duplicates());
    keys.unique_seq_to_set();
}

} // verus!
