//! A map from string identifiers to values.
//!
//! Entries are kept in a vector, one per identifier, in the order in which
//! the identifiers first arrived. Which position an entry has carries no
//! meaning; the positions only let a caller enumerate the map.

use vstd::prelude::*;

verus! {

/// Whether no two entries share an identifier.
pub open spec fn distinct_keys<T>(entries: Seq<(String, T)>) -> bool {
    forall|i: int, j: int|
        0 <= i < j < entries.len() ==> (#[trigger] entries[i]).0@ != (#[trigger] entries[j]).0@
}

/// Whether some entry carries the identifier `key`.
pub open spec fn has_key<T>(entries: Seq<(String, T)>, key: Seq<char>) -> bool {
    exists|i: int| 0 <= i < entries.len() && (#[trigger] entries[i]).0@ == key
}

/// The position of an entry that carries `key`.
pub open spec fn position_of<T>(entries: Seq<(String, T)>, key: Seq<char>) -> int {
    choose|i: int| 0 <= i < entries.len() && (#[trigger] entries[i]).0@ == key
}

/// The mapping that a sequence of entries stands for.
pub open spec fn mapping_of<T>(entries: Seq<(String, T)>) -> Map<Seq<char>, T> {
    Map::new(
        |key: Seq<char>| has_key(entries, key),
        |key: Seq<char>| entries[position_of(entries, key)].1,
    )
}

/// With distinct identifiers, the entry at position `i` is what the mapping
/// holds under that entry's identifier.
pub proof fn lemma_entry_is_mapped<T>(entries: Seq<(String, T)>, i: int)
    requires
        distinct_keys(entries),
        0 <= i < entries.len(),
    ensures
        mapping_of(entries).dom().contains(entries[i].0@),
        mapping_of(entries)[entries[i].0@] == entries[i].1,
{
    let key = entries[i].0@;
    assert(has_key(entries, key));
    let p = position_of(entries, key);
    assert(p == i) by {
        if p < i {
            assert(entries[p].0@ != entries[i].0@);
        } else if i < p {
            assert(entries[i].0@ != entries[p].0@);
        }
    }
}

/// A map keyed by string identifiers.
#[derive(Debug)]
pub struct IdMap<T> {
    entries: Vec<(String, T)>,
}

impl<T: Clone> Clone for IdMap<T> {
    /// A map with the same identifiers, each with a clone of its value.
    fn clone(&self) -> (copy: IdMap<T>)
        ensures
            copy@.dom() == self@.dom(),
            forall|key: Seq<char>|
                self@.dom().contains(key) ==> cloned::<T>(self@[key], #[trigger] copy@[key]),
    {
        proof {
            use_type_invariant(&*self);
        }
        let mut entries: Vec<(String, T)> = Vec::new();
        let mut i: usize = 0;
        while i < self.entries.len()
            invariant
                i <= self.entries@.len(),
                entries@.len() == i,
                forall|j: int| 0 <= j < i ==> (#[trigger] entries@[j]).0@ == self.entries@[j].0@,
                forall|j: int| 0 <= j < i ==> cloned::<T>(self.entries@[j].1, (#[trigger] entries@[j]).1),
            decreases self.entries@.len() - i,
        {
            entries.push((self.entries[i].0.clone(), self.entries[i].1.clone()));
            i += 1;
        }
        proof {
            let source = self.entries@;
            let copy = entries@;
            assert(distinct_keys(copy)) by {
                assert forall|a: int, b: int| 0 <= a < b < copy.len() implies (#[trigger] copy[a]).0@
                    != (#[trigger] copy[b]).0@ by {
                    assert(source[a].0@ != source[b].0@);
                }
            }
            assert forall|key: Seq<char>| has_key(copy, key) == has_key(source, key) by {
                if has_key(source, key) {
                    let p = position_of(source, key);
                    assert(copy[p].0@ == key);
                }
                if has_key(copy, key) {
                    let p = position_of(copy, key);
                    assert(source[p].0@ == key);
                }
            }
            assert(mapping_of(copy).dom() =~= mapping_of(source).dom());
            assert forall|key: Seq<char>| mapping_of(source).dom().contains(key) implies cloned::<T>(
                mapping_of(source)[key],
                #[trigger] mapping_of(copy)[key],
            ) by {
                let p = position_of(source, key);
                lemma_entry_is_mapped(source, p);
                assert(copy[p].0@ == key);
                lemma_entry_is_mapped(copy, p);
            }
        }
        IdMap { entries }
    }
}

impl<T> Default for IdMap<T> {
    fn default() -> (m: IdMap<T>)
        ensures
            m@ == Map::<Seq<char>, T>::empty(),
    {
        IdMap::new()
    }
}

impl<T> View for IdMap<T> {
    type V = Map<Seq<char>, T>;

    closed spec fn view(&self) -> Map<Seq<char>, T> {
        mapping_of(self.entries@)
    }
}

impl<T> IdMap<T> {
    /// The representation invariant: every identifier occurs once. It holds
    /// of every map that a program holds.
    #[verifier::type_invariant]
    pub closed spec fn wf(&self) -> bool {
        distinct_keys(self.entries@)
    }

    /// The entries in storage order.
    pub closed spec fn entries(&self) -> Seq<(String, T)> {
        self.entries@
    }

    /// The storage lists the mapping: storing its entries one by one, in
    /// storage order, into an empty map gives `self@`.
    pub proof fn lemma_listing(&self)
        requires
            self.wf(),
        ensures
            insert_all(Map::<Seq<char>, T>::empty(), by_text(self.entries())) == self@,
    {
        lemma_entries_round_trip(self.entries@);
    }

    /// A map without entries.
    pub fn new() -> (m: IdMap<T>)
        ensures
            m@ == Map::<Seq<char>, T>::empty(),
    {
        let m = IdMap { entries: Vec::new() };
        assert(m@ =~= Map::<Seq<char>, T>::empty());
        m
    }

    /// The number of identifiers in the map.
    pub fn len(&self) -> (n: usize)
        ensures
            n == self@.dom().len(),
            n == self.entries().len(),
    {
        proof {
            use_type_invariant(&*self);
            lemma_mapping_size(self.entries@);
        }
        self.entries.len()
    }

    /// Whether the map has no entries.
    pub fn is_empty(&self) -> (b: bool)
        ensures
            b == (self@.dom().len() == 0),
    {
        self.len() == 0
    }

    fn find(&self, id: &String) -> (found: Option<usize>)
        ensures
            match found {
                Some(i) => i < self.entries@.len() && self.entries@[i as int].0@ == id@,
                None => !has_key(self.entries@, id@),
            },
    {
        let mut i: usize = 0;
        while i < self.entries.len()
            invariant
                i <= self.entries@.len(),
                forall|j: int| 0 <= j < i ==> (#[trigger] self.entries@[j]).0@ != id@,
            decreases self.entries@.len() - i,
        {
            if self.entries[i].0 == *id {
                return Some(i);
            }
            i += 1;
        }
        None
    }

    /// Whether something is stored under `id`.
    pub fn contains_key(&self, id: &String) -> (b: bool)
        ensures
            b == self@.dom().contains(id@),
    {
        self.find(id).is_some()
    }

    /// The value stored under `id`, if there is one.
    pub fn get(&self, id: &String) -> (value: Option<&T>)
        ensures
            match value {
                Some(v) => self@.dom().contains(id@) && *v == self@[id@],
                None => !self@.dom().contains(id@),
            },
    {
        match self.find(id) {
            Some(i) => {
                proof {
                    use_type_invariant(&*self);
                    lemma_entry_is_mapped(self.entries@, i as int);
                }
                Some(&self.entries[i].1)
            },
            None => None,
        }
    }

    /// Stores `value` under `id`, replacing what was stored there. Returns
    /// the value that was replaced.
    pub fn insert(&mut self, id: String, value: T) -> (previous: Option<T>)
        ensures
            final(self)@ == old(self)@.insert(id@, value),
            previous == if old(self)@.dom().contains(id@) {
                Some(old(self)@[id@])
            } else {
                None::<T>
            },
    {
        proof {
            use_type_invariant(&*self);
        }
        let ghost before = self.entries@;
        let ghost key = id@;
        let found = self.find(&id);
        let mut entries: Vec<(String, T)> = Vec::new();
        core::mem::swap(&mut entries, &mut self.entries);
        match found {
            Some(i) => {
                let mut entry = (id, value);
                entries.set_and_swap(i, &mut entry);
                proof {
                    let after = entries@;
                    lemma_entry_is_mapped(before, i as int);
                    assert(distinct_keys(after)) by {
                        assert forall|a: int, b: int| 0 <= a < b < after.len() implies (
                        #[trigger] after[a]).0@ != (#[trigger] after[b]).0@ by {
                            assert(after[a].0@ == before[a].0@);
                            assert(after[b].0@ == before[b].0@);
                        }
                    }
                    assert forall|k: Seq<char>| has_key(after, k) == has_key(before, k) by {
                        if has_key(before, k) {
                            let p = position_of(before, k);
                            assert(after[p].0@ == k);
                        }
                        if has_key(after, k) {
                            let p = position_of(after, k);
                            assert(before[p].0@ == k);
                        }
                    }
                    assert forall|k: Seq<char>| has_key(after, k) implies mapping_of(after)[k]
                        == mapping_of(before).insert(key, value)[k] by {
                        let p = position_of(after, k);
                        lemma_entry_is_mapped(after, p);
                        if k != key {
                            assert(p != i);
                            lemma_entry_is_mapped(before, p);
                        } else {
                            lemma_entry_is_mapped(after, i as int);
                        }
                    }
                    assert(mapping_of(after) =~= mapping_of(before).insert(key, value));
                }
                self.entries = entries;
                Some(entry.1)
            },
            None => {
                entries.push((id, value));
                proof {
                    let after = entries@;
                    let n = before.len() as int;
                    assert(distinct_keys(after)) by {
                        assert forall|a: int, b: int| 0 <= a < b < after.len() implies (
                        #[trigger] after[a]).0@ != (#[trigger] after[b]).0@ by {
                            assert(after[a] == before[a]);
                            if b < n {
                                assert(after[b] == before[b]);
                            }
                        }
                    }
                    assert forall|k: Seq<char>| has_key(after, k) == (has_key(before, k) || k
                        == key) by {
                        if has_key(before, k) {
                            let p = position_of(before, k);
                            assert(after[p].0@ == k);
                        }
                        if k == key {
                            assert(after[n].0@ == k);
                        }
                        if has_key(after, k) {
                            let p = position_of(after, k);
                            if p < n {
                                assert(before[p].0@ == k);
                            }
                        }
                    }
                    assert forall|k: Seq<char>| has_key(after, k) implies mapping_of(after)[k]
                        == mapping_of(before).insert(key, value)[k] by {
                        let p = position_of(after, k);
                        lemma_entry_is_mapped(after, p);
                        if k != key {
                            assert(p < n);
                            assert(after[p] == before[p]);
                            lemma_entry_is_mapped(before, p);
                        } else {
                            lemma_entry_is_mapped(after, n);
                        }
                    }
                    assert(mapping_of(after) =~= mapping_of(before).insert(key, value));
                }
                self.entries = entries;
                None
            },
        }
    }

    /// The identifier at storage position `index`.
    pub fn key_at(&self, index: usize) -> (id: &String)
        requires
            index < self.entries().len(),
        ensures
            *id == self.entries()[index as int].0,
            self@.dom().contains(id@),
    {
        proof {
            use_type_invariant(&*self);
            lemma_entry_is_mapped(self.entries@, index as int);
        }
        &self.entries[index].0
    }

    /// The value at storage position `index`.
    pub fn value_at(&self, index: usize) -> (value: &T)
        requires
            index < self.entries().len(),
        ensures
            *value == self.entries()[index as int].1,
            *value == self@[self.entries()[index as int].0@],
    {
        proof {
            use_type_invariant(&*self);
            lemma_entry_is_mapped(self.entries@, index as int);
        }
        &self.entries[index].1
    }
}

/// A sequence of entries with distinct identifiers stands for a finite
/// mapping with as many identifiers as there are entries.
pub proof fn lemma_mapping_size<T>(entries: Seq<(String, T)>)
    requires
        distinct_keys(entries),
    ensures
        mapping_of(entries).dom().finite(),
        mapping_of(entries).dom().len() == entries.len(),
    decreases entries.len(),
{
    let dom = mapping_of(entries).dom();
    if entries.len() == 0 {
        assert(dom =~= Set::<Seq<char>>::empty());
    } else {
        let init = entries.drop_last();
        let last_key = entries.last().0@;
        assert(distinct_keys(init)) by {
            assert forall|a: int, b: int| 0 <= a < b < init.len() implies (#[trigger] init[a]).0@
                != (#[trigger] init[b]).0@ by {
                assert(init[a] == entries[a]);
                assert(init[b] == entries[b]);
            }
        }
        lemma_mapping_size(init);
        let init_dom = mapping_of(init).dom();
        assert(!init_dom.contains(last_key)) by {
            if has_key(init, last_key) {
                let p = position_of(init, last_key);
                assert(init[p] == entries[p]);
                assert(entries[p].0@ != entries[entries.len() - 1].0@);
            }
        }
        assert(dom =~= init_dom.insert(last_key)) by {
            assert forall|k: Seq<char>| dom.contains(k) == init_dom.insert(last_key).contains(
                k,
            ) by {
                if has_key(init, k) {
                    let p = position_of(init, k);
                    assert(entries[p] == init[p]);
                }
                if k == last_key {
                    assert(entries[entries.len() - 1].0@ == k);
                }
                if has_key(entries, k) {
                    let p = position_of(entries, k);
                    if p < init.len() {
                        assert(init[p] == entries[p]);
                    }
                }
            }
        }
    }
}

/// The map that results from storing `entries` into `m`, one after the
/// other. A later entry replaces an earlier one under the same key.
pub open spec fn insert_all<K, V>(m: Map<K, V>, entries: Seq<(K, V)>) -> Map<K, V>
    decreases entries.len(),
{
    if entries.len() == 0 {
        m
    } else {
        insert_all(m, entries.drop_last()).insert(entries.last().0, entries.last().1)
    }
}

/// Storing two runs of entries one after the other is storing their
/// concatenation.
pub proof fn lemma_insert_all_concat<K, V>(m: Map<K, V>, a: Seq<(K, V)>, b: Seq<(K, V)>)
    ensures
        insert_all(m, a + b) == insert_all(insert_all(m, a), b),
    decreases b.len(),
{
    if b.len() == 0 {
        assert(a + b =~= a);
    } else {
        lemma_insert_all_concat(m, a, b.drop_last());
        assert((a + b).drop_last() =~= a + b.drop_last());
    }
}

/// Storing one more entry of a run is an insertion into what the entries
/// before it gave.
pub proof fn lemma_insert_all_step<K, V>(m: Map<K, V>, entries: Seq<(K, V)>, k: int)
    requires
        0 <= k < entries.len(),
    ensures
        insert_all(m, entries.take(k + 1)) == insert_all(m, entries.take(k)).insert(
            entries[k].0,
            entries[k].1,
        ),
{
    assert(entries.take(k + 1).drop_last() =~= entries.take(k));
}

/// The entries of a sequence with their identifiers as texts.
pub open spec fn by_text<T>(entries: Seq<(String, T)>) -> Seq<(Seq<char>, T)> {
    Seq::new(entries.len(), |i: int| (entries[i].0@, entries[i].1))
}

/// A map survives being listed and filled again: inserting the entries of
/// a map into an empty map, in storage order, gives the same map.
pub proof fn lemma_entries_round_trip<T>(entries: Seq<(String, T)>)
    requires
        distinct_keys(entries),
    ensures
        insert_all(Map::<Seq<char>, T>::empty(), by_text(entries)) == mapping_of(entries),
    decreases entries.len(),
{
    let filled = insert_all(Map::<Seq<char>, T>::empty(), by_text(entries));
    if entries.len() == 0 {
        assert(mapping_of(entries) =~= Map::<Seq<char>, T>::empty());
    } else {
        let init = entries.drop_last();
        let last = entries.last();
        assert(distinct_keys(init)) by {
            assert forall|a: int, b: int| 0 <= a < b < init.len() implies (#[trigger] init[a]).0@
                != (#[trigger] init[b]).0@ by {
                assert(init[a] == entries[a]);
                assert(init[b] == entries[b]);
            }
        }
        lemma_entries_round_trip(init);
        assert(by_text(entries).drop_last() =~= by_text(init));
        assert forall|k: Seq<char>| has_key(entries, k) == (has_key(init, k) || k == last.0@) by {
            if has_key(init, k) {
                let p = position_of(init, k);
                assert(entries[p] == init[p]);
            }
            if k == last.0@ {
                assert(entries[entries.len() - 1].0@ == k);
            }
            if has_key(entries, k) {
                let p = position_of(entries, k);
                if p < init.len() {
                    assert(init[p] == entries[p]);
                }
            }
        }
        assert forall|k: Seq<char>| has_key(entries, k) implies mapping_of(entries)[k] == filled[k] by {
            let p = position_of(entries, k);
            lemma_entry_is_mapped(entries, p);
            if k != last.0@ {
                assert(init[p] == entries[p]);
                lemma_entry_is_mapped(init, p);
            } else {
                lemma_entry_is_mapped(entries, entries.len() - 1);
            }
        }
        assert(mapping_of(entries) =~= filled);
    }
}

} // verus!
