//! A map from strings to strings, kept as a list of entries with distinct keys.

use crate::text::str_equal;
use vstd::prelude::*;

verus! {

/// The texts of an entry list.
pub open spec fn entry_views(e: Seq<(String, String)>) -> Seq<(Seq<char>, Seq<char>)> {
    e.map_values(|p: (String, String)| (p.0@, p.1@))
}

/// No key occurs twice.
pub open spec fn distinct_keys(e: Seq<(Seq<char>, Seq<char>)>) -> bool {
    forall|i: int, j: int| 0 <= i < j < e.len() ==> e[i].0 != e[j].0
}

/// The key occurs in the entries.
pub open spec fn has_key(e: Seq<(Seq<char>, Seq<char>)>, k: Seq<char>) -> bool {
    exists|i: int| 0 <= i < e.len() && e[i].0 == k
}

/// The map the entries stand for.
pub open spec fn entries_map(e: Seq<(Seq<char>, Seq<char>)>) -> Map<Seq<char>, Seq<char>> {
    Map::new(
        |k: Seq<char>| has_key(e, k),
        |k: Seq<char>| e[choose|i: int| 0 <= i < e.len() && e[i].0 == k].1,
    )
}

/// A map from strings to strings. Inserting a key that is already present
/// replaces its value, as `HashMap::insert` does.
#[derive(Debug)]
pub struct StringMap {
    entries: Vec<(String, String)>,
}

impl View for StringMap {
    type V = Map<Seq<char>, Seq<char>>;

    closed spec fn view(&self) -> Map<Seq<char>, Seq<char>> {
        entries_map(entry_views(self.entries@))
    }
}

impl StringMap {
    #[verifier::type_invariant]
    closed spec fn wf(self) -> bool {
        distinct_keys(entry_views(self.entries@))
    }

    /// An empty map.
    pub fn new() -> (res: Self)
        ensures
            res@ == Map::<Seq<char>, Seq<char>>::empty(),
    {
        let res = StringMap { entries: Vec::new() };
        assert(res@ =~= Map::<Seq<char>, Seq<char>>::empty());
        res
    }

    /// The number of keys.
    pub fn len(&self) -> (res: usize)
        ensures
            res == self@.len(),
    {
        proof {
            use_type_invariant(self);
            self.lemma_len();
        }
        self.entries.len()
    }

    proof fn lemma_len(&self)
        requires
            distinct_keys(entry_views(self.entries@)),
        ensures
            self@.dom().finite(),
            self@.len() == self.entries@.len(),
        decreases self.entries@.len(),
    {
        let e = entry_views(self.entries@);
        let keys = Seq::new(e.len(), |i: int| e[i].0);
        assert(self@.dom() =~= keys.to_set()) by {
            assert forall|k: Seq<char>| self@.dom().contains(k) implies keys.to_set().contains(k) by {
                let i = choose|i: int| 0 <= i < e.len() && e[i].0 == k;
                assert(keys[i] == k);
            }
            assert forall|k: Seq<char>| keys.to_set().contains(k) implies self@.dom().contains(k) by {
                let i = choose|i: int| 0 <= i < keys.len() && keys[i] == k;
                assert(e[i].0 == k);
            }
        }
        assert(keys.no_duplicates()) by {
            assert forall|i: int, j: int| 0 <= i < keys.len() && 0 <= j < keys.len() && i != j implies keys[i] != keys[j] by {
                if i < j {
                    assert(e[i].0 != e[j].0);
                } else {
                    assert(e[j].0 != e[i].0);
                }
            }
        }
        keys.unique_seq_to_set();
    }

    /// The value of a key.
    pub fn get(&self, key: &str) -> (res: Option<&String>)
        ensures
            self@.dom().contains(key@) ==> (res matches Some(v) && v@ == self@[key@]),
            !self@.dom().contains(key@) ==> res is None,
    {
        proof {
            use_type_invariant(self);
        }
        let ghost e = entry_views(self.entries@);
        let mut i: usize = 0;
        while i < self.entries.len()
            invariant
                0 <= i <= self.entries@.len(),
                e == entry_views(self.entries@),
                distinct_keys(e),
                forall|j: int| 0 <= j < i ==> e[j].0 != key@,
            decreases self.entries@.len() - i,
        {
            if str_equal(self.entries[i].0.as_str(), key) {
                proof {
                    assert(e[i as int].0 == key@);
                    let c = choose|j: int| 0 <= j < e.len() && e[j].0 == key@;
                    if c != i {
                        if c < i {
                            assert(e[c].0 != e[i as int].0);
                        } else {
                            assert(e[i as int].0 != e[c].0);
                        }
                    }
                }
                return Some(&self.entries[i].1);
            }
            i = i + 1;
        }
        None
    }

    /// Sets the value of a key, replacing the value it had.
    pub fn insert(&mut self, key: String, value: String)
        ensures
            final(self)@ == old(self)@.insert(key@, value@),
    {
        proof {
            use_type_invariant(&*self);
        }
        let ghost e = entry_views(self.entries@);
        let mut i: usize = 0;
        while i < self.entries.len()
            invariant
                self.entries@ == old(self).entries@,
                0 <= i <= self.entries@.len(),
                e == entry_views(self.entries@),
                distinct_keys(e),
                forall|j: int| 0 <= j < i ==> e[j].0 != key@,
            decreases self.entries@.len() - i,
        {
            if str_equal(self.entries[i].0.as_str(), key.as_str()) {
                let ghost old_map = self@;
                let mut entries = Vec::new();
                std::mem::swap(&mut entries, &mut self.entries);
                entries.set(i, (key, value));
                proof {
                    let e2 = entry_views(entries@);
                    assert(e2 =~= e.update(i as int, (key@, value@)));
                    assert forall|a: int, b: int| 0 <= a < b < e2.len() implies e2[a].0 != e2[b].0 by {
                        assert(e[i as int].0 == key@);
                        if a != i && b != i {
                            assert(e2[a] == e[a] && e2[b] == e[b]);
                        }
                    }
                    assert(entries_map(e2) =~= old_map.insert(key@, value@)) by {
                        assert forall|k: Seq<char>| #[trigger] entries_map(e2).dom().contains(k) == old_map.insert(key@, value@).dom().contains(k) by {
                            if has_key(e2, k) {
                                let j = choose|j: int| 0 <= j < e2.len() && e2[j].0 == k;
                                if j != i {
                                    assert(e[j].0 == k);
                                }
                            }
                            if has_key(e, k) {
                                let j = choose|j: int| 0 <= j < e.len() && e[j].0 == k;
                                if j != i {
                                    assert(e2[j].0 == k);
                                } else {
                                    assert(e2[i as int].0 == key@);
                                }
                            }
                            if k == key@ {
                                assert(e2[i as int].0 == k);
                            }
                        }
                        assert forall|k: Seq<char>| #[trigger] entries_map(e2).dom().contains(k) implies entries_map(e2)[k] == old_map.insert(key@, value@)[k] by {
                            let j = choose|j: int| 0 <= j < e2.len() && e2[j].0 == k;
                            if k == key@ {
                                if j != i {
                                    if j < i {
                                        assert(e2[j].0 != e2[i as int].0);
                                    } else {
                                        assert(e2[i as int].0 != e2[j].0);
                                    }
                                }
                            } else {
                                assert(j != i);
                                assert(e[j].0 == k);
                                let m = choose|m: int| 0 <= m < e.len() && e[m].0 == k;
                                if m != j {
                                    if m < j {
                                        assert(e[m].0 != e[j].0);
                                    } else {
                                        assert(e[j].0 != e[m].0);
                                    }
                                }
                            }
                        }
                    }
                }
                self.entries = entries;
                return;
            }
            i = i + 1;
        }
        let ghost old_map = self@;
        let mut entries = Vec::new();
        std::mem::swap(&mut entries, &mut self.entries);
        entries.push((key, value));
        proof {
            let e2 = entry_views(entries@);
            assert(e2 =~= e.push((key@, value@)));
            assert(!has_key(e, key@));
            assert forall|a: int, b: int| 0 <= a < b < e2.len() implies e2[a].0 != e2[b].0 by {
                if b < e.len() {
                    assert(e2[a] == e[a] && e2[b] == e[b]);
                } else {
                    assert(e2[a] == e[a]);
                }
            }
            assert(entries_map(e2) =~= old_map.insert(key@, value@)) by {
                assert forall|k: Seq<char>| #[trigger] entries_map(e2).dom().contains(k) == old_map.insert(key@, value@).dom().contains(k) by {
                    if has_key(e2, k) {
                        let j = choose|j: int| 0 <= j < e2.len() && e2[j].0 == k;
                        if j < e.len() {
                            assert(e[j].0 == k);
                        }
                    }
                    if has_key(e, k) {
                        let j = choose|j: int| 0 <= j < e.len() && e[j].0 == k;
                        assert(e2[j].0 == k);
                    }
                    if k == key@ {
                        assert(e2[e.len() as int].0 == k);
                    }
                }
                assert forall|k: Seq<char>| #[trigger] entries_map(e2).dom().contains(k) implies entries_map(e2)[k] == old_map.insert(key@, value@)[k] by {
                    let j = choose|j: int| 0 <= j < e2.len() && e2[j].0 == k;
                    if k == key@ {
                        if j < e.len() {
                            assert(e[j].0 == key@);
                        }
                    } else {
                        assert(j < e.len());
                        assert(e[j].0 == k);
                        let m = choose|m: int| 0 <= m < e.len() && e[m].0 == k;
                        if m != j {
                            if m < j {
                                assert(e[m].0 != e[j].0);
                            } else {
                                assert(e[j].0 != e[m].0);
                            }
                        }
                    }
                }
            }
        }
        self.entries = entries;
    }

    /// A copy of the map.
    pub fn clone(&self) -> (res: Self)
        ensures
            res@ == self@,
    {
        proof {
            use_type_invariant(self);
        }
        let mut entries: Vec<(String, String)> = Vec::new();
        let mut i: usize = 0;
        while i < self.entries.len()
            invariant
                0 <= i <= self.entries@.len(),
                entries@ == self.entries@.take(i as int),
            decreases self.entries@.len() - i,
        {
            let k = self.entries[i].0.clone();
            let v = self.entries[i].1.clone();
            entries.push((k, v));
            i = i + 1;
            assert(entries@ =~= self.entries@.take(i as int));
        }
        assert(self.entries@.take(i as int) =~= self.entries@);
        StringMap { entries }
    }

    /// The entries, each key once, for handing the map to code that keeps a
    /// `HashMap`.
    pub fn into_pairs(self) -> (res: Vec<(String, String)>)
        ensures
            entries_map(entry_views(res@)) == self@,
            distinct_keys(entry_views(res@)),
    {
        proof {
            use_type_invariant(&self);
        }
        self.entries
    }
}

} // verus!
