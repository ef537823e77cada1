//! A finite map from variable names to variable names.

use vstd::prelude::*;

verus! {

/// A finite map from variable names to new variable names; each name is
/// a key at most once.
pub struct VarMap {
    entries: Vec<(String, String)>,
}

/// Whether `k` is a key of some entry.
pub open spec fn has_key(s: Seq<(String, String)>, k: Seq<char>) -> bool {
    exists|i: int| 0 <= i < s.len() && (#[trigger] s[i]).0@ == k
}

/// The map that a list of entries with distinct keys denotes.
pub open spec fn entries_map(s: Seq<(String, String)>) -> Map<Seq<char>, Seq<char>> {
    Map::new(
        |k: Seq<char>| has_key(s, k),
        |k: Seq<char>| s[choose|i: int| 0 <= i < s.len() && (#[trigger] s[i]).0@ == k].1@,
    )
}

/// No two entries have the same key.
pub open spec fn distinct_keys(s: Seq<(String, String)>) -> bool {
    forall|i: int, j: int|
        0 <= i < s.len() && 0 <= j < s.len() && i != j ==> (#[trigger] s[i]).0@ != (#[trigger] s[j]).0@
}

impl View for VarMap {
    type V = Map<Seq<char>, Seq<char>>;

    closed spec fn view(&self) -> Map<Seq<char>, Seq<char>> {
        entries_map(self.entries@)
    }
}

/// The entry at index `i` gives the map's value for its key.
proof fn lemma_entry_value(s: Seq<(String, String)>, i: int)
    requires
        distinct_keys(s),
        0 <= i < s.len(),
    ensures
        entries_map(s).dom().contains(s[i].0@),
        entries_map(s)[s[i].0@] == s[i].1@,
{
    assert(has_key(s, s[i].0@));
    let j = choose|j: int| 0 <= j < s.len() && (#[trigger] s[j]).0@ == s[i].0@;
    assert(j == i);
}

impl VarMap {
    #[verifier::type_invariant]
    closed spec fn keys_distinct(self) -> bool {
        distinct_keys(self.entries@)
    }

    /// The empty map.
    pub fn new() -> (r: VarMap)
        ensures
            r@ == Map::<Seq<char>, Seq<char>>::empty(),
    {
        let r = VarMap { entries: Vec::new() };
        assert(r@ =~= Map::<Seq<char>, Seq<char>>::empty());
        r
    }

    /// The number of keys.
    pub fn len(&self) -> (r: usize)
        ensures
            r == self@.len(),
    {
        proof {
            use_type_invariant(self);
            self.lemma_len();
        }
        self.entries.len()
    }

    proof fn lemma_len(&self)
        requires
            distinct_keys(self.entries@),
        ensures
            self@.len() == self.entries@.len(),
            self@.dom().finite(),
    {
        let s = self.entries@;
        let keys = Seq::new(s.len(), |i: int| s[i].0@);
        assert forall|i: int, j: int| 0 <= i < keys.len() && 0 <= j < keys.len() && i != j implies keys[i]
            != keys[j] by {
            assert(s[i].0@ != s[j].0@);
        }
        keys.unique_seq_to_set();
        assert(keys.to_set() =~= self@.dom()) by {
            assert forall|k: Seq<char>| keys.to_set().contains(k) implies self@.dom().contains(k) by {
                let i = choose|i: int| 0 <= i < keys.len() && keys[i] == k;
                assert(s[i].0@ == k);
            }
            assert forall|k: Seq<char>| self@.dom().contains(k) implies keys.to_set().contains(k) by {
                let i = choose|i: int| 0 <= i < s.len() && (#[trigger] s[i]).0@ == k;
                assert(keys[i] == k);
            }
        }
    }

    /// The value for `key`, if `key` is mapped.
    pub fn get(&self, key: &String) -> (r: Option<&String>)
        ensures
            self@.dom().contains(key@) <==> r is Some,
            r matches Some(v) ==> v@ == self@[key@],
    {
        proof {
            use_type_invariant(self);
        }
        let mut i: usize = 0;
        while i < self.entries.len()
            invariant
                i <= self.entries@.len(),
                distinct_keys(self.entries@),
                forall|j: int| 0 <= j < i ==> (#[trigger] self.entries@[j]).0@ != key@,
            decreases self.entries@.len() - i,
        {
            if self.entries[i].0 == *key {
                proof {
                    lemma_entry_value(self.entries@, i as int);
                }
                return Some(&self.entries[i].1);
            }
            i = i + 1;
        }
        None
    }

    /// Maps `key` to `value`, replacing any earlier value for `key`.
    pub fn insert(&mut self, key: String, value: String)
        ensures
            final(self)@ == old(self)@.insert(key@, value@),
    {
        proof {
            use_type_invariant(&*self);
        }
        let ghost old_entries = self.entries@;
        let mut i: usize = 0;
        while i < self.entries.len()
            invariant
                i <= self.entries@.len(),
                self.entries@ == old_entries,
                old(self).entries@ == old_entries,
                distinct_keys(old_entries),
                forall|j: int| 0 <= j < i ==> (#[trigger] old_entries[j]).0@ != key@,
            decreases self.entries@.len() - i,
        {
            if self.entries[i].0 == key {
                let ghost k = key@;
                let ghost v = value@;
                let mut entries: Vec<(String, String)> = Vec::new();
                std::mem::swap(&mut entries, &mut self.entries);
                entries.set(i, (key, value));
                let ghost s = entries@;
                assert(s == old_entries.update(i as int, s[i as int]));
                assert(distinct_keys(s)) by {
                    assert forall|a: int, b: int|
                        0 <= a < s.len() && 0 <= b < s.len() && a != b implies (#[trigger] s[a]).0@
                        != (#[trigger] s[b]).0@ by {
                        assert(old_entries[a].0@ != old_entries[b].0@);
                    }
                }
                proof {
                    assert forall|a: int| 0 <= a < s.len() implies entries_map(s).dom().contains(
                        (#[trigger] s[a]).0@,
                    ) && entries_map(s)[s[a].0@] == s[a].1@ by {
                        lemma_entry_value(s, a);
                    }
                    assert forall|a: int| 0 <= a < s.len() implies entries_map(old_entries).dom().contains(
                        (#[trigger] old_entries[a]).0@,
                    ) && entries_map(old_entries)[old_entries[a].0@] == old_entries[a].1@ by {
                        lemma_entry_value(old_entries, a);
                    }
                    assert(entries_map(s) =~= entries_map(old_entries).insert(k, v)) by {
                        assert forall|kk: Seq<char>|
                            #[trigger] entries_map(s).dom().contains(kk) implies entries_map(
                            old_entries,
                        ).insert(k, v).dom().contains(kk) by {
                            let a = choose|a: int| 0 <= a < s.len() && (#[trigger] s[a]).0@ == kk;
                            if a != i {
                                assert(old_entries[a].0@ == kk);
                            }
                        }
                        assert forall|kk: Seq<char>|
                            #[trigger] entries_map(old_entries).insert(k, v).dom().contains(
                                kk,
                            ) implies entries_map(s).dom().contains(kk) by {
                            if kk != k {
                                let a = choose|a: int|
                                    0 <= a < old_entries.len() && (#[trigger] old_entries[a]).0@ == kk;
                                assert(s[a].0@ == kk);
                            } else {
                                assert(s[i as int].0@ == kk);
                            }
                        }
                        assert forall|kk: Seq<char>|
                            #[trigger] entries_map(s).dom().contains(kk) implies entries_map(s)[kk]
                            == entries_map(old_entries).insert(k, v)[kk] by {
                            let a = choose|a: int| 0 <= a < s.len() && (#[trigger] s[a]).0@ == kk;
                            if a != i {
                                assert(old_entries[a].0@ == kk);
                            }
                        }
                    }
                }
                self.entries = entries;
                return ;
            }
            i = i + 1;
        }
        let ghost k = key@;
        let ghost v = value@;
        let mut entries: Vec<(String, String)> = Vec::new();
                std::mem::swap(&mut entries, &mut self.entries);
        entries.push((key, value));
        let ghost s = entries@;
        assert(distinct_keys(s)) by {
            assert forall|a: int, b: int|
                0 <= a < s.len() && 0 <= b < s.len() && a != b implies (#[trigger] s[a]).0@ != (
            #[trigger] s[b]).0@ by {
                if a < old_entries.len() && b < old_entries.len() {
                    assert(old_entries[a].0@ != old_entries[b].0@);
                } else if a < old_entries.len() {
                    assert(old_entries[a].0@ != k);
                } else {
                    assert(old_entries[b].0@ != k);
                }
            }
        }
        proof {
            assert forall|a: int| 0 <= a < s.len() implies entries_map(s).dom().contains(
                (#[trigger] s[a]).0@,
            ) && entries_map(s)[s[a].0@] == s[a].1@ by {
                lemma_entry_value(s, a);
            }
            assert forall|a: int| 0 <= a < old_entries.len() implies entries_map(old_entries).dom().contains(
                (#[trigger] old_entries[a]).0@,
            ) && entries_map(old_entries)[old_entries[a].0@] == old_entries[a].1@ by {
                lemma_entry_value(old_entries, a);
            }
            assert(entries_map(s) =~= entries_map(old_entries).insert(k, v)) by {
                assert forall|kk: Seq<char>|
                    #[trigger] entries_map(s).dom().contains(kk) implies entries_map(old_entries).insert(
                    k,
                    v,
                ).dom().contains(kk) by {
                    let a = choose|a: int| 0 <= a < s.len() && (#[trigger] s[a]).0@ == kk;
                    if a < old_entries.len() {
                        assert(old_entries[a].0@ == kk);
                    }
                }
                assert forall|kk: Seq<char>|
                    #[trigger] entries_map(old_entries).insert(k, v).dom().contains(kk) implies entries_map(
                    s,
                ).dom().contains(kk) by {
                    if kk != k {
                        let a = choose|a: int|
                            0 <= a < old_entries.len() && (#[trigger] old_entries[a]).0@ == kk;
                        assert(s[a].0@ == kk);
                    } else {
                        assert(s[old_entries.len() as int].0@ == kk);
                    }
                }
                assert forall|kk: Seq<char>|
                    #[trigger] entries_map(s).dom().contains(kk) implies entries_map(s)[kk]
                    == entries_map(old_entries).insert(k, v)[kk] by {
                    let a = choose|a: int| 0 <= a < s.len() && (#[trigger] s[a]).0@ == kk;
                    if a < old_entries.len() {
                        assert(old_entries[a].0@ == kk);
                    }
                }
            }
        }
        self.entries = entries;
    }
}

} // verus!
