use vstd::prelude::*;

verus! {

/// The map that a sequence of key-value pairs denotes: later entries win,
/// though a well-formed `UMap` never holds a key twice.
pub open spec fn map_of<V>(s: Seq<(u128, V)>) -> Map<u128, V>
    decreases s.len(),
{
    if s.len() == 0 {
        Map::empty()
    } else {
        map_of(s.drop_last()).insert(s.last().0, s.last().1)
    }
}

/// No key occurs twice in `s`.
pub open spec fn unique_keys<V>(s: Seq<(u128, V)>) -> bool {
    forall|i: int, j: int| 0 <= i < j < s.len() ==> s[i].0 != s[j].0
}

pub proof fn lemma_map_of_contains<V>(s: Seq<(u128, V)>, k: u128)
    ensures
        map_of(s).contains_key(k) <==> exists|i: int| 0 <= i < s.len() && s[i].0 == k,
    decreases s.len(),
{
    if s.len() > 0 {
        lemma_map_of_contains(s.drop_last(), k);
        if s.last().0 != k && map_of(s).contains_key(k) {
            let i = choose|i: int| 0 <= i < s.drop_last().len() && s.drop_last()[i].0 == k;
            assert(s[i].0 == k);
        }
        if exists|i: int| 0 <= i < s.len() && s[i].0 == k {
            let i = choose|i: int| 0 <= i < s.len() && s[i].0 == k;
            if i < s.len() - 1 {
                assert(s.drop_last()[i].0 == k);
            }
        }
    }
}

pub proof fn lemma_map_of_index<V>(s: Seq<(u128, V)>, i: int)
    requires
        unique_keys(s),
        0 <= i < s.len(),
    ensures
        map_of(s).contains_key(s[i].0),
        map_of(s)[s[i].0] == s[i].1,
    decreases s.len(),
{
    lemma_map_of_contains(s, s[i].0);
    if i < s.len() - 1 {
        assert(s.drop_last()[i] == s[i]);
        lemma_map_of_index(s.drop_last(), i);
        assert(s.last().0 != s[i].0);
    }
}

/// The domain of the denoted map is exactly the set of keys in `s`, so with
/// unique keys the entry count and the domain size agree.
pub proof fn lemma_map_of_dom_len<V>(s: Seq<(u128, V)>)
    requires
        unique_keys(s),
    ensures
        map_of(s).dom().finite(),
        map_of(s).dom().len() == s.len(),
    decreases s.len(),
{
    if s.len() == 0 {
        assert(map_of(s).dom() =~= Set::<u128>::empty());
    } else {
        lemma_map_of_dom_len(s.drop_last());
        lemma_map_of_contains(s.drop_last(), s.last().0);
        assert(map_of(s).dom() =~= map_of(s.drop_last()).dom().insert(s.last().0));
        vstd::set::axiom_set_insert_len(map_of(s.drop_last()).dom(), s.last().0);
    }
}

proof fn lemma_map_of_remove_at<V>(s: Seq<(u128, V)>, i: int)
    requires
        unique_keys(s),
        0 <= i < s.len(),
    ensures
        map_of(s.remove(i)) == map_of(s).remove(s[i].0),
        unique_keys(s.remove(i)),
    decreases s.len(),
{
    let k = s[i].0;
    assert forall|a: int, b: int| 0 <= a < b < s.remove(i).len() implies s.remove(i)[a].0 != s.remove(
        i,
    )[b].0 by {
        assert(s.remove(i)[a] == if a < i {
            s[a]
        } else {
            s[a + 1]
        });
        assert(s.remove(i)[b] == if b < i {
            s[b]
        } else {
            s[b + 1]
        });
    }
    if i == s.len() - 1 {
        assert(s.remove(i) =~= s.drop_last());
        lemma_map_of_contains(s.drop_last(), k);
        assert(map_of(s.drop_last()).remove(k) =~= map_of(s.drop_last()));
        assert(map_of(s).remove(k) =~= map_of(s.drop_last()));
    } else {
        lemma_map_of_remove_at(s.drop_last(), i);
        assert(s.remove(i).drop_last() =~= s.drop_last().remove(i));
        assert(s.remove(i).last() == s.last());
        assert(map_of(s.remove(i))
            == map_of(s.drop_last().remove(i)).insert(s.last().0, s.last().1));
        assert(map_of(s).remove(k) =~= map_of(s.drop_last()).remove(k).insert(
            s.last().0,
            s.last().1,
        ));
    }
}

/// Whether an entry list already holds key `k`.
pub fn entries_contain<V>(es: &Vec<(u128, V)>, k: u128) -> (r: bool)
    ensures
        r == exists|j: int| 0 <= j < es@.len() && (#[trigger] es@[j]).0 == k,
{
    let n = es.len();
    for j in 0..n
        invariant
            n == es@.len(),
            forall|i: int| 0 <= i < j ==> (#[trigger] es@[i]).0 != k,
    {
        if es[j].0 == k {
            return true;
        }
    }
    false
}

/// A finite map from 128-bit keys to values, held as a list of entries with
/// pairwise distinct keys. Iteration order is the insertion order, which
/// keeps every walk over the map deterministic.
#[derive(Clone, Debug, PartialEq, Eq)]
pub struct UMap<V> {
    pub entries: Vec<(u128, V)>,
}

impl<V> UMap<V> {
    /// The map this value denotes.
    pub open spec fn view(self) -> Map<u128, V> {
        map_of(self.entries@)
    }

    /// Entry keys are pairwise distinct.
    pub open spec fn wf(self) -> bool {
        unique_keys(self.entries@)
    }

    /// The empty map.
    pub fn new() -> (r: UMap<V>)
        ensures
            r.wf(),
            r@ == Map::<u128, V>::empty(),
            r.entries@.len() == 0,
    {
        UMap { entries: Vec::new() }
    }

    /// How many keys the map holds.
    pub fn len(&self) -> (r: usize)
        requires
            self.wf(),
        ensures
            r == self.entries@.len(),
            r == self@.dom().len(),
    {
        proof {
            lemma_map_of_dom_len(self.entries@);
        }
        self.entries.len()
    }

    /// The position of `k` among the entries, if it is present.
    fn index_of(&self, k: u128) -> (r: Option<usize>)
        ensures
            match r {
                Some(i) => i < self.entries@.len() && self.entries@[i as int].0 == k,
                None => forall|i: int| 0 <= i < self.entries@.len() ==> self.entries@[i].0 != k,
            },
    {
        let n = self.entries.len();
        for i in 0..n
            invariant
                n == self.entries@.len(),
                forall|j: int| 0 <= j < i ==> self.entries@[j].0 != k,
        {
            if self.entries[i].0 == k {
                return Some(i);
            }
        }
        None
    }

    /// Whether `k` is present.
    pub fn contains_key(&self, k: u128) -> (r: bool)
        ensures
            r == self@.contains_key(k),
    {
        proof {
            lemma_map_of_contains(self.entries@, k);
        }
        self.index_of(k).is_some()
    }

    /// The value bound to `k`, if any.
    pub fn get(&self, k: u128) -> (r: Option<&V>)
        requires
            self.wf(),
        ensures
            match r {
                Some(v) => self@.contains_key(k) && *v == self@[k],
                None => !self@.contains_key(k),
            },
    {
        proof {
            lemma_map_of_contains(self.entries@, k);
        }
        match self.index_of(k) {
            Some(i) => {
                proof {
                    lemma_map_of_index(self.entries@, i as int);
                }
                Some(&self.entries[i].1)
            },
            None => None,
        }
    }

    /// Bind `k` to `v`, replacing any earlier binding.
    pub fn insert(&mut self, k: u128, v: V)
        requires
            old(self).wf(),
        ensures
            final(self).wf(),
            final(self)@ == old(self)@.insert(k, v),
            final(self).entries@.len() <= old(self).entries@.len() + 1,
    {
        match self.index_of(k) {
            Some(i) => {
                proof {
                    lemma_map_of_remove_at(self.entries@, i as int);
                }
                let ghost pre = self.entries@;
                self.entries.remove(i);
                self.entries.push((k, v));
                proof {
                    assert(self.entries@.drop_last() =~= pre.remove(i as int));
                    assert(map_of(self.entries@) =~= old(self)@.insert(k, v));
                    assert forall|a: int, b: int|
                        0 <= a < b < self.entries@.len() implies self.entries@[a].0
                        != self.entries@[b].0 by {
                        if b < self.entries@.len() - 1 {
                            assert(self.entries@[a] == pre.remove(i as int)[a]);
                            assert(self.entries@[b] == pre.remove(i as int)[b]);
                            assert(pre.remove(i as int)[a] == if a < i {
                                pre[a]
                            } else {
                                pre[a + 1]
                            });
                            assert(pre.remove(i as int)[b] == if b < i {
                                pre[b]
                            } else {
                                pre[b + 1]
                            });
                        } else {
                            lemma_map_of_contains(pre.remove(i as int), k);
                            assert(self.entries@[a] == pre.remove(i as int)[a]);
                        }
                    }
                }
            },
            None => {
                self.entries.push((k, v));
                proof {
                    assert(self.entries@.drop_last() =~= old(self).entries@);
                    assert(map_of(self.entries@) =~= old(self)@.insert(k, v));
                }
            },
        }
    }

    /// Drop the binding of `k`, if any.
    pub fn remove(&mut self, k: u128)
        requires
            old(self).wf(),
        ensures
            final(self).wf(),
            final(self)@ == old(self)@.remove(k),
    {
        match self.index_of(k) {
            Some(i) => {
                proof {
                    lemma_map_of_remove_at(self.entries@, i as int);
                }
                self.entries.remove(i);
            },
            None => {
                proof {
                    lemma_map_of_contains(self.entries@, k);
                    assert(map_of(self.entries@).remove(k) =~= map_of(self.entries@));
                }
            },
        }
    }

    /// The entry at position `i`, for ordered walks over the map.
    pub fn entry_at(&self, i: usize) -> (r: &(u128, V))
        requires
            self.wf(),
            i < self.entries@.len(),
        ensures
            *r == self.entries@[i as int],
            self@.contains_key(r.0),
            self@[r.0] == r.1,
    {
        proof {
            lemma_map_of_index(self.entries@, i as int);
        }
        &self.entries[i]
    }
}

} // verus!
