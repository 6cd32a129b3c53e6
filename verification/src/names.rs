//! A small name-to-value table with the lookup/insert semantics of a hash
//! map, stored as an association list so that every operation is verified
//! against a first-match lookup function. Keys are character vectors and
//! are unique.

use vstd::prelude::*;
use crate::chars::chars_eq;

verus! {

/// First-match lookup in an association sequence.
pub open spec fn spec_get<V>(s: Seq<(Seq<char>, V)>, k: Seq<char>) -> Option<V>
    decreases s.len(),
{
    if s.len() == 0 {
        None
    } else if s[0].0 == k {
        Some(s[0].1)
    } else {
        spec_get(s.skip(1), k)
    }
}

/// Skipping a prefix that holds no match leaves the lookup unchanged.
pub proof fn lemma_get_skip<V>(s: Seq<(Seq<char>, V)>, k: Seq<char>, i: int)
    requires
        0 <= i <= s.len(),
        forall|j: int| 0 <= j < i ==> s[j].0 != k,
    ensures
        spec_get(s, k) == spec_get(s.skip(i), k),
    decreases i,
{
    if i > 0 {
        assert(s[0].0 != k);
        lemma_get_skip(s.skip(1), k, i - 1);
        assert(s.skip(1).skip(i - 1) =~= s.skip(i));
    } else {
        assert(s.skip(0) =~= s);
    }
}

/// Keys are pairwise distinct.
pub open spec fn spec_keys_unique<V>(s: Seq<(Seq<char>, V)>) -> bool {
    forall|i: int, j: int| 0 <= i < j < s.len() ==> s[i].0 != s[j].0
}

/// Name-keyed table with hash-map semantics: `insert` replaces, lookup
/// finds the unique entry.
#[derive(Debug)]
pub struct NameMap<V> {
    pub entries: Vec<(Vec<char>, V)>,
}

impl<V> View for NameMap<V> {
    type V = Seq<(Seq<char>, V)>;

    open spec fn view(&self) -> Seq<(Seq<char>, V)> {
        self.entries@.map_values(|e: (Vec<char>, V)| (e.0@, e.1))
    }
}

impl<V> NameMap<V> {
    pub open spec fn wf(&self) -> bool {
        spec_keys_unique(self@)
    }

    pub fn new() -> (m: Self)
        ensures
            m@ == Seq::<(Seq<char>, V)>::empty(),
            m.wf(),
    {
        let m = NameMap { entries: Vec::new() };
        proof {
            assert(m@ =~= Seq::<(Seq<char>, V)>::empty());
        }
        m
    }

    pub fn len(&self) -> (n: usize)
        ensures
            n == self@.len(),
    {
        self.entries.len()
    }

    pub fn key_at(&self, i: usize) -> (k: &Vec<char>)
        requires
            i < self@.len(),
        ensures
            k@ == self@[i as int].0,
    {
        &self.entries[i].0
    }

    pub fn value_at(&self, i: usize) -> (v: &V)
        requires
            i < self@.len(),
        ensures
            *v == self@[i as int].1,
    {
        &self.entries[i].1
    }

    /// Index of the entry whose key equals `k`, if any.
    fn find_index(&self, k: &Vec<char>) -> (r: Option<usize>)
        ensures
            match r {
                Some(i) => i < self@.len() && self@[i as int].0 == k@
                    && (forall|j: int| 0 <= j < i ==> self@[j].0 != k@),
                None => forall|j: int| 0 <= j < self@.len() ==> self@[j].0 != k@,
            },
    {
        let mut i: usize = 0;
        while i < self.entries.len()
            invariant
                i <= self@.len(),
                self@.len() == self.entries@.len(),
                forall|j: int| 0 <= j < i ==> self@[j].0 != k@,
            decreases self.entries.len() - i,
        {
            if chars_eq(&self.entries[i].0, k) {
                assert(self@[i as int].0 == k@);
                return Some(i);
            }
            i = i + 1;
        }
        None
    }

    pub fn contains_key(&self, k: &Vec<char>) -> (b: bool)
        ensures
            b == (spec_get(self@, k@) is Some),
    {
        match self.find_index(k) {
            Some(i) => {
                proof {
                    lemma_get_skip(self@, k@, i as int);
                    assert(self@.skip(i as int)[0] == self@[i as int]);
                }
                true
            },
            None => {
                proof {
                    lemma_get_skip(self@, k@, self@.len() as int);
                    assert(self@.skip(self@.len() as int) =~= Seq::<(Seq<char>, V)>::empty());
                }
                false
            },
        }
    }

    pub fn get(&self, k: &Vec<char>) -> (r: Option<&V>)
        ensures
            match r {
                Some(v) => spec_get(self@, k@) == Some(*v),
                None => spec_get(self@, k@) is None,
            },
    {
        match self.find_index(k) {
            Some(i) => {
                proof {
                    lemma_get_skip(self@, k@, i as int);
                    assert(self@.skip(i as int)[0] == self@[i as int]);
                }
                Some(&self.entries[i].1)
            },
            None => {
                proof {
                    lemma_get_skip(self@, k@, self@.len() as int);
                    assert(self@.skip(self@.len() as int) =~= Seq::<(Seq<char>, V)>::empty());
                }
                None
            },
        }
    }

    /// Hash-map insert: replaces the entry if the key is present, appends
    /// it otherwise.
    pub fn insert(&mut self, k: Vec<char>, v: V)
        requires
            old(self).wf(),
        ensures
            final(self).wf(),
            forall|k2: Seq<char>|
                spec_get(#[trigger] final(self)@, k2) == if k2 == k@ {
                    Some(v)
                } else {
                    spec_get(old(self)@, k2)
                },
            spec_get(old(self)@, k@) is None ==> final(self)@ == old(self)@.push((k@, v)),
    {
        let ghost old_view = self@;
        match self.find_index(&k) {
            Some(i) => {
                let _ = self.entries.remove(i);
                self.entries.insert(i, (k, v));
                proof {
                    assert(self@ =~= old_view.update(i as int, (k@, v)));
                    lemma_update_get(old_view, i as int, k@, v);
                    lemma_get_skip(old_view, k@, i as int);
                    assert(old_view.skip(i as int)[0] == old_view[i as int]);
                }
            },
            None => {
                self.entries.push((k, v));
                proof {
                    assert(self@ =~= old_view.push((k@, v)));
                    lemma_push_get(old_view, k@, v);
                    lemma_get_skip(old_view, k@, old_view.len() as int);
                    assert(old_view.skip(old_view.len() as int)
                        =~= Seq::<(Seq<char>, V)>::empty());
                }
            },
        }
    }
}

/// Replacing the unique entry for a key updates the lookup at that key
/// and leaves every other key alone.
proof fn lemma_update_get<V>(s: Seq<(Seq<char>, V)>, i: int, k: Seq<char>, v: V)
    requires
        spec_keys_unique(s),
        0 <= i < s.len(),
        s[i].0 == k,
    ensures
        spec_keys_unique(s.update(i, (k, v))),
        forall|k2: Seq<char>|
            spec_get(#[trigger] s.update(i, (k, v)), k2) == if k2 == k {
                Some(v)
            } else {
                spec_get(s, k2)
            },
    decreases s.len(),
{
    let t = s.update(i, (k, v));
    assert forall|a: int, b: int| 0 <= a < b < t.len() implies t[a].0 != t[b].0 by {
        assert(s[a].0 != s[b].0);
    }
    if i == 0 {
        assert(t[0] == (k, v));
        assert(t.skip(1) =~= s.skip(1));
        assert forall|k2: Seq<char>|
            #[trigger] spec_get(t, k2) == if k2 == k {
                Some(v)
            } else {
                spec_get(s, k2)
            } by {
            if k2 != k {
                assert(spec_get(t, k2) == spec_get(t.skip(1), k2));
                assert(spec_get(s, k2) == spec_get(s.skip(1), k2));
            }
        }
    } else {
        assert(s[0].0 != s[i].0);
        lemma_update_get(s.skip(1), i - 1, k, v);
        assert(t[0] == s[0]);
        assert(t.skip(1) =~= s.skip(1).update(i - 1, (k, v)));
        assert forall|k2: Seq<char>|
            #[trigger] spec_get(t, k2) == if k2 == k {
                Some(v)
            } else {
                spec_get(s, k2)
            } by {
            if s[0].0 == k2 {
                assert(spec_get(t, k2) == Some(t[0].1));
                assert(spec_get(s, k2) == Some(s[0].1));
            } else {
                assert(spec_get(t, k2) == spec_get(t.skip(1), k2));
                assert(spec_get(s, k2) == spec_get(s.skip(1), k2));
                assert(spec_get(s.skip(1).update(i - 1, (k, v)), k2) == if k2 == k {
                    Some(v)
                } else {
                    spec_get(s.skip(1), k2)
                });
            }
        }
    }
}

/// Appending a fresh key updates the lookup at that key and leaves every
/// other key alone.
pub proof fn lemma_push_get<V>(s: Seq<(Seq<char>, V)>, k: Seq<char>, v: V)
    requires
        spec_keys_unique(s),
        forall|j: int| 0 <= j < s.len() ==> s[j].0 != k,
    ensures
        spec_keys_unique(s.push((k, v))),
        forall|k2: Seq<char>|
            spec_get(#[trigger] s.push((k, v)), k2) == if k2 == k {
                Some(v)
            } else {
                spec_get(s, k2)
            },
    decreases s.len(),
{
    let t = s.push((k, v));
    assert forall|a: int, b: int| 0 <= a < b < t.len() implies t[a].0 != t[b].0 by {
        if b < s.len() {
            assert(s[a].0 != s[b].0);
        } else {
            assert(t[b] == (k, v));
            assert(t[a].0 == s[a].0);
        }
    }
    if s.len() == 0 {
        assert(t[0] == (k, v));
        assert forall|k2: Seq<char>|
            #[trigger] spec_get(t, k2) == if k2 == k {
                Some(v)
            } else {
                spec_get(s, k2)
            } by {
            if k2 != k {
                assert(spec_get(t, k2) == spec_get(t.skip(1), k2));
                assert(t.skip(1) =~= Seq::<(Seq<char>, V)>::empty());
            }
        }
    } else {
        lemma_push_get(s.skip(1), k, v);
        assert(t[0] == s[0]);
        assert(t.skip(1) =~= s.skip(1).push((k, v)));
        assert forall|k2: Seq<char>|
            #[trigger] spec_get(t, k2) == if k2 == k {
                Some(v)
            } else {
                spec_get(s, k2)
            } by {
            if s[0].0 == k2 {
                assert(spec_get(t, k2) == Some(t[0].1));
                assert(spec_get(s, k2) == Some(s[0].1));
            } else {
                assert(spec_get(t, k2) == spec_get(t.skip(1), k2));
                assert(spec_get(s, k2) == spec_get(s.skip(1), k2));
                assert(spec_get(s.skip(1).push((k, v)), k2) == if k2 == k {
                    Some(v)
                } else {
                    spec_get(s.skip(1), k2)
                });
            }
        }
    }
}


/// The lookup function of a map, as an `Option`.
pub open spec fn map_opt<V>(m: Map<Seq<char>, V>, k: Seq<char>) -> Option<V> {
    if m.dom().contains(k) {
        Some(m[k])
    } else {
        None
    }
}

/// The finite map an association sequence denotes.
pub open spec fn spec_map_of<V>(s: Seq<(Seq<char>, V)>) -> Map<Seq<char>, V> {
    Map::new(|k: Seq<char>| spec_get(s, k) is Some, |k: Seq<char>| spec_get(s, k)->Some_0)
}

/// An insert on the association list is an insert on the denoted map.
pub proof fn lemma_map_of_insert<V>(
    prior: Seq<(Seq<char>, V)>,
    updated: Seq<(Seq<char>, V)>,
    k: Seq<char>,
    v: V,
)
    requires
        forall|k2: Seq<char>|
            #[trigger] spec_get(updated, k2) == if k2 == k {
                Some(v)
            } else {
                spec_get(prior, k2)
            },
    ensures
        spec_map_of(updated) == spec_map_of(prior).insert(k, v),
{
    assert(spec_map_of(updated) =~= spec_map_of(prior).insert(k, v));
}

/// The empty association list denotes the empty map.
pub proof fn lemma_map_of_empty<V>()
    ensures
        spec_map_of(Seq::<(Seq<char>, V)>::empty()) == Map::<Seq<char>, V>::empty(),
{
    assert(spec_map_of(Seq::<(Seq<char>, V)>::empty()) =~= Map::<Seq<char>, V>::empty());
}

} // verus!
