//! A string-keyed map backed by an association list with unique keys,
//! viewed as a `Map<Seq<char>, V>`. The engine's state tables are built
//! from these.

use vstd::prelude::*;
use crate::strutil::str_eq;

verus! {

/// The map denoted by an entry list: later entries win, though the key
/// invariant keeps every key unique anyway.
pub open spec fn entries_map<V>(s: Seq<(String, V)>) -> Map<Seq<char>, V>
    decreases s.len(),
{
    if s.len() == 0 {
        Map::<Seq<char>, V>::empty()
    } else {
        entries_map(s.drop_last()).insert(s.last().0@, s.last().1)
    }
}

/// No two entries share a key.
pub open spec fn keys_unique<V>(s: Seq<(String, V)>) -> bool {
    forall|i: int, j: int| 0 <= i < j < s.len() ==> s[i].0@ != s[j].0@
}

proof fn lemma_entries_map_index<V>(s: Seq<(String, V)>, i: int)
    requires
        keys_unique(s),
        0 <= i < s.len(),
    ensures
        entries_map(s).contains_key(s[i].0@),
        entries_map(s)[s[i].0@] == s[i].1,
    decreases s.len(),
{
    if i < s.len() - 1 {
        lemma_entries_map_index(s.drop_last(), i);
        assert(s.drop_last()[i] == s[i]);
        assert(s[i].0@ != s.last().0@);
    }
}

proof fn lemma_entries_map_absent<V>(s: Seq<(String, V)>, k: Seq<char>)
    requires
        forall|i: int| 0 <= i < s.len() ==> s[i].0@ != k,
    ensures
        !entries_map(s).contains_key(k),
    decreases s.len(),
{
    if s.len() > 0 {
        lemma_entries_map_absent(s.drop_last(), k);
    }
}

proof fn lemma_entries_map_update<V>(s: Seq<(String, V)>, i: int, key: String, v: V)
    requires
        keys_unique(s),
        0 <= i < s.len(),
        key@ == s[i].0@,
    ensures
        entries_map(s.update(i, (key, v))) =~= entries_map(s).insert(key@, v),
    decreases s.len(),
{
    if i == s.len() - 1 {
        assert(s.update(i, (key, v)).drop_last() =~= s.drop_last());
        assert(s.update(i, (key, v)).last() == (key, v));
    } else {
        lemma_entries_map_update(s.drop_last(), i, key, v);
        assert(s.update(i, (key, v)).drop_last() =~= s.drop_last().update(i, (key, v)));
        assert(s.update(i, (key, v)).last() == s.last());
        assert(key@ != s.last().0@);
    }
}

proof fn lemma_entries_map_remove<V>(s: Seq<(String, V)>, i: int)
    requires
        keys_unique(s),
        0 <= i < s.len(),
    ensures
        entries_map(s.remove(i)) =~= entries_map(s).remove(s[i].0@),
        keys_unique(s.remove(i)),
    decreases s.len(),
{
    if i == s.len() - 1 {
        assert(s.remove(i) =~= s.drop_last());
        lemma_entries_map_absent(s.drop_last(), s[i].0@);
    } else {
        lemma_entries_map_remove(s.drop_last(), i);
        assert(s.remove(i).drop_last() =~= s.drop_last().remove(i));
        assert(s.remove(i).last() == s.last());
        assert(s[i].0@ != s.last().0@);
    }
}

proof fn lemma_entries_map_dom<V>(s: Seq<(String, V)>, k: Seq<char>)
    requires
        entries_map(s).contains_key(k),
    ensures
        exists|i: int| 0 <= i < s.len() && #[trigger] s[i].0@ == k,
    decreases s.len(),
{
    if s.len() > 0 {
        if s.last().0@ == k {
            assert(s[s.len() - 1].0@ == k);
        } else {
            lemma_entries_map_dom(s.drop_last(), k);
            let i = choose|i: int| 0 <= i < s.drop_last().len() && s.drop_last()[i].0@ == k;
            assert(s[i].0@ == k);
        }
    }
}

/// A string-keyed map with unique keys, backed by an entry list.
#[derive(Debug)]
pub struct StrMap<V> {
    entries: Vec<(String, V)>,
}

impl<V> View for StrMap<V> {
    type V = Map<Seq<char>, V>;

    closed spec fn view(&self) -> Map<Seq<char>, V> {
        entries_map(self.entries@)
    }
}

impl<V> StrMap<V> {
    #[verifier::type_invariant]
    spec fn inv(&self) -> bool {
        keys_unique(self.entries@)
    }

    /// The backing entries, in insertion order.
    pub closed spec fn spec_entries(&self) -> Seq<(String, V)> {
        self.entries@
    }

    /// Every key of the map stands in the entry list.
    pub proof fn lemma_dom_covered(&self, k: Seq<char>)
        requires
            self@.contains_key(k),
        ensures
            exists|i: int|
                0 <= i < self.spec_entries().len() && #[trigger] self.spec_entries()[i].0@ == k,
    {
        lemma_entries_map_dom(self.spec_entries(), k);
    }

    /// An empty map.
    pub fn new() -> (r: Self)
        ensures
            r@ == Map::<Seq<char>, V>::empty(),
            r.spec_entries().len() == 0,
    {
        StrMap { entries: Vec::new() }
    }

    fn find_index(&self, key: &str) -> (r: Option<usize>)
        ensures
            r matches Some(i) ==> (i as int) < self.spec_entries().len()
                && self.spec_entries()[i as int].0@ == key@,
            r is None ==> forall|i: int|
                0 <= i < self.spec_entries().len() ==> self.spec_entries()[i].0@ != key@,
    {
        let n = self.entries.len();
        let mut j: usize = 0;
        while j < n
            invariant
                n == self.spec_entries().len(),
                0 <= j <= n,
                forall|m: int| 0 <= m < j ==> self.spec_entries()[m].0@ != key@,
            decreases n - j,
        {
            if str_eq(self.entries[j].0.as_str(), key) {
                return Some(j);
            }
            j = j + 1;
        }
        None
    }

    /// How many entries the map holds.
    pub fn len(&self) -> (r: usize)
        ensures
            r == self.spec_entries().len(),
    {
        self.entries.len()
    }

    /// The key of the entry at `i`, which the map is sure to hold.
    pub fn key_at(&self, i: usize) -> (r: &String)
        requires
            (i as int) < self.spec_entries().len(),
        ensures
            r == self.spec_entries()[i as int].0,
            self@.contains_key(r@),
            self@[r@] == self.spec_entries()[i as int].1,
    {
        proof {
            use_type_invariant(&*self);
            lemma_entries_map_index(self.entries@, i as int);
        }
        &self.entries[i].0
    }

    /// The value of the entry at `i`: the value the map holds under that
    /// entry's key.
    pub fn value_at(&self, i: usize) -> (r: &V)
        requires
            (i as int) < self.spec_entries().len(),
        ensures
            r == self.spec_entries()[i as int].1,
            self@.contains_key(self.spec_entries()[i as int].0@),
            self@[self.spec_entries()[i as int].0@] == self.spec_entries()[i as int].1,
    {
        proof {
            use_type_invariant(&*self);
            lemma_entries_map_index(self.entries@, i as int);
        }
        &self.entries[i].1
    }

    /// Does the map hold this key?
    pub fn contains_key(&self, key: &str) -> (r: bool)
        ensures
            r == self@.contains_key(key@),
    {
        proof {
            use_type_invariant(&*self);
        }
        match self.find_index(key) {
            Some(i) => {
                proof {
                    lemma_entries_map_index(self.entries@, i as int);
                }
                true
            },
            None => {
                proof {
                    lemma_entries_map_absent(self.spec_entries(), key@);
                }
                false
            },
        }
    }

    /// Look the key up.
    pub fn get(&self, key: &str) -> (r: Option<&V>)
        ensures
            r matches Some(v) ==> self@.contains_key(key@) && *v == self@[key@],
            r is None ==> !self@.contains_key(key@),
    {
        proof {
            use_type_invariant(&*self);
        }
        match self.find_index(key) {
            Some(i) => {
                proof {
                    lemma_entries_map_index(self.entries@, i as int);
                }
                Some(&self.entries[i].1)
            },
            None => {
                proof {
                    lemma_entries_map_absent(self.spec_entries(), key@);
                }
                None
            },
        }
    }

    /// Insert or replace the value under this key.
    pub fn insert(&mut self, key: String, value: V)
        ensures
            final(self)@ == old(self)@.insert(key@, value),
            old(self)@.contains_key(key@) ==> exists|i: int|
                0 <= i < old(self).spec_entries().len() && (#[trigger] old(self).spec_entries()[i]).0@
                    == key@ && old(self).spec_entries()[i].1 == old(self)@[key@]
                    && final(self).spec_entries() == old(self).spec_entries().update(i, (key, value)),
            !old(self)@.contains_key(key@)
                ==> final(self).spec_entries() == old(self).spec_entries().push((key, value)),
    {
        proof {
            use_type_invariant(&*self);
        }
        let idx = self.find_index(key.as_str());
        let mut entries: Vec<(String, V)> = Vec::new();
        core::mem::swap(&mut entries, &mut self.entries);
        let ghost s = entries@;
        match idx {
            Some(i) => {
                proof {
                    lemma_entries_map_update(s, i as int, key, value);
                    lemma_entries_map_index(s, i as int);
                }
                entries.set(i, (key, value));
                proof {
                    assert forall|a: int, b: int|
                        0 <= a < b < entries@.len() implies entries@[a].0@ != entries@[b].0@ by {
                        if a != i as int && b != i as int {
                            assert(entries@[a] == s[a] && entries@[b] == s[b]);
                        }
                    }
                }
            },
            None => {
                proof {
                    lemma_entries_map_absent(s, key@);
                }
                entries.push((key, value));
                proof {
                    assert(entries@.drop_last() =~= s);
                    assert forall|a: int, b: int|
                        0 <= a < b < entries@.len() implies entries@[a].0@ != entries@[b].0@ by {
                        if b == entries@.len() - 1 {
                            assert(entries@[a] == s[a]);
                            assert(s == old(self).spec_entries());
                            assert(old(self).spec_entries()[a].0@ != key@);
                        } else {
                            assert(entries@[a] == s[a] && entries@[b] == s[b]);
                        }
                    }
                }
            },
        }
        self.entries = entries;
    }

    /// Remove the entry under this key and hand its value out.
    pub fn take(&mut self, key: &str) -> (r: Option<V>)
        ensures
            r matches Some(v) ==> old(self)@.contains_key(key@) && v == old(self)@[key@]
                && final(self)@ == old(self)@.remove(key@),
            r is None ==> !old(self)@.contains_key(key@) && final(self)@ == old(self)@,
    {
        proof {
            use_type_invariant(&*self);
        }
        let idx = self.find_index(key);
        match idx {
            Some(i) => {
                let mut entries: Vec<(String, V)> = Vec::new();
                core::mem::swap(&mut entries, &mut self.entries);
                let ghost s = entries@;
                proof {
                    lemma_entries_map_index(s, i as int);
                    lemma_entries_map_remove(s, i as int);
                }
                let entry = entries.remove(i);
                self.entries = entries;
                proof {
                    assert(entry.0@ == key@);
                    assert(self@ =~= old(self)@.remove(key@));
                }
                Some(entry.1)
            },
            None => {
                proof {
                    lemma_entries_map_absent(self.spec_entries(), key@);
                }
                None
            },
        }
    }
}

} // verus!
