//! A table from string keys to values, with unique keys: the backing store
//! for the registry's path tables and the bucket's child and lock tables.
use vstd::prelude::*;

verus! {

/// The finite map described by an association sequence: each key that occurs
/// in the sequence maps to the value stored beside one occurrence of it.
pub open spec fn assoc_map<V>(s: Seq<(String, V)>) -> Map<Seq<char>, V> {
    Map::new(
        |k: Seq<char>| exists|i: int| 0 <= i < s.len() && s[i].0@ == k,
        |k: Seq<char>|
            {
                let i = choose|i: int| 0 <= i < s.len() && s[i].0@ == k;
                s[i].1
            },
    )
}

/// Keys are pairwise distinct.
pub open spec fn distinct_keys<V>(s: Seq<(String, V)>) -> bool {
    forall|i: int, j: int| 0 <= i < j < s.len() ==> s[i].0@ != s[j].0@
}

/// With distinct keys, the entry at `i` carries the map's value for its key.
pub proof fn lemma_entry_value<V>(s: Seq<(String, V)>, i: int)
    requires
        distinct_keys(s),
        0 <= i < s.len(),
    ensures
        assoc_map(s).contains_key(s[i].0@),
        assoc_map(s)[s[i].0@] == s[i].1,
{
    let k = s[i].0@;
    let j = choose|j: int| 0 <= j < s.len() && s[j].0@ == k;
    if i != j {
        assert(s[i].0@ != s[j].0@ || s[j].0@ != s[i].0@);
    }
}

/// Replacing the value stored at `i` updates the map at that entry's key.
pub proof fn lemma_assoc_update<V>(s: Seq<(String, V)>, i: int, e: (String, V))
    requires
        distinct_keys(s),
        0 <= i < s.len(),
        e.0@ == s[i].0@,
    ensures
        distinct_keys(s.update(i, e)),
        assoc_map(s.update(i, e)) =~= assoc_map(s).insert(e.0@, e.1),
{
    let s2 = s.update(i, e);
    let k = e.0@;
    assert forall|a: int, b: int| 0 <= a < b < s2.len() implies s2[a].0@ != s2[b].0@ by {
        assert(s[a].0@ != s[b].0@);
    }
    assert forall|k2: Seq<char>| #[trigger] assoc_map(s2).contains_key(k2)
        == assoc_map(s).insert(k, e.1).contains_key(k2) by {
        if exists|j: int| 0 <= j < s2.len() && s2[j].0@ == k2 {
            let j = choose|j: int| 0 <= j < s2.len() && s2[j].0@ == k2;
            assert(0 <= j < s.len() && s[j].0@ == k2);
        }
        if exists|j: int| 0 <= j < s.len() && s[j].0@ == k2 {
            let j = choose|j: int| 0 <= j < s.len() && s[j].0@ == k2;
            if j == i {
                assert(s2[i].0@ == k2);
            } else {
                assert(s2[j].0@ == k2);
            }
        }
    }
    assert forall|k2: Seq<char>| assoc_map(s2).contains_key(k2) implies #[trigger] assoc_map(
        s2,
    )[k2] == assoc_map(s).insert(k, e.1)[k2] by {
        let j = choose|j: int| 0 <= j < s2.len() && s2[j].0@ == k2;
        if k2 == k {
            if j != i {
                assert(s2[j].0@ == s[j].0@ && s[i].0@ == k);
                assert(false);
            }
            assert(assoc_map(s2)[k2] == e.1);
        } else {
            assert(j != i);
            assert(s[j].0@ == k2);
            lemma_entry_value(s, j);
            lemma_entry_value(s2, j);
        }
    }
}

/// Appending an entry whose key is absent inserts it into the map.
pub proof fn lemma_assoc_push<V>(s: Seq<(String, V)>, e: (String, V))
    requires
        distinct_keys(s),
        !assoc_map(s).contains_key(e.0@),
    ensures
        distinct_keys(s.push(e)),
        assoc_map(s.push(e)) =~= assoc_map(s).insert(e.0@, e.1),
{
    let s2 = s.push(e);
    let k = e.0@;
    assert forall|a: int, b: int| 0 <= a < b < s2.len() implies s2[a].0@ != s2[b].0@ by {
        if b == s.len() {
            assert(s2[a].0@ == s[a].0@);
            assert(!(exists|i: int| 0 <= i < s.len() && s[i].0@ == k));
        } else {
            assert(s[a].0@ != s[b].0@);
        }
    }
    assert forall|k2: Seq<char>| #[trigger] assoc_map(s2).contains_key(k2)
        == assoc_map(s).insert(k, e.1).contains_key(k2) by {
        if exists|j: int| 0 <= j < s2.len() && s2[j].0@ == k2 {
            let j = choose|j: int| 0 <= j < s2.len() && s2[j].0@ == k2;
            if j < s.len() {
                assert(s[j].0@ == k2);
            } else {
                assert(k2 == k);
            }
        }
        if exists|j: int| 0 <= j < s.len() && s[j].0@ == k2 {
            let j = choose|j: int| 0 <= j < s.len() && s[j].0@ == k2;
            assert(s2[j].0@ == k2);
        }
        if k2 == k {
            assert(s2[s.len() as int].0@ == k);
        }
    }
    assert forall|k2: Seq<char>| assoc_map(s2).contains_key(k2) implies #[trigger] assoc_map(
        s2,
    )[k2] == assoc_map(s).insert(k, e.1)[k2] by {
        lemma_entry_value(s2, s.len() as int);
        if k2 != k {
            let j = choose|j: int| 0 <= j < s2.len() && s2[j].0@ == k2;
            assert(j < s.len());
            assert(s[j].0@ == k2);
            lemma_entry_value(s, j);
            lemma_entry_value(s2, j);
        }
    }
}

/// Removing the entry at `i` removes that entry's key from the map.
proof fn lemma_assoc_remove<V>(s: Seq<(String, V)>, i: int)
    requires
        distinct_keys(s),
        0 <= i < s.len(),
    ensures
        distinct_keys(s.remove(i)),
        assoc_map(s.remove(i)) =~= assoc_map(s).remove(s[i].0@),
{
    let s2 = s.remove(i);
    let k = s[i].0@;
    assert forall|a: int, b: int| 0 <= a < b < s2.len() implies s2[a].0@ != s2[b].0@ by {
        let a0 = if a < i { a } else { a + 1 };
        let b0 = if b < i { b } else { b + 1 };
        assert(s2[a] == s[a0] && s2[b] == s[b0]);
        assert(s[a0].0@ != s[b0].0@);
    }
    assert forall|k2: Seq<char>| #[trigger] assoc_map(s2).contains_key(k2) == assoc_map(s).remove(
        k,
    ).contains_key(k2) by {
        if exists|j: int| 0 <= j < s2.len() && s2[j].0@ == k2 {
            let j = choose|j: int| 0 <= j < s2.len() && s2[j].0@ == k2;
            let j0 = if j < i { j } else { j + 1 };
            assert(s[j0].0@ == k2);
            if k2 == k {
                assert(s[j0].0@ == s[i].0@ && j0 != i);
                assert(false);
            }
        }
        if k2 != k && (exists|j: int| 0 <= j < s.len() && s[j].0@ == k2) {
            let j = choose|j: int| 0 <= j < s.len() && s[j].0@ == k2;
            assert(j != i);
            if j < i {
                assert(s2[j].0@ == k2);
            } else {
                assert(s2[j - 1].0@ == k2);
            }
        }
    }
    assert forall|k2: Seq<char>| assoc_map(s2).contains_key(k2) implies #[trigger] assoc_map(
        s2,
    )[k2] == assoc_map(s).remove(k)[k2] by {
        let j = choose|j: int| 0 <= j < s2.len() && s2[j].0@ == k2;
        let j0 = if j < i { j } else { j + 1 };
        assert(s2[j] == s[j0] && s[j0].0@ == k2);
        lemma_entry_value(s2, j);
        lemma_entry_value(s, j0);
    }
}

/// An association table whose keys are pairwise distinct strings.
///
/// Its view is the finite map from key characters to values.
pub struct KeyMap<V> {
    entries: Vec<(String, V)>,
}

impl<V> View for KeyMap<V> {
    type V = Map<Seq<char>, V>;

    closed spec fn view(&self) -> Map<Seq<char>, V> {
        assoc_map(self.entries@)
    }
}

impl<V> KeyMap<V> {
    /// Keys are pairwise distinct.
    pub closed spec fn inv(&self) -> bool {
        distinct_keys(self.entries@)
    }

    pub fn new() -> (r: KeyMap<V>)
        ensures
            r.inv(),
            r@ == Map::<Seq<char>, V>::empty(),
    {
        let r = KeyMap { entries: Vec::new() };
        proof {
            assert(r@ =~= Map::<Seq<char>, V>::empty());
        }
        r
    }

    /// The position of `k` among the entries, if it is a key.
    fn index_of(&self, k: &str) -> (r: Option<usize>)
        ensures
            match r {
                Some(i) => i < self.entries@.len() && self.entries@[i as int].0@ == k@,
                None => !self@.contains_key(k@),
            },
    {
        let key: String = k.to_owned();
        let n = self.entries.len();
        let mut i: usize = 0;
        while i < n
            invariant
                n == self.entries@.len(),
                i <= n,
                key@ == k@,
                forall|j: int| 0 <= j < i ==> self.entries@[j].0@ != k@,
            decreases n - i,
        {
            if self.entries[i].0 == key {
                return Some(i);
            }
            i = i + 1;
        }
        None
    }

    pub fn contains(&self, k: &str) -> (r: bool)
        ensures
            r == self@.contains_key(k@),
    {
        match self.index_of(k) {
            Some(_) => true,
            None => false,
        }
    }

    pub fn get(&self, k: &str) -> (r: Option<&V>)
        requires
            self.inv(),
        ensures
            match r {
                Some(v) => self@.contains_key(k@) && *v == self@[k@],
                None => !self@.contains_key(k@),
            },
    {
        match self.index_of(k) {
            Some(i) => {
                proof {
                    lemma_entry_value(self.entries@, i as int);
                }
                Some(&self.entries[i].1)
            },
            None => None,
        }
    }

    pub fn insert(&mut self, k: &str, v: V)
        requires
            old(self).inv(),
        ensures
            final(self).inv(),
            final(self)@ == old(self)@.insert(k@, v),
    {
        match self.index_of(k) {
            Some(i) => {
                let ghost old_entries = self.entries@;
                let entry: &mut (String, V) = &mut self.entries[i];
                entry.1 = v;
                proof {
                    lemma_assoc_update(old_entries, i as int, (old_entries[i as int].0, v));
                    assert(self.entries@ =~= old_entries.update(
                        i as int,
                        (old_entries[i as int].0, v),
                    ));
                }
            },
            None => {
                let ghost old_entries = self.entries@;
                let key: String = k.to_owned();
                proof {
                    lemma_assoc_push(old_entries, (key, v));
                }
                self.entries.push((key, v));
            },
        }
    }

    pub fn remove(&mut self, k: &str)
        requires
            old(self).inv(),
        ensures
            final(self).inv(),
            final(self)@ == old(self)@.remove(k@),
    {
        match self.index_of(k) {
            Some(i) => {
                proof {
                    lemma_assoc_remove(self.entries@, i as int);
                }
                self.entries.remove(i);
            },
            None => {
                proof {
                    assert(old(self)@.remove(k@) =~= old(self)@);
                }
            },
        }
    }
}

} // verus!
