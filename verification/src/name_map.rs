//! Finite maps from names.

use vstd::prelude::*;

verus! {

/// A map from names to values.
#[derive(Debug)]
pub struct NameMap<V> {
    pub(crate) entries: Vec<(String, V)>,
}

/// The map that a list of entries stands for; of two entries with one name the later counts.
pub open spec fn entries_map<V: View>(entries: Seq<(String, V)>) -> Map<Seq<char>, V::V>
    decreases entries.len(),
{
    if entries.len() == 0 {
        Map::empty()
    } else {
        entries_map(entries.drop_last()).insert(entries.last().0@, entries.last().1@)
    }
}

impl<V: View> View for NameMap<V> {
    type V = Map<Seq<char>, V::V>;

    open(crate) spec fn view(&self) -> Map<Seq<char>, V::V> {
        entries_map(self.entries@)
    }
}

/// A name without an entry is not in the map.
proof fn lemma_absent<V: View>(s: Seq<(String, V)>, name: Seq<char>)
    requires
        forall|i: int| 0 <= i < s.len() ==> (#[trigger] s[i]).0@ != name,
    ensures
        !entries_map(s).contains_key(name),
    decreases s.len(),
{
    if s.len() > 0 {
        assert forall|i: int| 0 <= i < s.drop_last().len() implies (#[trigger] s.drop_last()[i]).0@
            != name by {
            assert(s.drop_last()[i] == s[i]);
        }
        lemma_absent(s.drop_last(), name);
    }
}

/// The last entry with a name gives its value.
proof fn lemma_last_entry<V: View>(s: Seq<(String, V)>, k: int)
    requires
        0 <= k < s.len(),
        forall|i: int| k < i < s.len() ==> (#[trigger] s[i]).0@ != s[k].0@,
    ensures
        entries_map(s).contains_key(s[k].0@),
        entries_map(s)[s[k].0@] == s[k].1@,
    decreases s.len(),
{
    if k < s.len() - 1 {
        assert(s.last() == s[s.len() - 1]);
        assert forall|i: int| k < i < s.drop_last().len() implies (#[trigger] s.drop_last()[i]).0@
            != s.drop_last()[k].0@ by {
            assert(s.drop_last()[i] == s[i]);
        }
        lemma_last_entry(s.drop_last(), k);
    }
}

/// Replacing the last entry with a name updates the map there.
proof fn lemma_replace<V: View>(s: Seq<(String, V)>, k: int, e: (String, V))
    requires
        0 <= k < s.len(),
        e.0@ == s[k].0@,
        forall|i: int| k < i < s.len() ==> (#[trigger] s[i]).0@ != s[k].0@,
    ensures
        entries_map(s.update(k, e)) == entries_map(s).insert(e.0@, e.1@),
    decreases s.len(),
{
    let t = s.update(k, e);
    if k < s.len() - 1 {
        assert(s.last() == s[s.len() - 1]);
        assert forall|i: int| k < i < s.drop_last().len() implies (#[trigger] s.drop_last()[i]).0@
            != s.drop_last()[k].0@ by {
            assert(s.drop_last()[i] == s[i]);
        }
        lemma_replace(s.drop_last(), k, e);
        assert(t.drop_last() == s.drop_last().update(k, e));
        assert(entries_map(t) =~= entries_map(s).insert(e.0@, e.1@));
    } else {
        assert(t.drop_last() == s.drop_last());
        assert(entries_map(t) =~= entries_map(s).insert(e.0@, e.1@));
    }
}

/// Lists with the same names and values stand for one map.
pub(crate) proof fn lemma_same_entries<V: View>(s: Seq<(String, V)>, t: Seq<(String, V)>)
    requires
        s.len() == t.len(),
        forall|i: int|
            0 <= i < s.len() ==> (#[trigger] s[i]).0@ == t[i].0@ && s[i].1@ == t[i].1@,
    ensures
        entries_map(s) == entries_map(t),
    decreases s.len(),
{
    if s.len() > 0 {
        assert forall|i: int| 0 <= i < s.drop_last().len() implies (#[trigger] s.drop_last()[i]).0@
            == t.drop_last()[i].0@ && s.drop_last()[i].1@ == t.drop_last()[i].1@ by {
            assert(s.drop_last()[i] == s[i]);
        }
        lemma_same_entries(s.drop_last(), t.drop_last());
        assert(s.last() == s[s.len() - 1]);
    }
}

impl<V: Clone> NameMap<V> {
    /// Whether the map has the names of another, with values cloned from the other's.
    pub open(crate) spec fn copies(self, other: Self) -> bool {
        &&& self.entries@.len() == other.entries@.len()
        &&& forall|i: int|
            0 <= i < self.entries@.len() ==> (#[trigger] self.entries@[i]).0@
                == other.entries@[i].0@ && cloned(other.entries@[i].1, self.entries@[i].1)
    }
}

impl<V: Clone> Clone for NameMap<V> {
    fn clone(&self) -> (r: Self)
        ensures
            r.copies(*self),
    {
        let mut entries: Vec<(String, V)> = Vec::new();
        let mut k: usize = 0;
        while k < self.entries.len()
            invariant
                k <= self.entries@.len(),
                entries@.len() == k,
                forall|i: int|
                    0 <= i < k ==> (#[trigger] entries@[i]).0@ == self.entries@[i].0@ && cloned(
                        self.entries@[i].1,
                        entries@[i].1,
                    ),
            decreases self.entries@.len() - k,
        {
            let e = &self.entries[k];
            entries.push((e.0.clone(), e.1.clone()));
            k = k + 1;
        }
        NameMap { entries }
    }
}

impl<V: View> NameMap<V> {
    /// The empty map.
    pub fn new() -> (m: Self)
        ensures
            m@ == Map::<Seq<char>, V::V>::empty(),
    {
        NameMap { entries: Vec::new() }
    }

    /// The index of the last entry with a name.
    fn find(&self, name: &String) -> (r: Option<usize>)
        ensures
            match r {
                Some(k) => {
                    &&& k < self.entries@.len()
                    &&& self.entries@[k as int].0@ == name@
                    &&& forall|i: int|
                        k < i < self.entries@.len() ==> (#[trigger] self.entries@[i]).0@ != name@
                },
                None => forall|i: int|
                    0 <= i < self.entries@.len() ==> (#[trigger] self.entries@[i]).0@ != name@,
            },
    {
        let mut k: usize = self.entries.len();
        while k > 0
            invariant
                k <= self.entries@.len(),
                forall|i: int|
                    k <= i < self.entries@.len() ==> (#[trigger] self.entries@[i]).0@ != name@,
            decreases k,
        {
            k = k - 1;
            if self.entries[k].0 == *name {
                return Some(k);
            }
        }
        None
    }

    /// The value of a name, if it has one.
    pub fn get(&self, name: &String) -> (r: Option<&V>)
        ensures
            match r {
                Some(v) => self@.contains_key(name@) && v@ == self@[name@],
                None => !self@.contains_key(name@),
            },
    {
        match self.find(name) {
            Some(k) => {
                proof {
                    lemma_last_entry(self.entries@, k as int);
                }
                Some(&self.entries[k].1)
            },
            None => {
                proof {
                    lemma_absent(self.entries@, name@);
                }
                None
            },
        }
    }

    /// Gives a name a value, in place of the one it had.
    pub fn insert(&mut self, name: String, value: V)
        ensures
            final(self)@ == old(self)@.insert(name@, value@),
    {
        match self.find(&name) {
            Some(k) => {
                proof {
                    lemma_replace(self.entries@, k as int, (name, value));
                }
                self.entries[k] = (name, value);
            },
            None => {
                let ghost before = self.entries@;
                self.entries.push((name, value));
                assert(self.entries@.drop_last() == before);
            },
        }
    }
}

} // verus!
