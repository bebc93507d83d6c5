//! A finite map from names to values, kept as a list of entries in which no
//! name occurs twice. Its model is a `Map` from the name's characters to the
//! value; the order of the entries is not part of the model.
//!
//! A hash map by strings would serve the lookups, but the registry also
//! takes values out by name and drains whole maps entry by entry, and the
//! table of records is written in the order of its entries: a list does all
//! of this in an order that is the same from run to run.

use vstd::prelude::*;

verus! {

/// No two entries of `s` carry the same name.
pub open spec fn distinct_names<T>(s: Seq<(String, T)>) -> bool {
    forall|i: int, j: int|
        0 <= i < s.len() && 0 <= j < s.len() && i != j ==> (#[trigger] s[i]).0@ != (#[trigger] s[j]).0@
}

/// Some entry of `s` is called `name`.
pub open spec fn has_name<T>(s: Seq<(String, T)>, name: Seq<char>) -> bool {
    exists|i: int| 0 <= i < s.len() && (#[trigger] s[i]).0@ == name
}

/// The position of an entry of `s` called `name`, where there is one.
pub open spec fn index_of<T>(s: Seq<(String, T)>, name: Seq<char>) -> int {
    choose|i: int| 0 <= i < s.len() && (#[trigger] s[i]).0@ == name
}

/// The map that a list of entries stands for.
pub open spec fn entries_map<T>(s: Seq<(String, T)>) -> Map<Seq<char>, T> {
    Map::new(|name: Seq<char>| has_name(s, name), |name: Seq<char>| s[index_of(s, name)].1)
}

/// In a list with distinct names, each entry is what the map holds under its name.
pub proof fn lemma_entry_at<T>(s: Seq<(String, T)>, i: int)
    requires
        distinct_names(s),
        0 <= i < s.len(),
    ensures
        has_name(s, s[i].0@),
        index_of(s, s[i].0@) == i,
        entries_map(s).contains_key(s[i].0@),
        entries_map(s)[s[i].0@] == s[i].1,
{
    let name = s[i].0@;
    assert(has_name(s, name));
    let j = index_of(s, name);
    assert(0 <= j < s.len() && s[j].0@ == name);
}

/// The empty list stands for the empty map.
pub proof fn lemma_empty<T>(s: Seq<(String, T)>)
    requires
        s.len() == 0,
    ensures
        distinct_names(s),
        entries_map(s) == Map::<Seq<char>, T>::empty(),
{
    assert(entries_map(s) =~= Map::<Seq<char>, T>::empty());
}

/// A list with an entry stands for a map that is not empty.
pub proof fn lemma_nonempty<T>(s: Seq<(String, T)>)
    requires
        s.len() > 0,
    ensures
        entries_map(s).contains_key(s[0].0@),
        entries_map(s) != Map::<Seq<char>, T>::empty(),
{
    assert(has_name(s, s[0].0@));
}

/// Appending an entry under a fresh name inserts it into the map.
pub proof fn lemma_push<T>(s: Seq<(String, T)>, name: String, value: T)
    requires
        distinct_names(s),
        !has_name(s, name@),
    ensures
        distinct_names(s.push((name, value))),
        entries_map(s.push((name, value))) == entries_map(s).insert(name@, value),
{
    let t = s.push((name, value));
    let n = s.len() as int;
    assert forall|i: int, j: int| 0 <= i < t.len() && 0 <= j < t.len() && i != j implies (#[trigger] t[i]).0@
        != (#[trigger] t[j]).0@ by {
        if i < n {
            assert(t[i] == s[i]);
        }
        if j < n {
            assert(t[j] == s[j]);
        }
    }
    let want = entries_map(s).insert(name@, value);
    assert forall|k: Seq<char>| entries_map(t).contains_key(k) == want.contains_key(k) by {
        if has_name(t, k) {
            let i = index_of(t, k);
            if i < n {
                assert(s[i].0@ == k);
            }
        }
        if has_name(s, k) {
            let i = index_of(s, k);
            assert(t[i].0@ == k);
        }
        if k == name@ {
            assert(t[n].0@ == k);
        }
    }
    assert forall|k: Seq<char>| entries_map(t).contains_key(k) implies entries_map(t)[k] == want[k] by {
        let i = index_of(t, k);
        lemma_entry_at(t, i);
        if i < n {
            assert(t[i] == s[i]);
            lemma_entry_at(s, i);
        }
    }
    assert(entries_map(t) =~= want);
}

/// Dropping the entry at `i` removes its name from the map.
pub proof fn lemma_remove<T>(s: Seq<(String, T)>, i: int)
    requires
        distinct_names(s),
        0 <= i < s.len(),
    ensures
        distinct_names(s.remove(i)),
        !has_name(s.remove(i), s[i].0@),
        entries_map(s.remove(i)) == entries_map(s).remove(s[i].0@),
{
    let t = s.remove(i);
    let gone = s[i].0@;
    assert forall|a: int| 0 <= a < t.len() implies #[trigger] t[a] == s[if a < i { a } else { a + 1 }] by {}
    assert forall|a: int, b: int| 0 <= a < t.len() && 0 <= b < t.len() && a != b implies (#[trigger] t[a]).0@
        != (#[trigger] t[b]).0@ by {
        let a2 = if a < i { a } else { a + 1 };
        let b2 = if b < i { b } else { b + 1 };
        assert(t[a] == s[a2]);
        assert(t[b] == s[b2]);
    }
    if has_name(t, gone) {
        let a = index_of(t, gone);
        let a2 = if a < i { a } else { a + 1 };
        assert(t[a] == s[a2]);
        assert(false);
    }
    let want = entries_map(s).remove(gone);
    assert forall|k: Seq<char>| entries_map(t).contains_key(k) == want.contains_key(k) by {
        if has_name(t, k) {
            let a = index_of(t, k);
            let a2 = if a < i { a } else { a + 1 };
            assert(t[a] == s[a2]);
            assert(s[a2].0@ == k);
        }
        if has_name(s, k) && k != gone {
            let b = index_of(s, k);
            let b2 = if b < i { b } else { b - 1 };
            assert(t[b2] == s[b]);
            assert(t[b2].0@ == k);
        }
    }
    assert forall|k: Seq<char>| entries_map(t).contains_key(k) implies entries_map(t)[k] == want[k] by {
        let a = index_of(t, k);
        let a2 = if a < i { a } else { a + 1 };
        lemma_entry_at(t, a);
        assert(t[a] == s[a2]);
        lemma_entry_at(s, a2);
    }
    assert(entries_map(t) =~= want);
}

/// A list with distinct names stands for a map with as many entries.
pub proof fn lemma_size<T>(s: Seq<(String, T)>)
    requires
        distinct_names(s),
    ensures
        entries_map(s).dom().finite(),
        entries_map(s).dom().len() == s.len(),
    decreases s.len(),
{
    if s.len() == 0 {
        lemma_empty(s);
    } else {
        let last = s.len() - 1;
        let t = s.remove(last);
        lemma_entry_at(s, last);
        lemma_remove(s, last);
        lemma_size(t);
        assert(entries_map(s) =~= entries_map(t).insert(s[last].0@, s[last].1));
        assert(!entries_map(t).contains_key(s[last].0@));
    }
}

/// A map from names to values of type `T`.
#[derive(Debug)]
pub struct NameMap<T> {
    entries: Vec<(String, T)>,
}

impl<T> View for NameMap<T> {
    type V = Map<Seq<char>, T>;

    open spec fn view(&self) -> Map<Seq<char>, T> {
        entries_map(self.entries())
    }
}

impl<T> NameMap<T> {
    /// No name occurs twice among the entries.
    pub open spec fn wf(&self) -> bool {
        distinct_names(self.entries())
    }

    /// The entries in the order in which they are kept.
    pub closed spec fn entries(&self) -> Seq<(String, T)> {
        self.entries@
    }

    /// The empty map.
    pub fn new() -> (m: Self)
        ensures
            m.wf(),
            m@ == Map::<Seq<char>, T>::empty(),
            m.entries().len() == 0,
    {
        let entries: Vec<(String, T)> = Vec::new();
        proof {
            lemma_empty(entries@);
        }
        NameMap { entries }
    }

    /// The number of entries.
    pub fn len(&self) -> (n: usize)
        requires
            self.wf(),
        ensures
            n == self.entries().len(),
            self@.dom().finite(),
            n == self@.dom().len(),
            n == 0 <==> self@ == Map::<Seq<char>, T>::empty(),
    {
        proof {
            lemma_size(self.entries@);
            if self.entries@.len() == 0 {
                lemma_empty(self.entries@);
            } else {
                lemma_nonempty(self.entries@);
            }
        }
        self.entries.len()
    }

    /// Whether the map holds nothing.
    pub fn is_empty(&self) -> (b: bool)
        requires
            self.wf(),
        ensures
            b == (self@ == Map::<Seq<char>, T>::empty()),
            b == (self.entries().len() == 0),
    {
        self.len() == 0
    }

    /// The entry at position `i`.
    pub fn entry(&self, i: usize) -> (e: (&String, &T))
        requires
            self.wf(),
            i < self.entries().len(),
        ensures
            *e.0 == self.entries()[i as int].0,
            *e.1 == self.entries()[i as int].1,
            distinct_names(self.entries()),
            self@.contains_key(e.0@),
            self@[e.0@] == *e.1,
    {
        proof {
            lemma_entry_at(self.entries@, i as int);
        }
        let e = &self.entries[i];
        (&e.0, &e.1)
    }

    /// The entries as a list, in the order in which they were kept.
    pub fn into_entries(self) -> (list: Vec<(String, T)>)
        ensures
            list@ == self.entries(),
    {
        self.entries
    }

    /// The position of the entry called `name`, if there is one.
    fn find(&self, name: &String) -> (r: Option<usize>)
        ensures
            match r {
                Some(i) => i < self.entries@.len() && self.entries@[i as int].0@ == name@,
                None => !has_name(self.entries@, name@),
            },
    {
        let n: usize = self.entries.len();
        let mut i: usize = 0;
        while i < n
            invariant
                n == self.entries@.len(),
                i <= n,
                forall|j: int| 0 <= j < i ==> (#[trigger] self.entries@[j]).0@ != name@,
            decreases n - i,
        {
            if self.entries[i].0 == *name {
                return Some(i);
            }
            i += 1;
        }
        None
    }

    /// Whether the map has an entry called `name`.
    pub fn contains_key(&self, name: &String) -> (b: bool)
        requires
            self.wf(),
        ensures
            b == self@.contains_key(name@),
    {
        self.find(name).is_some()
    }

    /// The value under `name`, if there is one.
    pub fn get(&self, name: &String) -> (r: Option<&T>)
        requires
            self.wf(),
        ensures
            match r {
                Some(v) => self@.contains_key(name@) && *v == self@[name@],
                None => !self@.contains_key(name@),
            },
    {
        match self.find(name) {
            Some(i) => {
                proof {
                            lemma_entry_at(self.entries@, i as int);
                }
                Some(&self.entries[i].1)
            },
            None => None,
        }
    }

    /// Puts `value` under `name` and hands back what was there before.
    pub fn insert(&mut self, name: String, value: T) -> (previous: Option<T>)
        requires
            old(self).wf(),
        ensures
            final(self).wf(),
            final(self)@ == old(self)@.insert(name@, value),
            previous == if old(self)@.contains_key(name@) {
                Some(old(self)@[name@])
            } else {
                None::<T>
            },
    {
        let found = self.find(&name);
        let previous = match found {
            Some(i) => {
                proof {
                    lemma_entry_at(self.entries@, i as int);
                    lemma_remove(self.entries@, i as int);
                }
                let gone = self.entries.remove(i);
                Some(gone.1)
            },
            None => None,
        };
        proof {
            lemma_push(self.entries@, name, value);
            assert(old(self)@.remove(name@).insert(name@, value) =~= old(self)@.insert(name@, value));
            if found.is_none() {
                assert(old(self)@.remove(name@) =~= old(self)@);
            }
        }
        self.entries.push((name, value));
        previous
    }

    /// Takes the entry called `name` out of the map.
    pub fn remove(&mut self, name: &String) -> (gone: Option<T>)
        requires
            old(self).wf(),
        ensures
            final(self).wf(),
            final(self)@ == old(self)@.remove(name@),
            gone == if old(self)@.contains_key(name@) {
                Some(old(self)@[name@])
            } else {
                None::<T>
            },
    {
        match self.find(name) {
            Some(i) => {
                proof {
                    lemma_entry_at(self.entries@, i as int);
                    lemma_remove(self.entries@, i as int);
                }
                let gone = self.entries.remove(i);
                Some(gone.1)
            },
            None => {
                proof {
                    assert(old(self)@.remove(name@) =~= old(self)@);
                }
                None
            },
        }
    }

    /// Takes some entry out of the map: the one kept last.
    pub fn pop(&mut self) -> (gone: Option<(String, T)>)
        requires
            old(self).wf(),
        ensures
            final(self).wf(),
            match gone {
                Some(e) => {
                    &&& old(self).entries().len() > 0
                    &&& e == old(self).entries().last()
                    &&& final(self).entries() == old(self).entries().drop_last()
                    &&& old(self)@.contains_key(e.0@)
                    &&& old(self)@[e.0@] == e.1
                    &&& final(self)@ == old(self)@.remove(e.0@)
                },
                None => {
                    &&& old(self).entries().len() == 0
                    &&& old(self)@ == Map::<Seq<char>, T>::empty()
                    &&& final(self)@ == old(self)@
                },
            },
    {
        proof {
            let s = self.entries@;
            if s.len() > 0 {
                lemma_entry_at(s, s.len() - 1);
                lemma_remove(s, s.len() - 1);
                assert(s.subrange(0, s.len() - 1) =~= s.remove(s.len() - 1));
                assert(s.drop_last() =~= s.remove(s.len() - 1));
            } else {
                lemma_empty(s);
            }
        }
        self.entries.pop()
    }
}

} // verus!
