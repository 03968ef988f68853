//! The headers of a request: a list of names with their values in which no
//! name stands twice. A name that is set again keeps its place and takes the
//! new value.

use crate::text::str_eq;
use vstd::prelude::*;

verus! {

/// A list of names and values.
pub type HeaderList = Seq<(Seq<char>, Seq<char>)>;

/// The index of the first entry of `h` with the given name, or the length of
/// `h` where it has none.
pub open spec fn index_of(h: HeaderList, name: Seq<char>) -> int
    decreases h.len(),
{
    if h.len() == 0 {
        0
    } else if h[0].0 == name {
        0
    } else {
        1 + index_of(h.skip(1), name)
    }
}

/// The value that `h` has for `name`.
pub open spec fn lookup(h: HeaderList, name: Seq<char>) -> Option<Seq<char>> {
    let i = index_of(h, name);
    if 0 <= i < h.len() {
        Some(h[i].1)
    } else {
        None
    }
}

/// `h` with `name` set to `value`.
pub open spec fn put(h: HeaderList, name: Seq<char>, value: Seq<char>) -> HeaderList {
    let i = index_of(h, name);
    if 0 <= i < h.len() {
        h.update(i, (name, value))
    } else {
        h.push((name, value))
    }
}

/// `h` without its first entry for `name`.
pub open spec fn without(h: HeaderList, name: Seq<char>) -> HeaderList {
    let i = index_of(h, name);
    if 0 <= i < h.len() {
        h.remove(i)
    } else {
        h
    }
}

/// No name stands twice in `h`.
pub open spec fn distinct(h: HeaderList) -> bool {
    forall|i: int, j: int| 0 <= i < j < h.len() ==> (#[trigger] h[i]).0 != (#[trigger] h[j]).0
}

/// `index_of` lies within the list or at its end; the entry there has the
/// name, and no entry before it has.
pub proof fn lemma_index_of(h: HeaderList, name: Seq<char>)
    ensures
        0 <= index_of(h, name) <= h.len(),
        index_of(h, name) < h.len() ==> h[index_of(h, name)].0 == name,
        forall|j: int| 0 <= j < index_of(h, name) ==> (#[trigger] h[j]).0 != name,
    decreases h.len(),
{
    if h.len() > 0 && h[0].0 != name {
        lemma_index_of(h.skip(1), name);
        assert forall|j: int| 0 <= j < index_of(h, name) implies (#[trigger] h[j]).0 != name by {
            if j > 0 {
                assert(h.skip(1)[j - 1] == h[j]);
            }
        }
    }
}

/// `index_of` is the one index before which no entry has the name and at
/// which one has it, or the length of the list.
pub proof fn lemma_index_of_is(h: HeaderList, name: Seq<char>, i: int)
    requires
        0 <= i <= h.len(),
        forall|j: int| 0 <= j < i ==> (#[trigger] h[j]).0 != name,
        i < h.len() ==> h[i].0 == name,
    ensures
        index_of(h, name) == i,
    decreases h.len(),
{
    if h.len() > 0 && i > 0 {
        assert(h[0].0 != name);
        assert forall|j: int| 0 <= j < i - 1 implies (#[trigger] h.skip(1)[j]).0 != name by {
            assert(h.skip(1)[j] == h[j + 1]);
        }
        lemma_index_of_is(h.skip(1), name, i - 1);
    }
}

/// Setting a name keeps the names distinct.
pub proof fn lemma_put_distinct(h: HeaderList, name: Seq<char>, value: Seq<char>)
    requires
        distinct(h),
    ensures
        distinct(put(h, name, value)),
{
    lemma_index_of(h, name);
    let r = put(h, name, value);
    let k = index_of(h, name);
    assert forall|i: int, j: int| 0 <= i < j < r.len() implies (#[trigger] r[i]).0 != (
    #[trigger] r[j]).0 by {
        if k < h.len() {
            assert(r[i].0 == h[i].0);
            assert(r[j].0 == h[j].0);
        } else if j < h.len() {
            assert(r[i] == h[i] && r[j] == h[j]);
        } else {
            assert(r[i] == h[i]);
        }
    }
}

/// Removing a name keeps the names distinct.
pub proof fn lemma_without_distinct(h: HeaderList, name: Seq<char>)
    requires
        distinct(h),
    ensures
        distinct(without(h, name)),
{
    lemma_index_of(h, name);
    let r = without(h, name);
    let k = index_of(h, name);
    if k < h.len() {
        assert forall|i: int, j: int| 0 <= i < j < r.len() implies (#[trigger] r[i]).0 != (
        #[trigger] r[j]).0 by {
            let a = if i < k { i } else { i + 1 };
            let b = if j < k { j } else { j + 1 };
            assert(r[i] == h[a]);
            assert(r[j] == h[b]);
        }
    }
}

/// The last value set for a name is the one found; other names keep theirs.
pub proof fn lemma_lookup_put(h: HeaderList, name: Seq<char>, value: Seq<char>, other: Seq<char>)
    ensures
        lookup(put(h, name, value), other) == if other == name {
            Some(value)
        } else {
            lookup(h, other)
        },
{
    lemma_index_of(h, name);
    lemma_index_of(h, other);
    let r = put(h, name, value);
    let k = index_of(h, name);
    let m = index_of(h, other);
    if other == name {
        assert forall|j: int| 0 <= j < k implies (#[trigger] r[j]).0 != other by {
            assert(r[j].0 == h[j].0);
        }
        lemma_index_of_is(r, other, k);
    } else {
        assert forall|j: int| 0 <= j < m implies (#[trigger] r[j]).0 != other by {
            if j < h.len() {
                assert(r[j].0 == h[j].0 || r[j].0 == name);
            }
        }
        if m < h.len() {
            assert(r[m] == h[m]);
            lemma_index_of_is(r, other, m);
        } else {
            assert forall|j: int| 0 <= j < r.len() implies (#[trigger] r[j]).0 != other by {
                if j < h.len() {
                    assert(r[j].0 == h[j].0 || r[j].0 == name);
                }
            }
            lemma_index_of_is(r, other, r.len() as int);
        }
    }
}

/// A name that was removed is not found; other names keep their values.
pub proof fn lemma_lookup_without(h: HeaderList, name: Seq<char>, other: Seq<char>)
    requires
        distinct(h),
    ensures
        lookup(without(h, name), other) == if other == name {
            None
        } else {
            lookup(h, other)
        },
{
    lemma_index_of(h, name);
    lemma_index_of(h, other);
    let r = without(h, name);
    let k = index_of(h, name);
    let m = index_of(h, other);
    if k < h.len() {
        if other == name {
            assert forall|j: int| 0 <= j < r.len() implies (#[trigger] r[j]).0 != other by {
                let a = if j < k { j } else { j + 1 };
                assert(r[j] == h[a]);
                assert(h[a].0 != h[k].0);
            }
            lemma_index_of_is(r, other, r.len() as int);
        } else {
            let t = if m < k { m } else { m - 1 };
            assert forall|j: int| 0 <= j < t implies (#[trigger] r[j]).0 != other by {
                let a = if j < k { j } else { j + 1 };
                assert(r[j] == h[a]);
            }
            if m < h.len() {
                assert(r[t] == h[m]);
            }
            lemma_index_of_is(r, other, t);
        }
    }
}

/// The headers of a request, by name.
#[derive(Debug)]
pub struct Headers {
    entries: Vec<(String, String)>,
}

/// The names and values of a list of entries.
pub open spec fn pairs(entries: Seq<(String, String)>) -> HeaderList {
    Seq::new(entries.len(), |i: int| (entries[i].0@, entries[i].1@))
}

impl View for Headers {
    type V = HeaderList;

    closed spec fn view(&self) -> HeaderList {
        pairs(self.entries@)
    }
}

impl Clone for Headers {
    fn clone(&self) -> (copy: Headers)
        ensures
            copy@ == self@,
    {
        proof {
            use_type_invariant(self);
        }
        let mut entries: Vec<(String, String)> = Vec::new();
        let mut i: usize = 0;
        while i < self.entries.len()
            invariant
                i <= self.entries@.len(),
                entries@.len() == i,
                pairs(entries@) == pairs(self.entries@).take(i as int),
            decreases self.entries@.len() - i,
        {
            let name = self.entries[i].0.clone();
            let value = self.entries[i].1.clone();
            let ghost before = entries@;
            entries.push((name, value));
            assert forall|j: int| 0 <= j < i + 1 implies pairs(entries@)[j] == pairs(
                self.entries@,
            )[j] by {
                if j < i {
                    assert(pairs(before)[j] == pairs(self.entries@).take(i as int)[j]);
                }
            }
            assert(pairs(entries@) =~= pairs(self.entries@).take(i + 1));
            i += 1;
        }
        assert(pairs(entries@) =~= pairs(self.entries@));
        Headers { entries }
    }
}

impl Headers {
    #[verifier::type_invariant]
    spec fn names_distinct(self) -> bool {
        distinct(self@)
    }

    /// No headers.
    pub fn new() -> (h: Headers)
        ensures
            h@ == Seq::<(Seq<char>, Seq<char>)>::empty(),
    {
        let h = Headers { entries: Vec::new() };
        assert(h@ =~= Seq::<(Seq<char>, Seq<char>)>::empty());
        h
    }

    /// The number of headers.
    pub fn len(&self) -> (n: usize)
        ensures
            n == self@.len(),
            distinct(self@),
    {
        proof {
            use_type_invariant(self);
        }
        self.entries.len()
    }

    /// Whether there are no headers.
    pub fn is_empty(&self) -> (r: bool)
        ensures
            r == (self@.len() == 0),
    {
        self.entries.len() == 0
    }

    /// The name of the entry at index `i`.
    pub fn name_at(&self, i: usize) -> (name: &String)
        requires
            i < self@.len(),
        ensures
            name@ == self@[i as int].0,
    {
        &self.entries[i].0
    }

    /// The value of the entry at index `i`.
    pub fn value_at(&self, i: usize) -> (value: &String)
        requires
            i < self@.len(),
        ensures
            value@ == self@[i as int].1,
    {
        &self.entries[i].1
    }

    fn find(&self, name: &str) -> (i: usize)
        ensures
            i == index_of(self@, name@),
            i <= self@.len(),
    {
        let mut i: usize = 0;
        while i < self.entries.len() && !str_eq(self.entries[i].0.as_str(), name)
            invariant
                i <= self.entries@.len(),
                self@.len() == self.entries@.len(),
                forall|j: int| 0 <= j < i ==> (#[trigger] self@[j]).0 != name@,
            decreases self.entries@.len() - i,
        {
            i += 1;
        }
        proof {
            lemma_index_of_is(self@, name@, i as int);
        }
        i
    }

    /// The value of a name, if it has one.
    pub fn get(&self, name: &str) -> (value: Option<&String>)
        ensures
            match value {
                Some(v) => lookup(self@, name@) == Some(v@),
                None => lookup(self@, name@) is None,
            },
    {
        let i = self.find(name);
        if i < self.entries.len() {
            Some(&self.entries[i].1)
        } else {
            None
        }
    }

    /// Whether a name has a value.
    pub fn contains_key(&self, name: &str) -> (r: bool)
        ensures
            r == lookup(self@, name@) is Some,
    {
        let i = self.find(name);
        i < self.entries.len()
    }

    /// Sets `name` to `value` and returns the value that it had.
    pub fn insert(&mut self, name: String, value: String) -> (previous: Option<String>)
        ensures
            final(self)@ == put(old(self)@, name@, value@),
            distinct(final(self)@),
            match previous {
                Some(v) => lookup(old(self)@, name@) == Some(v@),
                None => lookup(old(self)@, name@) is None,
            },
    {
        proof {
            use_type_invariant(&*self);
            lemma_put_distinct(self@, name@, value@);
        }
        let i = self.find(name.as_str());
        let ghost before = self.entries@;
        let mut fresh: Vec<(String, String)> = Vec::new();
        std::mem::swap(&mut fresh, &mut self.entries);
        if i < fresh.len() {
            let old_entry = fresh.remove(i);
            fresh.insert(i, (name, value));
            proof {
                assert(pairs(fresh@) =~= put(pairs(before), name@, value@));
            }
            self.entries = fresh;
            Some(old_entry.1)
        } else {
            fresh.push((name, value));
            proof {
                assert(pairs(fresh@) =~= put(pairs(before), name@, value@));
            }
            self.entries = fresh;
            None
        }
    }

    /// Removes `name` and returns the value that it had.
    pub fn remove(&mut self, name: &str) -> (previous: Option<String>)
        ensures
            final(self)@ == without(old(self)@, name@),
            distinct(final(self)@),
            match previous {
                Some(v) => lookup(old(self)@, name@) == Some(v@),
                None => lookup(old(self)@, name@) is None,
            },
    {
        proof {
            use_type_invariant(&*self);
            lemma_without_distinct(self@, name@);
        }
        let i = self.find(name);
        if i < self.entries.len() {
            let ghost before = self.entries@;
            let mut fresh: Vec<(String, String)> = Vec::new();
            std::mem::swap(&mut fresh, &mut self.entries);
            let old_entry = fresh.remove(i);
            proof {
                assert(pairs(fresh@) =~= without(pairs(before), name@));
            }
            self.entries = fresh;
            Some(old_entry.1)
        } else {
            None
        }
    }
}

} // verus!
