//! A small map from Cell names to values, kept as a list without repeated names.

use vstd::prelude::*;

use crate::text::{chars_of, owned, same_text, text_less, text_lt};

verus! {

/// Position of the first `name` among `names`, or -1.
pub open spec fn index_in(names: Seq<Seq<char>>, name: Seq<char>) -> int {
    if exists|i: int| 0 <= i < names.len() && names[i] == name {
        choose|i: int| 0 <= i < names.len() && names[i] == name && forall|j: int| 0 <= j < i ==> names[j] != name
    } else {
        -1
    }
}

/// No name occurs twice.
pub open spec fn distinct(names: Seq<Seq<char>>) -> bool {
    forall|i: int, j: int| 0 <= i < names.len() && 0 <= j < names.len() && i != j ==> names[i] != names[j]
}

/// The first occurrence is where `index_in` points.
pub proof fn lemma_index_in(names: Seq<Seq<char>>, name: Seq<char>, i: int)
    requires
        0 <= i < names.len(),
        names[i] == name,
        forall|j: int| 0 <= j < i ==> names[j] != name,
    ensures
        index_in(names, name) == i,
{
    assert(exists|k: int|
        0 <= k < names.len() && names[k] == name && forall|j: int| 0 <= j < k ==> names[j] != name);
    let k = index_in(names, name);
    if k < i {
        assert(names[k] != name);
    } else if k > i {
        assert(names[i] != name);
    }
}

/// In a list without repeats, the only occurrence is the first.
pub proof fn lemma_index_in_distinct(names: Seq<Seq<char>>, name: Seq<char>, i: int)
    requires
        distinct(names),
        0 <= i < names.len(),
        names[i] == name,
    ensures
        index_in(names, name) == i,
{
    assert forall|j: int| 0 <= j < i implies names[j] != name by {}
    lemma_index_in(names, name, i);
}

/// Values keyed by Cell name.
#[derive(Debug)]
pub struct NameTable<T> {
    entries: Vec<(String, T)>,
}

impl<T> NameTable<T> {
    /// The names, in insertion order.
    pub closed spec fn names(&self) -> Seq<Seq<char>> {
        Seq::new(self.entries@.len(), |i: int| self.entries@[i].0@)
    }

    /// The values, in the same order.
    pub closed spec fn values(&self) -> Seq<T> {
        Seq::new(self.entries@.len(), |i: int| self.entries@[i].1)
    }

    /// The table as a map.
    pub open spec fn as_map(&self) -> Map<Seq<char>, T> {
        Map::new(|k: Seq<char>| self.names().contains(k), |k: Seq<char>| self.values()[index_in(self.names(), k)])
    }

    /// No name twice.
    pub open spec fn wf(&self) -> bool {
        distinct(self.names()) && self.values().len() == self.names().len()
    }

    /// An empty table.
    pub fn new() -> (r: Self)
        ensures
            r.wf(),
            r.names().len() == 0,
            r.as_map() == Map::<Seq<char>, T>::empty(),
    {
        let r = NameTable { entries: Vec::new() };
        assert(r.as_map() =~= Map::<Seq<char>, T>::empty());
        r
    }

    fn find(&self, name: &str) -> (r: Option<usize>)
        ensures
            match r {
                Some(i) => i < self.names().len() && self.names()[i as int] == name@ && index_in(self.names(), name@)
                    == i,
                None => !self.names().contains(name@),
            },
    {
        let mut i: usize = 0;
        while i < self.entries.len()
            invariant
                i <= self.entries@.len(),
                forall|j: int| 0 <= j < i ==> self.names()[j] != name@,
            decreases self.entries@.len() - i,
        {
            if same_text(self.entries[i].0.as_str(), name) {
                proof {
                    lemma_index_in(self.names(), name@, i as int);
                }
                return Some(i);
            }
            i = i + 1;
        }
        None
    }

    /// Sets the value of `name`, replacing an earlier one.
    pub fn insert(&mut self, name: String, value: T)
        requires
            old(self).wf(),
        ensures
            final(self).wf(),
            final(self).as_map() == old(self).as_map().insert(name@, value),
            old(self).names().contains(name@) ==> final(self).names() == old(self).names(),
            !old(self).names().contains(name@) ==> final(self).names() == old(self).names().push(name@),
    {
        let ghost old_names = self.names();
        let ghost old_values = self.values();
        let ghost k = name@;
        match self.find(name.as_str()) {
            Some(i) => {
                self.entries.set(i, (name, value));
                proof {
                    assert(self.names() =~= old_names);
                    assert(self.values() =~= old_values.update(i as int, value));
                    assert(self.as_map() =~= old(self).as_map().insert(k, value)) by {
                        assert forall|n: Seq<char>| #[trigger] self.names().contains(n) implies self.values()[index_in(
                            self.names(),
                            n,
                        )] == (if n == k { value } else { old_values[index_in(old_names, n)] }) by {
                            let a = index_in(old_names, n);
                            let w = choose|w: int| 0 <= w < old_names.len() && old_names[w] == n;
                            lemma_index_in_distinct(old_names, n, w);
                            if n == k {
                                lemma_index_in_distinct(old_names, k, i as int);
                            } else {
                                assert(a != i);
                            }
                        }
                    }
                }
            },
            None => {
                self.entries.push((name, value));
                proof {
                    assert(self.names() =~= old_names.push(k));
                    assert(self.values() =~= old_values.push(value));
                    assert forall|a: int, b: int|
                        0 <= a < self.names().len() && 0 <= b < self.names().len() && a != b implies self.names()[a]
                        != self.names()[b] by {
                        if a == old_names.len() {
                            assert(old_names[b] != k);
                        } else if b == old_names.len() {
                            assert(old_names[a] != k);
                        }
                    }
                    assert(self.as_map() =~= old(self).as_map().insert(k, value)) by {
                        assert forall|n: Seq<char>| #[trigger] self.names().contains(n) <==> (old_names.contains(n) || n
                            == k) by {
                            if old_names.contains(n) {
                                let w = choose|w: int| 0 <= w < old_names.len() && old_names[w] == n;
                                assert(self.names()[w] == n);
                            }
                            if n == k {
                                assert(self.names()[old_names.len() as int] == k);
                            }
                            if self.names().contains(n) {
                                let w = choose|w: int| 0 <= w < self.names().len() && self.names()[w] == n;
                                if w < old_names.len() {
                                    assert(old_names[w] == n);
                                }
                            }
                        }
                        assert forall|n: Seq<char>| #[trigger] self.names().contains(n) implies self.values()[index_in(
                            self.names(),
                            n,
                        )] == (if n == k { value } else { old_values[index_in(old_names, n)] }) by {
                            if n == k {
                                lemma_index_in_distinct(self.names(), k, old_names.len() as int);
                            } else {
                                let w = choose|w: int| 0 <= w < self.names().len() && self.names()[w] == n;
                                lemma_index_in_distinct(self.names(), n, w);
                                assert(w < old_names.len());
                                lemma_index_in_distinct(old_names, n, w);
                            }
                        }
                    }
                }
            },
        }
    }

    /// The value of `name`.
    pub fn get(&self, name: &str) -> (r: Option<&T>)
        requires
            self.wf(),
        ensures
            match r {
                Some(v) => self.as_map().contains_key(name@) && *v == self.as_map()[name@],
                None => !self.as_map().contains_key(name@),
            },
    {
        match self.find(name) {
            Some(i) => {
                assert(self.values()[i as int] == self.entries@[i as int].1);
                Some(&self.entries[i].1)
            },
            None => None,
        }
    }

    /// Takes the value of `name` out.
    pub fn remove(&mut self, name: &str) -> (r: Option<T>)
        requires
            old(self).wf(),
        ensures
            final(self).wf(),
            final(self).as_map() == old(self).as_map().remove(name@),
            match r {
                Some(v) => old(self).as_map().contains_key(name@) && v == old(self).as_map()[name@],
                None => !old(self).as_map().contains_key(name@),
            },
            final(self).names().len() == if r is Some { old(self).names().len() - 1 } else { old(self).names().len() as int },
    {
        let ghost old_names = self.names();
        let ghost old_values = self.values();
        match self.find(name) {
            Some(i) => {
                let (_, v) = self.entries.remove(i);
                proof {
                    assert(self.names() =~= old_names.remove(i as int));
                    assert(self.values() =~= old_values.remove(i as int));
                    assert forall|a: int, b: int|
                        0 <= a < self.names().len() && 0 <= b < self.names().len() && a != b implies self.names()[a]
                        != self.names()[b] by {
                        let a2 = if a < i { a } else { a + 1 };
                        let b2 = if b < i { b } else { b + 1 };
                        assert(self.names()[a] == old_names[a2]);
                        assert(self.names()[b] == old_names[b2]);
                    }
                    assert(self.as_map() =~= old(self).as_map().remove(name@)) by {
                        assert forall|n: Seq<char>| #[trigger] self.names().contains(n) <==> (old_names.contains(n) && n
                            != name@) by {
                            if old_names.contains(n) && n != name@ {
                                let k = choose|k: int| 0 <= k < old_names.len() && old_names[k] == n;
                                assert(k != i);
                                let k2 = if k < i { k } else { k - 1 };
                                assert(self.names()[k2] == n);
                            }
                            if self.names().contains(n) {
                                let k = choose|k: int| 0 <= k < self.names().len() && self.names()[k] == n;
                                let k2 = if k < i { k } else { k + 1 };
                                assert(old_names[k2] == n);
                                assert(k2 != i);
                            }
                        }
                        assert forall|n: Seq<char>| #[trigger] self.names().contains(n) implies self.values()[index_in(
                            self.names(),
                            n,
                        )] == old_values[index_in(old_names, n)] by {
                            let k = choose|k: int| 0 <= k < self.names().len() && self.names()[k] == n;
                            lemma_index_in_distinct(self.names(), n, k);
                            let k2 = if k < i { k } else { k + 1 };
                            lemma_index_in_distinct(old_names, n, k2);
                        }
                    }
                    lemma_index_in_distinct(old_names, name@, i as int);
                }
                Some(v)
            },
            None => {
                assert(old(self).as_map() =~= old(self).as_map().remove(name@));
                None
            },
        }
    }

    /// How many names have a value.
    pub fn len(&self) -> (r: usize)
        ensures
            r == self.names().len(),
    {
        self.entries.len()
    }

    /// Whether no name has a value.
    pub fn is_empty(&self) -> (r: bool)
        ensures
            r == (self.names().len() == 0),
    {
        self.entries.len() == 0
    }
}

/// The pairs hold each name at most once and come in strict order of name.
pub open spec fn strictly_by_name(v: Seq<(String, String)>) -> bool {
    forall|i: int, j: int| 0 <= i < j < v.len() ==> text_lt(#[trigger] v[i].0@, #[trigger] v[j].0@)
}

impl NameTable<String> {
    /// The entries in order of name: one pair per name, with its value.
    pub fn pairs_by_name(&self) -> (r: Vec<(String, String)>)
        requires
            self.wf(),
        ensures
            r@.len() == self.names().len(),
            strictly_by_name(r@),
            forall|i: int|
                0 <= i < r@.len() ==> self.as_map().contains_key((#[trigger] r@[i]).0@) && r@[i].1@
                    == self.as_map()[r@[i].0@]@,
    {
        let mut out: Vec<(String, String)> = Vec::new();
        let mut i: usize = 0;
        while i < self.entries.len()
            invariant
                self.wf(),
                i <= self.entries@.len(),
                out@.len() == i,
                strictly_by_name(out@),
                forall|k: int|
                    0 <= k < out@.len() ==> exists|m: int|
                        0 <= m < i && (#[trigger] out@[k]).0@ == self.names()[m] && out@[k].1@
                            == self.values()[m]@,
            decreases self.entries@.len() - i,
        {
            let name = owned(self.entries[i].0.as_str());
            let value = owned(self.entries[i].1.as_str());
            let ghost ni = self.names()[i as int];
            assert(name@ == ni);
            assert(value@ == self.values()[i as int]@);
            let nc = chars_of(name.as_str());
            let mut k: usize = out.len();
            let ghost before = out@;
            while k > 0 && text_less(&nc, &chars_of(out[k - 1].0.as_str()))
                invariant
                    k <= out@.len(),
                    out@ == before,
                    nc@ == ni,
                    forall|m: int| k <= m < out@.len() ==> text_lt(ni, #[trigger] out@[m].0@),
                decreases k,
            {
                k = k - 1;
            }
            proof {
                if k > 0 {
                    crate::text::lemma_text_lt_total(ni, out@[k - 1].0@);
                    let m = choose|m: int|
                        0 <= m < i && out@[k - 1].0@ == self.names()[m] && out@[k - 1].1@ == self.values()[m]@;
                    assert(m != i);
                    assert(self.names()[m] != self.names()[i as int]);
                }
            }
            out.insert(k, (name, value));
            proof {
                let r = out@;
                assert forall|a: int, b: int| 0 <= a < b < r.len() implies text_lt(#[trigger] r[a].0@, #[trigger] r[b].0@) by {
                    if b < k {
                        assert(r[a] == before[a] && r[b] == before[b]);
                    } else if b == k {
                        assert(r[b].0@ == ni);
                        assert(r[a] == before[a]);
                        if a < k - 1 {
                            assert(text_lt(before[a].0@, before[k - 1].0@));
                            crate::text::lemma_text_lt_trans(before[a].0@, before[k - 1].0@, ni);
                        }
                    } else if a > k {
                        assert(r[a] == before[a - 1] && r[b] == before[b - 1]);
                    } else if a == k {
                        assert(r[b] == before[b - 1]);
                    } else {
                        assert(r[a] == before[a] && r[b] == before[b - 1]);
                        if a < k - 1 || b - 1 > k - 1 {
                        }
                        assert(text_lt(before[a].0@, before[b - 1].0@));
                    }
                }
                assert forall|q: int| 0 <= q < r.len() implies exists|m: int|
                    0 <= m < i + 1 && (#[trigger] r[q]).0@ == self.names()[m] && r[q].1@ == self.values()[m]@ by {
                    if q < k {
                        assert(r[q] == before[q]);
                    } else if q == k {
                        assert(r[q].0@ == self.names()[i as int]);
                    } else {
                        assert(r[q] == before[q - 1]);
                    }
                }
            }
            i = i + 1;
        }
        proof {
            assert forall|q: int| 0 <= q < out@.len() implies self.as_map().contains_key((#[trigger] out@[q]).0@)
                && out@[q].1@ == self.as_map()[out@[q].0@]@ by {
                let m = choose|m: int|
                    0 <= m < self.entries@.len() && out@[q].0@ == self.names()[m] && out@[q].1@ == self.values()[m]@;
                lemma_index_in_distinct(self.names(), self.names()[m], m);
                assert(self.names().contains(out@[q].0@));
            }
        }
        out
    }
}

} // verus!
