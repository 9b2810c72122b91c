//! A map from names to values that hands its entries out in insertion order.

use vstd::prelude::*;

use crate::text::same_text;

verus! {

/// A map keyed by text. A name occurs at most once.
pub struct NameMap<V> {
    entries: Vec<(String, V)>,
}

/// No two entries have the same name.
pub open spec fn distinct_names<V>(s: Seq<(String, V)>) -> bool {
    forall|i: int, j: int| 0 <= i < j < s.len() ==> #[trigger] s[i].0@ != #[trigger] s[j].0@
}

/// Whether some entry of `s` is called `name`.
pub open spec fn has_name<V>(s: Seq<(String, V)>, name: Seq<char>) -> bool {
    exists|i: int| 0 <= i < s.len() && #[trigger] s[i].0@ == name
}

/// Where the entry called `name` stands in `s`.
pub open spec fn place_of<V>(s: Seq<(String, V)>, name: Seq<char>) -> int {
    choose|i: int| 0 <= i < s.len() && #[trigger] s[i].0@ == name
}

/// The map that the entries `s` stand for.
pub open spec fn as_map<V>(s: Seq<(String, V)>) -> Map<Seq<char>, V> {
    Map::new(|name: Seq<char>| has_name(s, name), |name: Seq<char>| s[place_of(s, name)].1)
}

proof fn lemma_place_of<V>(s: Seq<(String, V)>, i: int)
    requires
        distinct_names(s),
        0 <= i < s.len(),
    ensures
        has_name(s, s[i].0@),
        place_of(s, s[i].0@) == i,
        as_map(s).contains_key(s[i].0@),
        as_map(s)[s[i].0@] == s[i].1,
{
    let p = place_of(s, s[i].0@);
    assert(s[i].0@ == s[i].0@);
    assert(0 <= p < s.len() && s[p].0@ == s[i].0@);
    if p < i {
        assert(s[p].0@ != s[i].0@);
    } else if i < p {
        assert(s[i].0@ != s[p].0@);
    }
}

proof fn lemma_push<V>(s: Seq<(String, V)>, e: (String, V))
    requires
        distinct_names(s),
        !has_name(s, e.0@),
    ensures
        distinct_names(s.push(e)),
        as_map(s.push(e)) == as_map(s).insert(e.0@, e.1),
{
    let t = s.push(e);
    assert forall|i: int, j: int| 0 <= i < j < t.len() implies #[trigger] t[i].0@ != #[trigger] t[j].0@ by {
        if j == s.len() {
            assert(t[i] == s[i]);
        }
    }
    lemma_place_of(t, s.len() as int);
    assert forall|name: Seq<char>| as_map(t).contains_key(name) == as_map(s).insert(e.0@, e.1).contains_key(name) by {
        if has_name(s, name) {
            let i = place_of(s, name);
            assert(t[i].0@ == name);
        }
        if has_name(t, name) && name != e.0@ {
            let i = place_of(t, name);
            assert(s[i].0@ == name);
        }
    }
    assert forall|name: Seq<char>| as_map(t).contains_key(name) implies #[trigger] as_map(t)[name] == as_map(s).insert(
        e.0@,
        e.1,
    )[name] by {
        if name != e.0@ {
            let i = place_of(t, name);
            assert(t[i] == s[i]);
            lemma_place_of(s, i);
        }
    }
    assert(as_map(t) =~= as_map(s).insert(e.0@, e.1));
}

proof fn lemma_remove<V>(s: Seq<(String, V)>, k: int)
    requires
        distinct_names(s),
        0 <= k < s.len(),
    ensures
        distinct_names(s.remove(k)),
        as_map(s.remove(k)) == as_map(s).remove(s[k].0@),
{
    let t = s.remove(k);
    let gone = s[k].0@;
    assert forall|i: int, j: int| 0 <= i < j < t.len() implies #[trigger] t[i].0@ != #[trigger] t[j].0@ by {
        let si = if i < k { i } else { i + 1 };
        let sj = if j < k { j } else { j + 1 };
        assert(t[i] == s[si] && t[j] == s[sj]);
    }
    assert forall|name: Seq<char>| as_map(t).contains_key(name) == as_map(s).remove(gone).contains_key(name) by {
        if has_name(s, name) && name != gone {
            let i = place_of(s, name);
            let ti = if i < k { i } else { i - 1 };
            assert(t[ti] == s[i]);
            assert(t[ti].0@ == name);
        }
        if has_name(t, name) {
            let i = place_of(t, name);
            let si = if i < k { i } else { i + 1 };
            assert(t[i] == s[si]);
            assert(s[si].0@ == name);
            if name == gone {
                lemma_place_of(s, si);
                lemma_place_of(s, k);
            }
        }
    }
    assert forall|name: Seq<char>| as_map(t).contains_key(name) implies #[trigger] as_map(t)[name] == as_map(s).remove(
        gone,
    )[name] by {
        let i = place_of(t, name);
        let si = if i < k { i } else { i + 1 };
        assert(t[i] == s[si]);
        lemma_place_of(s, si);
    }
    assert(as_map(t) =~= as_map(s).remove(gone));
}

impl<V> View for NameMap<V> {
    type V = Map<Seq<char>, V>;

    closed spec fn view(&self) -> Map<Seq<char>, V> {
        as_map(self.entries@)
    }
}

impl<V> NameMap<V> {
    /// A name occurs at most once.
    pub closed spec fn wf(&self) -> bool {
        distinct_names(self.entries@)
    }

    /// The names, in the order in which they were inserted.
    pub closed spec fn names(&self) -> Seq<Seq<char>> {
        self.entries@.map_values(|e: (String, V)| e.0@)
    }

    /// The names are the keys of the map, each one once.
    pub proof fn lemma_names(&self)
        requires
            self.wf(),
        ensures
            self.names().no_duplicates(),
            forall|i: int| 0 <= i < self.names().len() ==> self@.contains_key(#[trigger] self.names()[i]),
            forall|name: Seq<char>| #[trigger]
                self@.contains_key(name) ==> self.names().contains(name),
    {
        let s = self.entries@;
        assert forall|i: int| 0 <= i < self.names().len() implies self@.contains_key(
            #[trigger] self.names()[i],
        ) by {
            lemma_place_of(s, i);
        }
        assert forall|name: Seq<char>| #[trigger] self@.contains_key(name) implies self.names().contains(
            name,
        ) by {
            let i = place_of(s, name);
            assert(self.names()[i] == name);
        }
        assert forall|i: int, j: int|
            0 <= i < self.names().len() && 0 <= j < self.names().len() && i != j implies self.names()[i]
            != self.names()[j] by {
            if i < j {
                assert(s[i].0@ != s[j].0@);
            } else {
                assert(s[j].0@ != s[i].0@);
            }
        }
    }

    /// The empty map.
    pub fn new() -> (r: Self)
        ensures
            r.wf(),
            r@ == Map::<Seq<char>, V>::empty(),
            r.names() == Seq::<Seq<char>>::empty(),
    {
        let r = NameMap { entries: Vec::new() };
        proof {
            assert(r@ =~= Map::<Seq<char>, V>::empty());
            assert(r.names() =~= Seq::<Seq<char>>::empty());
        }
        r
    }

    /// The number of names.
    pub fn len(&self) -> (r: usize)
        ensures
            r == self.names().len(),
    {
        self.entries.len()
    }

    fn position(&self, name: &str) -> (r: Option<usize>)
        ensures
            match r {
                Some(i) => i < self.entries@.len() && self.entries@[i as int].0@ == name@,
                None => !has_name(self.entries@, name@),
            },
    {
        let mut i: usize = 0;
        while i < self.entries.len()
            invariant
                i <= self.entries@.len(),
                forall|j: int| 0 <= j < i ==> #[trigger] self.entries@[j].0@ != name@,
            decreases self.entries@.len() - i,
        {
            if same_text(self.entries[i].0.as_str(), name) {
                return Some(i);
            }
            i = i + 1;
        }
        None
    }

    /// The value of `name`.
    pub fn get(&self, name: &str) -> (r: Option<&V>)
        requires
            self.wf(),
        ensures
            match r {
                Some(v) => self@.contains_key(name@) && self@[name@] == *v,
                None => !self@.contains_key(name@),
            },
    {
        match self.position(name) {
            Some(i) => {
                proof {
                    lemma_place_of(self.entries@, i as int);
                }
                Some(&self.entries[i].1)
            },
            None => None,
        }
    }

    /// The name at place `i`.
    pub fn name_at(&self, i: usize) -> (r: &str)
        requires
            i < self.names().len(),
        ensures
            r@ == self.names()[i as int],
    {
        self.entries[i].0.as_str()
    }

    /// The value at place `i`.
    pub fn value_at(&self, i: usize) -> (r: &V)
        requires
            self.wf(),
            i < self.names().len(),
        ensures
            *r == self@[self.names()[i as int]],
    {
        proof {
            lemma_place_of(self.entries@, i as int);
        }
        &self.entries[i].1
    }

    /// Takes `name` out of the map and returns its value. The other names keep their
    /// order.
    pub fn remove(&mut self, name: &str) -> (r: Option<V>)
        requires
            old(self).wf(),
        ensures
            final(self).wf(),
            final(self)@ == old(self)@.remove(name@),
            final(self).names() == old(self).names().remove_value(name@),
            match r {
                Some(v) => old(self)@.contains_key(name@) && v == old(self)@[name@],
                None => !old(self)@.contains_key(name@) && *final(self) == *old(self),
            },
    {
        match self.position(name) {
            Some(i) => {
                proof {
                    lemma_place_of(self.entries@, i as int);
                    lemma_remove(self.entries@, i as int);
                }
                let (_name, value) = self.entries.remove(i);
                proof {
                    let names = old(self).names();
                    old(self).lemma_names();
                    names.index_of_first_ensures(name@);
                    assert(names[i as int] == name@);
                    assert(names.contains(name@));
                    let first = names.index_of_first(name@)->0;
                    assert(names[first] == names[i as int]);
                    assert(self.names() =~= names.remove(i as int));
                }
                Some(value)
            },
            None => {
                proof {
                    let names = self.names();
                    names.index_of_first_ensures(name@);
                    if names.contains(name@) {
                        let j = choose|j: int| 0 <= j < names.len() && names[j] == name@;
                        assert(self.entries@[j].0@ == name@);
                    }
                    assert(self@ =~= self@.remove(name@));
                }
                None
            },
        }
    }

    /// Gives `name` the value `value`. A new name goes to the end.
    pub fn insert(&mut self, name: String, value: V)
        requires
            old(self).wf(),
        ensures
            final(self).wf(),
            final(self)@ == old(self)@.insert(name@, value),
            final(self).names() == (if old(self)@.contains_key(name@) {
                old(self).names()
            } else {
                old(self).names().push(name@)
            }),
    {
        let ghost before = self.entries@;
        match self.position(name.as_str()) {
            Some(i) => {
                self.entries[i].1 = value;
                proof {
                    let after = self.entries@;
                    lemma_place_of(before, i as int);
                    assert forall|a: int, b: int| 0 <= a < b < after.len() implies #[trigger] after[a].0@
                        != #[trigger] after[b].0@ by {
                        assert(after[a].0 == before[a].0 && after[b].0 == before[b].0);
                    }
                    assert forall|n: Seq<char>| has_name(after, n) == has_name(before, n) by {
                        if has_name(before, n) {
                            let p = place_of(before, n);
                            assert(after[p].0@ == n);
                        }
                        if has_name(after, n) {
                            let p = place_of(after, n);
                            assert(before[p].0@ == n);
                        }
                    }
                    assert forall|n: Seq<char>| has_name(after, n) implies #[trigger] as_map(after)[n] == as_map(
                        before,
                    ).insert(name@, value)[n] by {
                        let p = place_of(after, n);
                        assert(before[p].0 == after[p].0);
                        lemma_place_of(before, p);
                        lemma_place_of(after, p);
                    }
                    assert(self@ =~= old(self)@.insert(name@, value));
                    assert(self.names() =~= old(self).names());
                }
            },
            None => {
                proof {
                    lemma_push(before, (name, value));
                }
                let ghost added = name@;
                self.entries.push((name, value));
                proof {
                    assert(self.names() =~= old(self).names().push(added));
                }
            },
        }
    }
}

/// The texts that the names of `m` have.
pub open spec fn text_map(m: Map<Seq<char>, String>) -> Map<Seq<char>, Seq<char>> {
    m.map_values(|v: String| v@)
}

impl NameMap<String> {
    /// Copies the map.
    pub fn duplicate(&self) -> (r: Self)
        requires
            self.wf(),
        ensures
            r.wf(),
            r.names() == self.names(),
            text_map(r@) == text_map(self@),
    {
        let mut r: NameMap<String> = NameMap::new();
        let n: usize = self.len();
        let mut i: usize = 0;
        proof {
            self.lemma_names();
            assert(self.names().take(0) =~= r.names());
        }
        while i < n
            invariant
                i <= n,
                n == self.names().len(),
                self.wf(),
                self.names().no_duplicates(),
                r.wf(),
                r.names() == self.names().take(i as int),
                forall|name: Seq<char>| #[trigger]
                    r@.contains_key(name) <==> self.names().take(i as int).contains(name),
                forall|name: Seq<char>| #[trigger]
                    r@.contains_key(name) ==> r@[name]@ == self@[name]@,
            decreases n - i,
        {
            let ghost before = self.names().take(i as int);
            let ghost name = self.names()[i as int];
            proof {
                if before.contains(name) {
                    let j = choose|j: int| 0 <= j < before.len() && before[j] == name;
                    assert(self.names()[j] == self.names()[i as int]);
                }
            }
            r.insert(self.name_at(i).to_owned(), self.value_at(i).as_str().to_owned());
            proof {
                let after = self.names().take(i + 1);
                assert(after =~= before.push(name));
                assert forall|m: Seq<char>| #[trigger] r@.contains_key(m) <==> after.contains(m) by {
                    if before.contains(m) {
                        let j = choose|j: int| 0 <= j < before.len() && before[j] == m;
                        assert(after[j] == m);
                    }
                    assert(after[i as int] == name);
                    if after.contains(m) && m != name {
                        let j = choose|j: int| 0 <= j < after.len() && after[j] == m;
                        assert(before[j] == m);
                    }
                }
            }
            i = i + 1;
        }
        proof {
            assert(self.names().take(i as int) =~= self.names());
            self.lemma_names();
            assert forall|name: Seq<char>| r@.contains_key(name) == #[trigger] self@.contains_key(
                name,
            ) by {
                if self.names().contains(name) {
                    let j = choose|j: int| 0 <= j < self.names().len() && self.names()[j] == name;
                    assert(self@.contains_key(self.names()[j]));
                }
            }
            assert(text_map(r@) =~= text_map(self@));
        }
        r
    }

    fn has_all_of(&self, other: &Self) -> (r: bool)
        requires
            self.wf(),
            other.wf(),
        ensures
            r == (forall|name: Seq<char>| #[trigger]
                other@.contains_key(name) ==> self@.contains_key(name) && self@[name]@
                    == other@[name]@),
    {
        let n: usize = other.len();
        let mut i: usize = 0;
        proof {
            other.lemma_names();
        }
        while i < n
            invariant
                i <= n,
                n == other.names().len(),
                self.wf(),
                other.wf(),
                forall|j: int|
                    0 <= j < other.names().len() ==> other@.contains_key(#[trigger] other.names()[j]),
                forall|j: int|
                    0 <= j < i ==> self@.contains_key(#[trigger] other.names()[j])
                        && self@[other.names()[j]]@ == other@[other.names()[j]]@,
            decreases n - i,
        {
            proof {
                assert(other@.contains_key(other.names()[i as int]));
            }
            match self.get(other.name_at(i)) {
                Some(value) => {
                    if !same_text(value.as_str(), other.value_at(i).as_str()) {
                        return false;
                    }
                },
                None => {
                    return false;
                },
            }
            i = i + 1;
        }
        proof {
            assert forall|name: Seq<char>| #[trigger] other@.contains_key(name) implies self@.contains_key(
                name,
            ) && self@[name]@ == other@[name]@ by {
                let j = choose|j: int| 0 <= j < other.names().len() && other.names()[j] == name;
                assert(other.names()[j] == name);
            }
        }
        true
    }

    /// Whether the two maps give the same texts to the same names.
    pub fn same_as(&self, other: &Self) -> (r: bool)
        requires
            self.wf(),
            other.wf(),
        ensures
            r == (text_map(self@) == text_map(other@)),
    {
        let r = self.has_all_of(other) && other.has_all_of(self);
        proof {
            let a = text_map(self@);
            let b = text_map(other@);
            if r {
                assert(a =~= b);
            }
            if a == b {
                assert forall|name: Seq<char>| #[trigger] other@.contains_key(name) implies self@.contains_key(
                    name,
                ) && self@[name]@ == other@[name]@ by {
                    assert(b.contains_key(name));
                    assert(a[name] == b[name]);
                }
                assert forall|name: Seq<char>| #[trigger] self@.contains_key(name) implies other@.contains_key(
                    name,
                ) && other@[name]@ == self@[name]@ by {
                    assert(a.contains_key(name));
                    assert(a[name] == b[name]);
                }
            }
        }
        r
    }
}

/// A map of texts has the same names as the map that it shows, each with its text.
pub proof fn law_text_map_shows_every_text(m: Map<Seq<char>, String>, name: Seq<char>)
    ensures
        text_map(m).contains_key(name) <==> m.contains_key(name),
        m.contains_key(name) ==> text_map(m)[name] == m[name]@,
{
}

} // verus!
