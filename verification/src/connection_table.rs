//! Connections, grouped by a name.

use std::collections::HashMap;

use vstd::prelude::*;

use crate::name_map::NameMap;

verus! {

broadcast use vstd::std_specs::hash::group_hash_axioms;

/// Connections by the name of their group and by connection ID.
pub struct ConnectionTable<E> {
    groups: NameMap<HashMap<usize, E>>,
}

/// Names one connection of a table.
pub struct ConnectionKey {
    pub name: String,
    pub id: usize,
}

/// The groups of a table and the connections in each.
pub type Groups<E> = Map<Seq<char>, Map<usize, E>>;

impl ConnectionKey {
    /// The group's name and the ID.
    pub open spec fn pair(self) -> (Seq<char>, usize) {
        (self.name@, self.id)
    }
}

/// The connections of the group `name`.
pub open spec fn group<E>(groups: Groups<E>, name: Seq<char>) -> Map<usize, E> {
    if groups.contains_key(name) {
        groups[name]
    } else {
        Map::empty()
    }
}

/// Whether connection `p.1` is in the group `p.0`.
pub open spec fn connected<E>(groups: Groups<E>, p: (Seq<char>, usize)) -> bool {
    groups.contains_key(p.0) && groups[p.0].contains_key(p.1)
}

/// All connections of a table.
pub open spec fn connections<E>(groups: Groups<E>) -> Set<(Seq<char>, usize)> {
    Set::new(|p: (Seq<char>, usize)| connected(groups, p))
}

/// The keys of `v` as pairs.
pub open spec fn pairs(v: Seq<ConnectionKey>) -> Seq<(Seq<char>, usize)> {
    v.map_values(|k: ConnectionKey| k.pair())
}

fn ids<E>(h: &HashMap<usize, E>) -> (r: Vec<usize>)
    ensures
        r@.no_duplicates(),
        forall|id: usize| r@.contains(id) <==> h@.contains_key(id),
{
    let mut r: Vec<usize> = Vec::new();
    for id in it: h.keys()
        invariant
            r@ == it.seq().unref().take(it.index()),
            it.seq().no_duplicates(),
            it.seq().unref().to_set() == h@.dom(),
            it.index() == it.seq().len() ==> r@ == it.seq().unref(),
    {
        r.push(*id);
        proof {
            let all = it.seq().unref();
            assert(all.take(it.index() + 1) =~= all.take(it.index()).push(*id));
        }
    }
    proof {
        assert forall|id: usize| r@.contains(id) <==> h@.contains_key(id) by {
            assert(r@.to_set().contains(id) == h@.dom().contains(id));
        }
    }
    r
}

impl<E> View for ConnectionTable<E> {
    type V = Groups<E>;

    closed spec fn view(&self) -> Groups<E> {
        self.groups@.map_values(|h: HashMap<usize, E>| h@)
    }
}

impl<E> ConnectionTable<E> {
    /// A group's name occurs at most once.
    pub closed spec fn wf(&self) -> bool {
        self.groups.wf()
    }

    /// The table without groups.
    pub fn new() -> (r: Self)
        ensures
            r.wf(),
            r@ == Map::<Seq<char>, Map<usize, E>>::empty(),
    {
        let r = ConnectionTable { groups: NameMap::new() };
        proof {
            assert(r@ =~= Map::<Seq<char>, Map<usize, E>>::empty());
        }
        r
    }

    /// The connections of the group `name`.
    pub fn get(&self, name: &str) -> (r: Option<&HashMap<usize, E>>)
        requires
            self.wf(),
        ensures
            match r {
                Some(h) => self@.contains_key(name@) && self@[name@] == h@,
                None => !self@.contains_key(name@),
            },
    {
        self.groups.get(name)
    }

    /// Takes the group `name` out of the table.
    pub fn take(&mut self, name: &str) -> (r: Option<HashMap<usize, E>>)
        requires
            old(self).wf(),
        ensures
            final(self).wf(),
            final(self)@ == old(self)@.remove(name@),
            match r {
                Some(h) => old(self)@.contains_key(name@) && old(self)@[name@] == h@,
                None => !old(self)@.contains_key(name@),
            },
    {
        let r = self.groups.remove(name);
        proof {
            assert(self@ =~= old(self)@.remove(name@));
        }
        r
    }

    /// Puts the group `name` into the table, in place of one of that name.
    pub fn put(&mut self, name: String, connections: HashMap<usize, E>)
        requires
            old(self).wf(),
        ensures
            final(self).wf(),
            final(self)@ == old(self)@.insert(name@, connections@),
    {
        self.groups.insert(name, connections);
        proof {
            assert(self@ =~= old(self)@.insert(name@, connections@));
        }
    }

    /// The number of groups.
    pub fn group_count(&self) -> (r: usize)
        requires
            self.wf(),
        ensures
            r == self@.dom().len(),
    {
        proof {
            self.groups.lemma_names();
            self.groups.names().unique_seq_to_set();
            assert(self.groups.names().to_set() =~= self@.dom());
        }
        self.groups.len()
    }

    /// Names every connection of the table once.
    pub fn list(&self) -> (r: Vec<ConnectionKey>)
        requires
            self.wf(),
        ensures
            pairs(r@).no_duplicates(),
            pairs(r@).to_set() == connections(self@),
    {
        let mut r: Vec<ConnectionKey> = Vec::new();
        let ghost names = self.groups.names();
        proof {
            self.groups.lemma_names();
        }
        let mut g: usize = 0;
        while g < self.groups.len()
            invariant
                self.wf(),
                names == self.groups.names(),
                names.no_duplicates(),
                forall|i: int| 0 <= i < names.len() ==> self.groups@.contains_key(#[trigger] names[i]),
                g <= names.len(),
                pairs(r@).no_duplicates(),
                forall|p: (Seq<char>, usize)|
                    #![trigger pairs(r@).contains(p)]
                    pairs(r@).contains(p) <==> connected(self@, p) && names.take(g as int).contains(p.0),
            decreases names.len() - g,
        {
            let name = self.groups.name_at(g);
            let connections = self.groups.value_at(g);
            let members = ids(connections);
            let ghost before = r@;
            let mut k: usize = 0;
            proof {
                assert(self@.contains_key(name@));
                assert(self@[name@] == connections@);
            }
            while k < members.len()
                invariant
                    k <= members@.len(),
                    members@.no_duplicates(),
                    forall|id: usize| members@.contains(id) <==> connections@.contains_key(id),
                    self@.contains_key(name@),
                    self@[name@] == connections@,
                    g < names.len(),
                    name@ == names[g as int],
                    names.no_duplicates(),
                    forall|p: (Seq<char>, usize)|
                        #![trigger pairs(before).contains(p)]
                        pairs(before).contains(p) <==> connected(self@, p) && names.take(
                            g as int,
                        ).contains(p.0),
                    pairs(r@).no_duplicates(),
                    forall|p: (Seq<char>, usize)|
                        #![trigger pairs(r@).contains(p)]
                        pairs(r@).contains(p) <==> (pairs(before).contains(p) || (p.0 == name@
                            && members@.take(k as int).contains(p.1))),
                decreases members@.len() - k,
            {
                let id: usize = members[k];
                let ghost earlier = r@;
                let ghost added = (name@, id);
                proof {
                    if pairs(before).contains(added) {
                        let j = choose|j: int|
                            0 <= j < names.take(g as int).len() && names.take(g as int)[j] == added.0;
                        assert(names[j] == names[g as int]);
                    }
                    if members@.take(k as int).contains(id) {
                        let j = choose|j: int| 0 <= j < k && members@.take(k as int)[j] == id;
                        assert(members@[j] == members@[k as int]);
                    }
                    assert(!pairs(earlier).contains(added));
                }
                r.push(ConnectionKey { name: name.to_owned(), id });
                proof {
                    assert(pairs(r@) =~= pairs(earlier).push(added));
                    assert(members@.take(k + 1) =~= members@.take(k as int).push(id));
                    assert forall|p: (Seq<char>, usize)|
                        #![trigger pairs(r@).contains(p)]
                        pairs(r@).contains(p) <==> (pairs(before).contains(p) || (p.0 == name@
                            && members@.take(k + 1).contains(p.1))) by {
                        lemma_push_contains(pairs(earlier), added, p);
                        lemma_push_contains(members@.take(k as int), id, p.1);
                    }
                }
                k = k + 1;
            }
            proof {
                assert(members@.take(k as int) =~= members@);
                assert(names.take(g + 1) =~= names.take(g as int).push(name@));
                assert forall|p: (Seq<char>, usize)|
                    #![trigger pairs(r@).contains(p)]
                    pairs(r@).contains(p) <==> connected(self@, p) && names.take(g + 1).contains(p.0) by {
                    lemma_push_contains(names.take(g as int), name@, p.0);
                    assert(pairs(before).contains(p) <==> connected(self@, p) && names.take(
                        g as int,
                    ).contains(p.0));
                }
            }
            g = g + 1;
        }
        proof {
            assert(names.take(g as int) =~= names);
            assert forall|p: (Seq<char>, usize)| pairs(r@).to_set().contains(p) == connections(self@).contains(
                p,
            ) by {
                if connected(self@, p) {
                    assert(self.groups@.contains_key(p.0));
                }
                assert(pairs(r@).contains(p) <==> connected(self@, p) && names.contains(p.0));
            }
            assert(pairs(r@).to_set() =~= connections(self@));
        }
        r
    }

    /// The number of connections.
    pub fn count(&self) -> (r: usize)
        requires
            self.wf(),
        ensures
            r == connections(self@).len(),
    {
        let keys = self.list();
        proof {
            pairs(keys@).unique_seq_to_set();
        }
        keys.len()
    }
}

proof fn lemma_push_contains<T>(s: Seq<T>, added: T, x: T)
    ensures
        s.push(added).contains(x) <==> (s.contains(x) || x == added),
{
    let t = s.push(added);
    if s.contains(x) {
        let i = choose|i: int| 0 <= i < s.len() && s[i] == x;
        assert(t[i] == x);
    }
    assert(t[s.len() as int] == added);
    if t.contains(x) && x != added {
        let i = choose|i: int| 0 <= i < t.len() && t[i] == x;
        assert(s[i] == x);
    }
}

/// A table holds a connection exactly where the group of that name does, and a group
/// that is not there holds none.
pub proof fn law_connections_are_those_of_the_groups<E>(
    groups: Groups<E>,
    name: Seq<char>,
    id: usize,
)
    ensures
        connections(groups).contains((name, id)) <==> groups.contains_key(name)
            && groups[name].contains_key(id),
        connected(groups, (name, id)) <==> groups.contains_key(name) && groups[name].contains_key(
            id,
        ),
        groups.contains_key(name) ==> group(groups, name) == groups[name],
        !groups.contains_key(name) ==> !group(groups, name).contains_key(id),
{
}

/// A key stands for its name and its ID.
pub proof fn law_keys_stand_for_name_and_id(keys: Seq<ConnectionKey>, i: int)
    requires
        0 <= i < keys.len(),
    ensures
        pairs(keys).len() == keys.len(),
        pairs(keys)[i] == (keys[i].name@, keys[i].id),
{
}

} // verus!
