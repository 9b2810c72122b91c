//! The connected consumers.

use std::collections::HashMap;

use vstd::prelude::*;

use crate::connection_table::{connections, group, pairs, ConnectionKey, ConnectionTable, Groups};

verus! {

broadcast use vstd::std_specs::hash::group_hash_axioms;

/// The connected consumers, by URI (CN) and connection ID.
pub struct ConsumerRegistry<C> {
    table: ConnectionTable<C>,
}

/// `before` with connection `id` of the consumer `uri`.
pub open spec fn joined<C>(before: Groups<C>, uri: Seq<char>, id: usize, connection: C) -> Groups<C> {
    before.insert(uri, group(before, uri).insert(id, connection))
}

/// `before` without connection `id` of the consumer `uri`. A consumer without
/// connections is forgotten.
pub open spec fn parted<C>(before: Groups<C>, uri: Seq<char>, id: usize) -> Groups<C> {
    if before.contains_key(uri) {
        let rest = before[uri].remove(id);
        if rest.is_empty() {
            before.remove(uri)
        } else {
            before.insert(uri, rest)
        }
    } else {
        before
    }
}

impl<C> View for ConsumerRegistry<C> {
    type V = Groups<C>;

    closed spec fn view(&self) -> Groups<C> {
        self.table@
    }
}

impl<C> ConsumerRegistry<C> {
    /// A consumer's URI occurs at most once.
    pub closed spec fn wf(&self) -> bool {
        self.table.wf()
    }

    /// The registry without consumers.
    pub fn new() -> (r: Self)
        ensures
            r.wf(),
            r@ == Map::<Seq<char>, Map<usize, C>>::empty(),
    {
        ConsumerRegistry { table: ConnectionTable::new() }
    }

    /// Adds connection `id` of the consumer `uri`.
    pub fn add_connection(&mut self, uri: &str, id: usize, connection: C)
        requires
            old(self).wf(),
        ensures
            final(self).wf(),
            final(self)@ == joined(old(self)@, uri@, id, connection),
    {
        let mut members: HashMap<usize, C> = match self.table.take(uri) {
            Some(h) => h,
            None => HashMap::new(),
        };
        proof {
            assert(members@ =~= group(old(self)@, uri@));
        }
        members.insert(id, connection);
        self.table.put(uri.to_owned(), members);
        proof {
            assert(self@ =~= joined(old(self)@, uri@, id, connection));
        }
    }

    /// Removes connection `id` of the consumer `uri`.
    pub fn remove_connection(&mut self, uri: &str, id: usize)
        requires
            old(self).wf(),
        ensures
            final(self).wf(),
            final(self)@ == parted(old(self)@, uri@, id),
    {
        match self.table.take(uri) {
            Some(mut members) => {
                members.remove(&id);
                if !members.is_empty() {
                    self.table.put(uri.to_owned(), members);
                }
                proof {
                    assert(self@ =~= parted(old(self)@, uri@, id));
                }
            },
            None => {
                proof {
                    assert(self@ =~= parted(old(self)@, uri@, id));
                }
            },
        }
    }

    /// Connection `id` of the consumer `uri`.
    pub fn get(&self, uri: &str, id: usize) -> (r: Option<&C>)
        requires
            self.wf(),
        ensures
            match r {
                Some(connection) => group(self@, uri@).contains_key(id) && group(self@, uri@)[id]
                    == *connection,
                None => !group(self@, uri@).contains_key(id),
            },
    {
        match self.table.get(uri) {
            Some(members) => members.get(&id),
            None => None,
        }
    }

    /// Names every connection once.
    pub fn list(&self) -> (r: Vec<ConnectionKey>)
        requires
            self.wf(),
        ensures
            pairs(r@).no_duplicates(),
            pairs(r@).to_set() == connections(self@),
    {
        self.table.list()
    }

    /// The number of connections.
    pub fn count(&self) -> (r: usize)
        requires
            self.wf(),
        ensures
            r == connections(self@).len(),
    {
        self.table.count()
    }
}

/// A connection that comes and goes leaves the registry as it found it.
pub proof fn law_joining_and_parting_cancel<C>(
    before: Groups<C>,
    uri: Seq<char>,
    id: usize,
    connection: C,
)
    requires
        before.contains_key(uri) ==> !before[uri].is_empty(),
        !group(before, uri).contains_key(id),
    ensures
        parted(joined(before, uri, id, connection), uri, id) == before,
{
    let members = group(before, uri);
    let with_it = joined(before, uri, id, connection);
    assert(with_it[uri].remove(id) =~= members);
    if before.contains_key(uri) {
        assert(with_it.insert(uri, members) =~= before);
    } else {
        assert(members.is_empty());
        assert(with_it.remove(uri) =~= before);
    }
}

/// No consumer stays in the registry without connections: joining and parting
/// keep every URI's connections non-empty.
pub proof fn law_no_consumer_without_connections<C>(
    before: Groups<C>,
    uri: Seq<char>,
    id: usize,
    connection: C,
    other: Seq<char>,
)
    requires
        forall|u: Seq<char>| #[trigger] before.contains_key(u) ==> !before[u].is_empty(),
    ensures
        joined(before, uri, id, connection).contains_key(other) ==> !joined(
            before,
            uri,
            id,
            connection,
        )[other].is_empty(),
        parted(before, uri, id).contains_key(other) ==> !parted(before, uri, id)[other].is_empty(),
{
    if other == uri {
        assert(joined(before, uri, id, connection)[uri].dom().contains(id));
    }
}

/// A connection that joins is there as it came, and every other connection stays as
/// it was.
pub proof fn law_joined_connection_is_there<C>(
    before: Groups<C>,
    uri: Seq<char>,
    id: usize,
    connection: C,
    other_uri: Seq<char>,
    other_id: usize,
)
    ensures
        ({
            let after = joined(before, uri, id, connection);
            &&& after.contains_key(uri) && after[uri].contains_key(id) && after[uri][id]
                == connection
            &&& (other_uri, other_id) != (uri, id) ==> {
                &&& (after.contains_key(other_uri) && after[other_uri].contains_key(other_id)) == (
                before.contains_key(other_uri) && before[other_uri].contains_key(other_id))
                &&& before.contains_key(other_uri) && before[other_uri].contains_key(other_id)
                    ==> after[other_uri][other_id] == before[other_uri][other_id]
            }
        }),
{
}

/// A connection that parts is gone, every other connection stays as it was, and a
/// consumer stays exactly while it has another connection.
pub proof fn law_parted_connection_is_gone<C>(
    before: Groups<C>,
    uri: Seq<char>,
    id: usize,
    other_uri: Seq<char>,
    other_id: usize,
)
    ensures
        ({
            let after = parted(before, uri, id);
            &&& !(after.contains_key(uri) && after[uri].contains_key(id))
            &&& (other_uri, other_id) != (uri, id) ==> {
                &&& (after.contains_key(other_uri) && after[other_uri].contains_key(other_id)) == (
                before.contains_key(other_uri) && before[other_uri].contains_key(other_id))
                &&& before.contains_key(other_uri) && before[other_uri].contains_key(other_id)
                    ==> after[other_uri][other_id] == before[other_uri][other_id]
            }
            &&& after.contains_key(uri) ==> exists|k: usize|
                k != id && before[uri].contains_key(k) && #[trigger] after[uri].contains_key(k)
        }),
{
    let after = parted(before, uri, id);
    if before.contains_key(uri) {
        let rest = before[uri].remove(id);
        if before[uri].contains_key(other_id) && other_id != id {
            assert(rest.dom().contains(other_id));
        }
        if !rest.is_empty() {
            let k = choose|k: usize| rest.dom().contains(k);
            if forall|k: usize| !rest.dom().contains(k) {
                assert(rest.dom() =~= Set::empty());
            }
            assert(rest.dom().contains(k));
            assert(after[uri].contains_key(k));
        }
    }
}

} // verus!
