//! The connections that are open at one side of the mixnet.

use vstd::prelude::*;

use crate::packet::ConnectionId;

verus! {

/// Maps connection ids to what their connections are reached through.
#[derive(Debug)]
pub struct Connections<S> {
    entries: Vec<(ConnectionId, S)>,
}

/// Whether the `i`-th entry is that of `id`.
spec fn stands_at<S>(entries: Seq<(ConnectionId, S)>, id: Seq<u8>, i: int) -> bool {
    0 <= i < entries.len() && entries[i].0@ == id
}

/// Whether no id stands in two entries.
spec fn distinct<S>(entries: Seq<(ConnectionId, S)>) -> bool {
    forall|id: Seq<u8>, i: int, j: int|
        #[trigger] stands_at(entries, id, i) && #[trigger] stands_at(entries, id, j) ==> i == j
}

/// The map that the entries make up.
spec fn as_map<S>(entries: Seq<(ConnectionId, S)>) -> Map<Seq<u8>, S> {
    Map::new(
        |id: Seq<u8>| exists|i: int| stands_at(entries, id, i),
        |id: Seq<u8>| entries[choose|i: int| stands_at(entries, id, i)].1,
    )
}

impl<S> View for Connections<S> {
    type V = Map<Seq<u8>, S>;

    closed spec fn view(&self) -> Map<Seq<u8>, S> {
        as_map(self.entries@)
    }
}

/// A map that agrees with the entries is the one that they make up.
proof fn map_of_entries<S>(entries: Seq<(ConnectionId, S)>, map: Map<Seq<u8>, S>)
    requires
        distinct(entries),
        forall|id: Seq<u8>, i: int| #[trigger]
            stands_at(entries, id, i) ==> map.contains_key(id) && map[id] == entries[i].1,
        forall|id: Seq<u8>| #[trigger]
            map.contains_key(id) ==> exists|i: int| stands_at(entries, id, i),
    ensures
        as_map(entries) == map,
{
    assert forall|id: Seq<u8>| #[trigger] as_map(entries).contains_key(id) implies as_map(
        entries,
    )[id] == map[id] by {
        let i = choose|i: int| stands_at(entries, id, i);
        assert(stands_at(entries, id, i));
    }
    assert(as_map(entries) =~= map);
}

/// The entries hold what their map says.
proof fn entry_of_map<S>(entries: Seq<(ConnectionId, S)>, id: Seq<u8>, i: int)
    requires
        distinct(entries),
        stands_at(entries, id, i),
    ensures
        as_map(entries).contains_key(id),
        as_map(entries)[id] == entries[i].1,
{
}

proof fn push_entry<S>(entries: Seq<(ConnectionId, S)>, id: ConnectionId, sender: S)
    requires
        distinct(entries),
        !as_map(entries).contains_key(id@),
    ensures
        distinct(entries.push((id, sender))),
        as_map(entries.push((id, sender))) == as_map(entries).insert(id@, sender),
{
    let pushed = entries.push((id, sender));
    let map = as_map(entries).insert(id@, sender);
    assert forall|k: Seq<u8>, i: int| #[trigger] stands_at(pushed, k, i) implies stands_at(
        entries,
        k,
        i,
    ) || (k == id@ && i == entries.len()) by {}
    assert forall|k: Seq<u8>, i: int| #[trigger] stands_at(entries, k, i) implies stands_at(
        pushed,
        k,
        i,
    ) && k != id@ by {}
    assert forall|k: Seq<u8>, i: int| #[trigger] stands_at(pushed, k, i) implies map.contains_key(
        k,
    ) && map[k] == pushed[i].1 by {
        if i < entries.len() {
            entry_of_map(entries, k, i);
        }
    }
    assert forall|k: Seq<u8>| #[trigger] map.contains_key(k) implies exists|i: int|
        stands_at(pushed, k, i) by {
        if k == id@ {
            assert(stands_at(pushed, k, entries.len() as int));
        } else {
            let i = choose|i: int| stands_at(entries, k, i);
            assert(stands_at(pushed, k, i));
        }
    }
    map_of_entries(pushed, map);
}

proof fn remove_entry<S>(entries: Seq<(ConnectionId, S)>, at: int)
    requires
        distinct(entries),
        0 <= at < entries.len(),
    ensures
        distinct(entries.remove(at)),
        as_map(entries.remove(at)) == as_map(entries).remove(entries[at].0@),
{
    let removed = entries.remove(at);
    let id = entries[at].0@;
    let map = as_map(entries).remove(id);
    assert(stands_at(entries, id, at));
    assert forall|k: Seq<u8>, i: int| #[trigger] stands_at(removed, k, i) implies k != id
        && stands_at(entries, k, if i < at { i } else { i + 1 }) by {
        assert(stands_at(entries, k, if i < at { i } else { i + 1 }));
    }
    assert forall|k: Seq<u8>, i: int| #[trigger] stands_at(removed, k, i) implies map.contains_key(
        k,
    ) && map[k] == removed[i].1 by {
        entry_of_map(entries, k, if i < at { i } else { i + 1 });
    }
    assert forall|k: Seq<u8>| #[trigger] map.contains_key(k) implies exists|i: int|
        stands_at(removed, k, i) by {
        let i = choose|i: int| stands_at(entries, k, i);
        assert(stands_at(removed, k, if i < at { i } else { i - 1 }));
    }
    assert(distinct(removed)) by {
        assert forall|k: Seq<u8>, i: int, j: int| #[trigger]
            stands_at(removed, k, i) && #[trigger] stands_at(removed, k, j) implies i == j by {
            assert(stands_at(entries, k, if i < at { i } else { i + 1 }));
            assert(stands_at(entries, k, if j < at { j } else { j + 1 }));
        }
    }
    map_of_entries(removed, map);
}

proof fn update_entry<S>(entries: Seq<(ConnectionId, S)>, at: int, sender: S)
    requires
        distinct(entries),
        0 <= at < entries.len(),
    ensures
        distinct(entries.update(at, (entries[at].0, sender))),
        as_map(entries.update(at, (entries[at].0, sender))) == as_map(entries).insert(
            entries[at].0@,
            sender,
        ),
{
    let updated = entries.update(at, (entries[at].0, sender));
    let map = as_map(entries).insert(entries[at].0@, sender);
    assert(stands_at(entries, entries[at].0@, at));
    assert forall|k: Seq<u8>, i: int| #[trigger] stands_at(updated, k, i) == stands_at(
        entries,
        k,
        i,
    ) by {}
    assert forall|k: Seq<u8>, i: int| #[trigger] stands_at(updated, k, i) implies map.contains_key(
        k,
    ) && map[k] == updated[i].1 by {
        entry_of_map(entries, k, i);
    }
    assert forall|k: Seq<u8>| #[trigger] map.contains_key(k) implies exists|i: int|
        stands_at(updated, k, i) by {
        let i = choose|i: int| stands_at(entries, k, i);
        assert(stands_at(updated, k, i));
    }
    map_of_entries(updated, map);
}

/// Whether two ids are the same.
fn same_id(a: &ConnectionId, b: &ConnectionId) -> (same: bool)
    ensures
        same == (a@ == b@),
{
    let mut i: usize = 0;
    while i < 32
        invariant
            i <= 32,
            forall|j: int| 0 <= j < i ==> a@[j] == b@[j],
        decreases 32 - i,
    {
        if a[i] != b[i] {
            assert(a@[i as int] != b@[i as int]);
            return false;
        }
        i = i + 1;
    }
    assert(a@ =~= b@);
    true
}

impl<S> Connections<S> {
    /// No id stands for two connections.
    pub closed spec fn wf(&self) -> bool {
        distinct(self.entries@)
    }

    /// No connections.
    pub fn new() -> (connections: Connections<S>)
        ensures
            connections.wf(),
            connections@ == Map::<Seq<u8>, S>::empty(),
    {
        let connections = Connections { entries: Vec::new() };
        assert(connections@ =~= Map::<Seq<u8>, S>::empty());
        connections
    }

    /// Where the entry of `id` stands, if there is one.
    fn position(&self, id: &ConnectionId) -> (position: Option<usize>)
        ensures
            match position {
                Some(i) => stands_at(self.entries@, id@, i as int),
                None => !self@.contains_key(id@),
            },
    {
        let mut i: usize = 0;
        while i < self.entries.len()
            invariant
                i <= self.entries@.len(),
                forall|j: int| 0 <= j < i ==> !#[trigger] stands_at(self.entries@, id@, j),
            decreases self.entries@.len() - i,
        {
            if same_id(&self.entries[i].0, id) {
                return Some(i);
            }
            i = i + 1;
        }
        None
    }

    /// Whether the connection `id` is open.
    pub fn contains(&self, id: &ConnectionId) -> (open: bool)
        requires
            self.wf(),
        ensures
            open == self@.contains_key(id@),
    {
        match self.position(id) {
            Some(i) => {
                assert(stands_at(self.entries@, id@, i as int));
                true
            },
            None => false,
        }
    }

    /// Opens the connection `id`, in place of one that was open under the same id.
    pub fn insert(&mut self, id: ConnectionId, sender: S)
        requires
            old(self).wf(),
        ensures
            final(self).wf(),
            final(self)@ == old(self)@.insert(id@, sender),
    {
        self.remove(&id);
        proof {
            push_entry(self.entries@, id, sender);
            assert(old(self)@.remove(id@).insert(id@, sender) =~= old(self)@.insert(id@, sender));
        }
        self.entries.push((id, sender));
    }

    /// What the connection `id` is reached through, if it is open.
    pub fn get_mut(&mut self, id: &ConnectionId) -> (sender: Option<&mut S>)
        requires
            old(self).wf(),
        ensures
            final(self).wf(),
            match sender {
                Some(sender) => {
                    &&& old(self)@.contains_key(id@)
                    &&& *sender == old(self)@[id@]
                    &&& final(self)@ == old(self)@.insert(id@, *final(sender))
                },
                None => !old(self)@.contains_key(id@) && final(self)@ == old(self)@,
            },
    {
        match self.position(id) {
            Some(i) => {
                let ghost entries = self.entries@;
                let sender = &mut self.entries[i].1;
                proof {
                    entry_of_map(entries, id@, i as int);
                    update_entry(entries, i as int, *final(sender));
                }
                Some(sender)
            },
            None => None,
        }
    }

    /// Forgets the connection `id`.
    pub fn remove(&mut self, id: &ConnectionId)
        requires
            old(self).wf(),
        ensures
            final(self).wf(),
            final(self)@ == old(self)@.remove(id@),
    {
        if let Some(i) = self.position(id) {
            proof {
                remove_entry(self.entries@, i as int);
            }
            self.entries.remove(i);
        } else {
            assert(self@ =~= self@.remove(id@));
        }
    }
}

} // verus!
