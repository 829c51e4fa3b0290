use vstd::prelude::*;
use std::collections::HashMap;
use vstd::std_specs::iter::IteratorSpec;

verus! {

broadcast use vstd::std_specs::hash::group_hash_axioms;

/// The open connections of the turtles: for each connected turtle id,
/// the sender half of the channel its websocket task reads from.
pub struct ConnectionTable<S> {
    senders: HashMap<u16, S>,
}

impl<S> View for ConnectionTable<S> {
    type V = Map<u16, S>;

    closed spec fn view(&self) -> Map<u16, S> {
        self.senders@
    }
}

impl<S> ConnectionTable<S> {
    /// A table with no connection.
    pub fn new() -> (t: Self)
        ensures
            t@ == Map::<u16, S>::empty(),
    {
        ConnectionTable { senders: HashMap::new() }
    }

    /// Records `sender` as the way to reach turtle `id`, in place of any
    /// earlier one.
    pub fn register(&mut self, id: u16, sender: S)
        ensures
            final(self)@ == old(self)@.insert(id, sender),
    {
        self.senders.insert(id, sender);
    }

    /// Forgets turtle `id`'s connection.
    pub fn unregister(&mut self, id: u16)
        ensures
            final(self)@ == old(self)@.remove(id),
    {
        self.senders.remove(&id);
    }

    /// The sender that reaches turtle `id`, if it is connected.
    pub fn sender_for(&self, id: u16) -> (r: Option<&S>)
        ensures
            self@.contains_key(id) ==> r == Some(&self@[id]),
            !self@.contains_key(id) ==> r is None,
    {
        self.senders.get(&id)
    }

    /// The ids of the connected turtles, each once, in no particular
    /// order.
    pub fn get_connected_ids(&self) -> (ids: Vec<u16>)
        ensures
            ids@.to_set() == self@.dom(),
            ids@.no_duplicates(),
    {
        let mut ids: Vec<u16> = Vec::new();
        let ghost all = vstd::std_specs::hash::spec_keys_iter(&self.senders).remaining().unref();
        for k in it: self.senders.keys()
            invariant
                all == it.seq().unref(),
                ids@ == all.take(it.index()),
        {
            assert(all.take(it.index() + 1) =~= all.take(it.index()).push(*k));
            ids.push(*k);
        }
        assert(ids@ =~= all);
        ids
    }
}


/// The table's contents after a run of changes made from `start`, in
/// order: `(id, Some(sender))` stands for `register(id, sender)` and
/// `(id, None)` for `unregister(id)`.
pub open spec fn after_changes<S>(start: Map<u16, S>, changes: Seq<(u16, Option<S>)>) -> Map<u16, S>
    decreases changes.len(),
{
    if changes.len() == 0 {
        start
    } else {
        let c = changes.last();
        let before = after_changes(start, changes.drop_last());
        match c.1 {
            Some(sender) => before.insert(c.0, sender),
            None => before.remove(c.0),
        }
    }
}

/// Whether the last change of turtle `id` in `changes` registers it.
pub open spec fn last_change_registers<S>(changes: Seq<(u16, Option<S>)>, id: u16) -> bool {
    exists|i: int|
        #![trigger changes[i]]
        0 <= i < changes.len() && changes[i].0 == id && changes[i].1 is Some && forall|j: int|
            #![trigger changes[j]]
            i < j < changes.len() ==> changes[j].0 != id
}

/// Starting from a new table, after any run of `register` and
/// `unregister` calls, the connected turtles (the table's keys, which
/// `get_connected_ids` lists) are exactly those whose last call
/// registered them.
pub proof fn lemma_connected_after_changes<S>(changes: Seq<(u16, Option<S>)>)
    ensures
        after_changes(Map::<u16, S>::empty(), changes).dom()
            == Set::new(|id: u16| last_change_registers(changes, id)),
    decreases changes.len(),
{
    let m = after_changes(Map::<u16, S>::empty(), changes);
    if changes.len() == 0 {
        assert(m.dom() =~= Set::new(|id: u16| last_change_registers(changes, id)));
    } else {
        let prev = changes.drop_last();
        let n = changes.len() - 1;
        let c = changes[n];
        lemma_connected_after_changes(prev);
        assert forall|id: u16| m.contains_key(id) <==> last_change_registers(changes, id) by {
            if id == c.0 {
                if c.1 is Some {
                    assert(changes[n].0 == id);
                } else {
                    if last_change_registers(changes, id) {
                        let i = choose|i: int|
                            #![trigger changes[i]]
                            0 <= i < changes.len() && changes[i].0 == id && changes[i].1 is Some && forall|j: int|
                                #![trigger changes[j]]
                                i < j < changes.len() ==> changes[j].0 != id;
                        assert(changes[n].0 == id);
                    }
                }
            } else {
                if last_change_registers(changes, id) {
                    let i = choose|i: int|
                        #![trigger changes[i]]
                        0 <= i < changes.len() && changes[i].0 == id && changes[i].1 is Some && forall|j: int|
                            #![trigger changes[j]]
                            i < j < changes.len() ==> changes[j].0 != id;
                    assert(changes[n].0 != id);
                    assert(prev[i] == changes[i]);
                    assert forall|j: int| #![trigger prev[j]] i < j < prev.len() implies prev[j].0 != id by {
                        assert(prev[j] == changes[j]);
                    }
                    assert(last_change_registers(prev, id));
                }
                if last_change_registers(prev, id) {
                    let i = choose|i: int|
                        #![trigger prev[i]]
                        0 <= i < prev.len() && prev[i].0 == id && prev[i].1 is Some && forall|j: int|
                            #![trigger prev[j]]
                            i < j < prev.len() ==> prev[j].0 != id;
                    assert(prev[i] == changes[i]);
                    assert forall|j: int| #![trigger changes[j]] i < j < changes.len() implies changes[j].0 != id by {
                        if j < n {
                            assert(prev[j] == changes[j]);
                        }
                    }
                    assert(last_change_registers(changes, id));
                }
                assert(Set::new(|x: u16| last_change_registers(prev, x)).contains(id) == last_change_registers(prev, id));
            }
        }
        assert(m.dom() =~= Set::new(|id: u16| last_change_registers(changes, id)));
    }
}

} // verus!
