use vstd::prelude::*;
use std::collections::HashMap;

verus! {

/// The slots after writing `node` under `id`: the slot that holds `id` is
/// overwritten in place; an id not yet present gets a new slot at the end.
pub open spec fn upserted<T>(ids: Seq<i32>, nodes: Seq<T>, id: i32, node: T) -> (Seq<i32>, Seq<T>) {
    if ids.contains(id) {
        (ids, nodes.update(ids.index_of(id), node))
    } else {
        (ids.push(id), nodes.push(node))
    }
}

/// Nodes kept in a dense array of slots, with an id-to-slot index for
/// constant-time lookup. Each id owns exactly one slot; writing under an id
/// that is present replaces the node in its slot (last write wins).
pub struct NodeRegistry<T> {
    nodes: Vec<T>,
    ids: Vec<i32>,
    index: HashMap<i32, usize>,
}

impl<T> NodeRegistry<T> {
    /// The id of each slot, in slot order.
    pub closed spec fn ids(&self) -> Seq<i32> {
        self.ids@
    }

    /// The node of each slot, in slot order.
    pub closed spec fn nodes(&self) -> Seq<T> {
        self.nodes@
    }

    /// One id and one node per slot, no id twice, and the index maps each id
    /// to its slot and nothing else.
    pub closed spec fn wf(&self) -> bool {
        &&& self.ids@.len() == self.nodes@.len()
        &&& self.ids@.no_duplicates()
        &&& forall|id: i32| #[trigger]
            self.index@.contains_key(id) <==> self.ids@.contains(id)
        &&& forall|id: i32| #[trigger]
            self.index@.contains_key(id) ==> {
                let s = self.index@[id] as int;
                0 <= s < self.ids@.len() && self.ids@[s] == id
            }
    }

    /// A well-formed registry has one node per slot and no id in two slots.
    pub proof fn lemma_wf_basics(&self)
        requires
            self.wf(),
        ensures
            self.ids().len() == self.nodes().len(),
            self.ids().no_duplicates(),
    {
    }

    pub fn new() -> (r: Self)
        ensures
            r.wf(),
            r.ids() == Seq::<i32>::empty(),
            r.nodes() == Seq::<T>::empty(),
    {
        NodeRegistry { nodes: Vec::new(), ids: Vec::new(), index: HashMap::new() }
    }

    /// Reserves room for `capacity` nodes; the contents are unchanged.
    pub fn with_capacity(capacity: usize) -> (r: Self)
        ensures
            r.wf(),
            r.ids() == Seq::<i32>::empty(),
            r.nodes() == Seq::<T>::empty(),
    {
        NodeRegistry {
            nodes: Vec::with_capacity(capacity),
            ids: Vec::with_capacity(capacity),
            index: HashMap::new(),
        }
    }

    /// Number of slots.
    pub fn len(&self) -> (r: usize)
        requires
            self.wf(),
        ensures
            r == self.nodes().len(),
            r == self.ids().len(),
    {
        self.nodes.len()
    }

    /// Drops every node.
    pub fn clear(&mut self)
        ensures
            final(self).wf(),
            final(self).ids() == Seq::<i32>::empty(),
            final(self).nodes() == Seq::<T>::empty(),
    {
        self.nodes.clear();
        self.ids.clear();
        self.index.clear();
        assert(self.ids@ =~= Seq::<i32>::empty());
        assert(self.nodes@ =~= Seq::<T>::empty());
    }

    /// The slot that holds `id`, if any.
    pub fn slot_of(&self, id: i32) -> (r: Option<usize>)
        requires
            self.wf(),
        ensures
            r is None <==> !self.ids().contains(id),
            r matches Some(s) ==> s < self.ids().len() && self.ids()[s as int] == id,
    {
        match self.index.get(&id) {
            Some(s) => Some(*s),
            None => None,
        }
    }

    /// The id held by slot `slot`.
    pub fn id_at(&self, slot: usize) -> (r: i32)
        requires
            self.wf(),
            slot < self.ids().len(),
        ensures
            r == self.ids()[slot as int],
    {
        self.ids[slot]
    }

    /// The node held by slot `slot`.
    pub fn node_at(&self, slot: usize) -> (r: &T)
        requires
            self.wf(),
            slot < self.nodes().len(),
        ensures
            *r == self.nodes()[slot as int],
    {
        &self.nodes[slot]
    }

    /// The node stored under `id`, if any.
    pub fn get(&self, id: i32) -> (r: Option<&T>)
        requires
            self.wf(),
        ensures
            r is None <==> !self.ids().contains(id),
            r matches Some(n) ==> *n == self.nodes()[self.ids().index_of(id)],
    {
        match self.slot_of(id) {
            Some(s) => {
                proof {
                    self.lemma_index_of_slot(id, s as int);
                }
                Some(&self.nodes[s])
            },
            None => None,
        }
    }

    /// Replaces the node in slot `slot`, keeping its id.
    pub fn set_node_at(&mut self, slot: usize, node: T)
        requires
            old(self).wf(),
            slot < old(self).nodes().len(),
        ensures
            final(self).wf(),
            final(self).ids() == old(self).ids(),
            final(self).nodes() == old(self).nodes().update(slot as int, node),
    {
        self.nodes.set(slot, node);
    }

    proof fn lemma_index_of_slot(&self, id: i32, s: int)
        requires
            self.wf(),
            0 <= s < self.ids().len(),
            self.ids()[s] == id,
        ensures
            self.ids().index_of(id) == s,
    {
        assert(self.ids@.contains(id));
        let i = self.ids@.index_of(id);
        assert(0 <= i < self.ids@.len() && self.ids@[i] == id);
    }

    /// Writes `node` under `id`: an id already present keeps its slot and has
    /// its node replaced whole; a new id is given a new slot at the end.
    pub fn upsert(&mut self, id: i32, node: T)
        requires
            old(self).wf(),
        ensures
            final(self).wf(),
            (final(self).ids(), final(self).nodes()) == upserted(
                old(self).ids(),
                old(self).nodes(),
                id,
                node,
            ),
    {
        match self.index.get(&id) {
            Some(s) => {
                let s: usize = *s;
                proof {
                    self.lemma_index_of_slot(id, s as int);
                }
                self.nodes.set(s, node);
            },
            None => {
                let s: usize = self.nodes.len();
                self.nodes.push(node);
                self.ids.push(id);
                self.index.insert(id, s);
                proof {
                    assert forall|k: i32| #[trigger]
                        self.index@.contains_key(k) <==> self.ids@.contains(k) by {
                        if k != id {
                            if old(self).ids@.contains(k) {
                                let j = old(self).ids@.index_of(k);
                                assert(self.ids@[j] == k);
                            }
                            if self.ids@.contains(k) {
                                let j = self.ids@.index_of(k);
                                assert(old(self).ids@[j] == k);
                            }
                        } else {
                            assert(self.ids@[s as int] == id);
                        }
                    }
                    assert forall|k: i32| #[trigger] self.index@.contains_key(k) implies {
                        let t = self.index@[k] as int;
                        0 <= t < self.ids@.len() && self.ids@[t] == k
                    } by {
                        if k != id {
                            assert(old(self).index@.contains_key(k));
                        }
                    }
                    assert forall|i: int, j: int|
                        0 <= i < self.ids@.len() && 0 <= j < self.ids@.len() && i != j implies
                        self.ids@[i] != self.ids@[j] by {
                        if i == s as int && j < s as int {
                            assert(old(self).ids@.contains(old(self).ids@[j]));
                            assert(old(self).index@.contains_key(old(self).ids@[j]));
                        }
                        if j == s as int && i < s as int {
                            assert(old(self).ids@.contains(old(self).ids@[i]));
                            assert(old(self).index@.contains_key(old(self).ids@[i]));
                        }
                    }
                }
            },
        }
    }
}

/// Writing a node under the same id twice leaves exactly one slot for that
/// id, holding the node of the second write, and as many slots as a single
/// write would.
pub proof fn lemma_upsert_twice_keeps_last<T>(ids: Seq<i32>, nodes: Seq<T>, id: i32, a: T, b: T)
    requires
        ids.len() == nodes.len(),
        ids.no_duplicates(),
    ensures
        ({
            let once = upserted(ids, nodes, id, a);
            let twice = upserted(once.0, once.1, id, b);
            &&& twice.0 == once.0
            &&& twice.0.no_duplicates()
            &&& twice.0.len() == twice.1.len()
            &&& twice.0.contains(id)
            &&& twice.1[twice.0.index_of(id)] == b
            &&& forall|s: int|
                0 <= s < twice.0.len() && twice.0[s] == id ==> s == twice.0.index_of(id)
            &&& forall|s: int|
                0 <= s < twice.0.len() && twice.0[s] != id ==> twice.1[s] == nodes[s]
        }),
{
    let once = upserted(ids, nodes, id, a);
    if ids.contains(id) {
        let i = ids.index_of(id);
        assert(0 <= i < ids.len() && ids[i] == id);
    } else {
        assert(once.0[ids.len() as int] == id);
        assert(once.0.contains(id));
        let i = once.0.index_of(id);
        assert(0 <= i < once.0.len() && once.0[i] == id);
        assert forall|s: int, t: int|
            0 <= s < once.0.len() && 0 <= t < once.0.len() && s != t implies once.0[s]
            != once.0[t] by {
            if s == ids.len() as int {
                assert(ids[t] == once.0[t]);
            }
            if t == ids.len() as int {
                assert(ids[s] == once.0[s]);
            }
        }
    }
}

} // verus!
