//! The instances that are connected.

use vstd::prelude::*;

use crate::instances::InstanceId;
use crate::text::text_views;

verus! {

/// How to reach a connected instance: the path of its socket, and the sending
/// end of the control connection with it.
#[derive(Debug)]
pub struct PeerHandle<S> {
    pub socket_path: String,
    pub sender: S,
}

/// A connected instance.
#[derive(Debug)]
struct Peer<S> {
    instance_id: InstanceId,
    handle: PeerHandle<S>,
}

/// The connected instances by name. The view is a map; no name occurs twice.
#[derive(Debug)]
pub struct PeerTable<S> {
    peers: Vec<Peer<S>>,
}

impl<S> View for PeerTable<S> {
    type V = Map<Seq<char>, PeerHandle<S>>;

    closed spec fn view(&self) -> Map<Seq<char>, PeerHandle<S>> {
        Map::new(
            |id: Seq<char>| self.holds(id, self.peers.len() as int),
            |id: Seq<char>| self.peers[self.place(id)].handle,
        )
    }
}

impl<S> PeerTable<S> {
    /// Whether one of the first `n` peers has this name.
    spec fn holds(self, id: Seq<char>, n: int) -> bool {
        exists|i: int| 0 <= i < n && (#[trigger] self.peers[i]).instance_id@ == id
    }

    /// Where the peer of this name stands.
    spec fn place(self, id: Seq<char>) -> int {
        choose|i: int| 0 <= i < self.peers.len() && (#[trigger] self.peers[i]).instance_id@ == id
    }

    /// No name occurs twice.
    pub closed spec fn wf(self) -> bool {
        forall|i: int, j: int|
            0 <= i < j < self.peers.len() ==> (#[trigger] self.peers[i]).instance_id@ != (
            #[trigger] self.peers[j]).instance_id@
    }

    /// The peer at `i` is the one that the view gives for its name.
    proof fn lemma_at(self, i: int)
        requires
            self.wf(),
            0 <= i < self.peers.len(),
        ensures
            self@.dom().contains(self.peers[i].instance_id@),
            self@[self.peers[i].instance_id@] == self.peers[i].handle,
    {
        let id = self.peers[i].instance_id@;
        assert(self.holds(id, self.peers.len() as int));
        let k = self.place(id);
        assert(self.peers[k].instance_id@ == id);
        if k < i {
            assert(self.peers[k].instance_id@ != self.peers[i].instance_id@);
        } else if i < k {
            assert(self.peers[i].instance_id@ != self.peers[k].instance_id@);
        }
    }

    /// A table of no peers.
    pub fn new() -> (table: Self)
        ensures
            table.wf(),
            table@ == Map::<Seq<char>, PeerHandle<S>>::empty(),
    {
        let table = PeerTable { peers: Vec::new() };
        assert(table@ == Map::<Seq<char>, PeerHandle<S>>::empty());
        table
    }

    /// The position of a peer; the number of peers if it is not there.
    fn position(&self, instance_id: &InstanceId) -> (index: usize)
        ensures
            index <= self.peers.len(),
            index < self.peers.len() ==> self.peers[index as int].instance_id@ == instance_id@,
            index == self.peers.len() ==> !self@.dom().contains(instance_id@),
    {
        let n: usize = self.peers.len();
        for i in 0..n
            invariant
                n == self.peers.len(),
                !self.holds(instance_id@, i as int),
        {
            if self.peers[i].instance_id == *instance_id {
                return i;
            }
        }
        n
    }

    /// How to reach the peer of this name.
    pub fn get(&self, instance_id: &InstanceId) -> (r: Option<&PeerHandle<S>>)
        requires
            self.wf(),
        ensures
            match r {
                Some(handle) => self@.dom().contains(instance_id@) && *handle
                    == self@[instance_id@],
                None => !self@.dom().contains(instance_id@),
            },
    {
        let index: usize = self.position(instance_id);
        if index < self.peers.len() {
            proof {
                self.lemma_at(index as int);
            }
            Some(&self.peers[index].handle)
        } else {
            None
        }
    }

    /// Takes the peer at `index` out.
    fn remove_at(&mut self, index: usize)
        requires
            old(self).wf(),
            index < old(self).peers.len(),
        ensures
            final(self).wf(),
            final(self)@ == old(self)@.remove(old(self).peers[index as int].instance_id@),
    {
        let ghost before = *self;
        let ghost k = index as int;
        let ghost gone = self.peers[k].instance_id@;
        let _ = self.peers.remove(index);
        assert forall|i: int| 0 <= i < self.peers.len() implies #[trigger] self.peers[i]
            == before.peers[if i < k {
            i
        } else {
            i + 1
        }] by {}
        assert(self.wf());
        assert forall|id: Seq<char>| #[trigger] self@.dom().contains(id) <==> before@.dom().contains(
            id,
        ) && id != gone by {
            if self@.dom().contains(id) {
                let i = self.place(id);
                let from = if i < k {
                    i
                } else {
                    i + 1
                };
                assert(before.peers[from].instance_id@ == id);
                assert(before.peers[k].instance_id@ == gone);
            }
            if before@.dom().contains(id) && id != gone {
                let i = before.place(id);
                let to = if i < k {
                    i
                } else {
                    i - 1
                };
                assert(self.peers[to].instance_id@ == id);
            }
        }
        assert forall|id: Seq<char>| self@.dom().contains(id) implies #[trigger] self@[id]
            == before@[id] by {
            let i = self.place(id);
            let from = if i < k {
                i
            } else {
                i + 1
            };
            self.lemma_at(i);
            assert(self.peers[i] == before.peers[from]);
            before.lemma_at(from);
        }
        assert(self@ == before@.remove(gone));
    }

    /// Takes the peer of this name out; says whether it was there.
    pub fn remove(&mut self, instance_id: &InstanceId) -> (was_there: bool)
        requires
            old(self).wf(),
        ensures
            final(self).wf(),
            final(self)@ == old(self)@.remove(instance_id@),
            was_there == old(self)@.dom().contains(instance_id@),
    {
        let index: usize = self.position(instance_id);
        if index < self.peers.len() {
            proof {
                self.lemma_at(index as int);
            }
            self.remove_at(index);
            true
        } else {
            assert(self@ == old(self)@.remove(instance_id@));
            false
        }
    }

    /// Adds a peer, in place of one of the same name.
    pub fn insert(&mut self, instance_id: InstanceId, handle: PeerHandle<S>)
        requires
            old(self).wf(),
        ensures
            final(self).wf(),
            final(self)@ == old(self)@.insert(instance_id@, handle),
    {
        let ghost id = instance_id@;
        let _ = self.remove(&instance_id);
        let ghost before = *self;
        let ghost n = self.peers.len() as int;
        self.peers.push(Peer { instance_id, handle });
        assert forall|i: int| 0 <= i < n implies #[trigger] self.peers[i] == before.peers[i] by {}
        assert forall|i: int| 0 <= i < n implies (#[trigger] self.peers[i]).instance_id@ != id by {
            assert(before.peers[i].instance_id@ == self.peers[i].instance_id@);
            if self.peers[i].instance_id@ == id {
                assert(before@.dom().contains(id));
            }
        }
        assert(self.wf());
        assert(self.peers[n].instance_id@ == id);
        proof {
            self.lemma_at(n);
        }
        assert forall|k: Seq<char>| #[trigger] self@.dom().contains(k) <==> before@.dom().contains(
            k,
        ) || k == id by {
            if before@.dom().contains(k) {
                let i = before.place(k);
                assert(self.peers[i].instance_id@ == k);
            }
            if self@.dom().contains(k) {
                let i = self.place(k);
                if i < n {
                    assert(before.peers[i].instance_id@ == k);
                }
            }
        }
        assert forall|k: Seq<char>| before@.dom().contains(k) implies #[trigger] self@[k]
            == before@[k] by {
            let i = before.place(k);
            before.lemma_at(i);
            assert(self.peers[i] == before.peers[i]);
            self.lemma_at(i);
        }
        assert(self@ == old(self)@.insert(id, handle));
    }

    /// The names of the peers, each once, in an order that is left open.
    pub fn ids(&self) -> (ids: Vec<InstanceId>)
        requires
            self.wf(),
        ensures
            text_views(ids@).no_duplicates(),
            text_views(ids@).to_set() == self@.dom(),
    {
        let n: usize = self.peers.len();
        let mut ids: Vec<InstanceId> = Vec::new();
        for i in 0..n
            invariant
                n == self.peers.len(),
                ids.len() == i,
                forall|j: int|
                    0 <= j < i ==> (#[trigger] ids[j])@ == self.peers[j].instance_id@,
        {
            ids.push(self.peers[i].instance_id.clone());
        }
        let ghost names = text_views(ids@);
        assert forall|j: int| 0 <= j < n implies #[trigger] names[j]
            == self.peers[j].instance_id@ by {
            assert(ids[j]@ == self.peers[j].instance_id@);
        }
        assert forall|id: Seq<char>| #[trigger] names.to_set().contains(id) <==> self@.dom().contains(
            id,
        ) by {
            if names.contains(id) {
                let j = choose|j: int| 0 <= j < names.len() && names[j] == id;
                assert(self.peers[j].instance_id@ == id);
            }
            if self@.dom().contains(id) {
                let j = self.place(id);
                assert(names[j] == id);
            }
        }
        assert(names.to_set() == self@.dom());
        ids
    }
}

} // verus!
