//! The tracker: it tells every node, once, who its peers are.

use crate::message::NewPeerBatch;
use vstd::prelude::*;

verus! {

/// Holds the handles of all the nodes until it has sent them round.
pub struct Tracker {
    nodes: Vec<usize>,
}

impl View for Tracker {
    type V = Seq<usize>;

    closed spec fn view(&self) -> Seq<usize> {
        self.nodes@
    }
}

/// The peers that the tracker names to the node at position `i` of `nodes`: all
/// the handles but the one at `i`, in their order.
pub open spec fn batch_for(nodes: Seq<usize>, i: int) -> Seq<usize> {
    nodes.remove(i)
}

/// How often `handle` occurs in `handles`.
pub open spec fn occurrences(handles: Seq<usize>, handle: usize) -> nat
    decreases handles.len(),
{
    if handles.len() == 0 {
        0
    } else {
        occurrences(handles.drop_last(), handle) + if handles.last() == handle {
            1nat
        } else {
            0nat
        }
    }
}

impl Tracker {
    /// A tracker for the nodes with the given handles.
    pub fn new(nodes: Vec<usize>) -> (tracker: Tracker)
        ensures
            tracker@ == nodes@,
    {
        Tracker { nodes }
    }

    /// The handles that the tracker holds, in node order.
    pub fn nodes(&self) -> (nodes: &Vec<usize>)
        ensures
            nodes@ == self@,
    {
        &self.nodes
    }

    /// What the tracker sends when it starts: to every node, in node order, one
    /// batch with the handles of all the others.
    pub fn started(&self) -> (sends: Vec<(usize, NewPeerBatch)>)
        ensures
            sends@.len() == self@.len(),
            forall|i: int|
                0 <= i < sends@.len() ==> (#[trigger] sends@[i]).0 == self@[i] && sends@[i].1.0@
                    == batch_for(self@, i),
    {
        let mut sends: Vec<(usize, NewPeerBatch)> = Vec::new();
        let mut i: usize = 0;
        while i < self.nodes.len()
            invariant
                i <= self.nodes.len(),
                sends@.len() == i,
                forall|k: int|
                    0 <= k < i ==> (#[trigger] sends@[k]).0 == self@[k] && sends@[k].1.0@
                        == batch_for(self@, k),
            decreases self.nodes.len() - i,
        {
            let mut others: Vec<usize> = self.nodes.clone();
            others.remove(i);
            sends.push((self.nodes[i], NewPeerBatch(others)));
            i = i + 1;
        }
        sends
    }
}

/// In a sequence that holds nothing twice, a handle occurs once where the
/// sequence contains it, and else not at all.
pub proof fn lemma_occurrences_distinct(handles: Seq<usize>, handle: usize)
    requires
        handles.no_duplicates(),
    ensures
        occurrences(handles, handle) == if handles.contains(handle) {
            1nat
        } else {
            0nat
        },
    decreases handles.len(),
{
    if handles.len() > 0 {
        let shorter = handles.drop_last();
        let last = handles.len() - 1;
        assert(forall|k: int| 0 <= k < shorter.len() ==> shorter[k] == handles[k]);
        lemma_occurrences_distinct(shorter, handle);
        if handles.last() == handle {
            if shorter.contains(handle) {
                let k = choose|k: int| 0 <= k < shorter.len() && shorter[k] == handle;
                assert(handles[k] == handles[last]);
            }
            assert(handles[last] == handle);
        } else if handles.contains(handle) {
            let k = choose|k: int| 0 <= k < handles.len() && handles[k] == handle;
            assert(shorter[k] == handle);
        } else if shorter.contains(handle) {
            let k = choose|k: int| 0 <= k < shorter.len() && shorter[k] == handle;
            assert(handles[k] == handle);
        }
    }
}

/// Where the handles of the nodes are distinct and every node knew no peer
/// before, the batch of the tracker leaves node `i` with every other node `j`
/// as a peer exactly once, and without itself as a peer.
pub proof fn lemma_tracker_completeness(nodes: Seq<usize>, i: int, j: int)
    requires
        nodes.no_duplicates(),
        0 <= i < nodes.len(),
        0 <= j < nodes.len(),
        i != j,
    ensures
        (Seq::<usize>::empty() + batch_for(nodes, i)).len() == nodes.len() - 1,
        occurrences(Seq::<usize>::empty() + batch_for(nodes, i), nodes[j]) == 1,
        occurrences(Seq::<usize>::empty() + batch_for(nodes, i), nodes[i]) == 0,
{
    let batch = batch_for(nodes, i);
    let peers = Seq::<usize>::empty() + batch;
    assert(peers =~= batch);
    assert(forall|k: int| 0 <= k < i ==> batch[k] == nodes[k]);
    assert(forall|k: int| i <= k < batch.len() ==> batch[k] == nodes[k + 1]);
    assert(batch.no_duplicates());
    if j < i {
        assert(batch[j] == nodes[j]);
    } else {
        assert(batch[j - 1] == nodes[j]);
    }
    assert(batch.contains(nodes[j]));
    if batch.contains(nodes[i]) {
        let k = choose|k: int| 0 <= k < batch.len() && batch[k] == nodes[i];
        if k < i {
            assert(nodes[k] == nodes[i]);
        } else {
            assert(nodes[k + 1] == nodes[i]);
        }
    }
    lemma_occurrences_distinct(batch, nodes[j]);
    lemma_occurrences_distinct(batch, nodes[i]);
}

} // verus!
