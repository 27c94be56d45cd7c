//! A node: one entry, the peers it knows, and the transitions by which it
//! answers messages and reconciles with its peers.

use crate::entry::{is_blank, toggled, Entry, MASS_RANGE, ODDSKETCH_LEN_BITS};
use crate::message::{
    delivered, successes, EntryRequest, NewPeer, NewPeerBatch, Reply, ResponseError, Transaction,
};
use crate::random::{choose_multiple, gen_range, is_sample};
use crate::winner::{
    calculate_winner_par, is_winner, lemma_winner_is_first_heaviest, lemma_winner_unique, winner_of,
};
use vstd::prelude::*;

verus! {

/// A roll below the fault rate of a node makes it refuse an `EntryRequest`;
/// rolls lie below this bound.
pub const FAULT_RANGE: u32 = 100;

/// One node of the network.
pub struct Node {
    entry: Entry,
    hash_rate: u64,
    peers: Vec<usize>,
    heartbeat_ms: u64,
    fault_rate: u8,
    sample_size: usize,
}

/// What a node holds, as plain values.
pub struct NodeView {
    /// The entry that the node holds now.
    pub entry: Entry,
    /// How many draws the node makes for one mass.
    pub hash_rate: u64,
    /// The handles of the peers, in the order in which the node learnt them.
    pub peers: Seq<usize>,
    /// The time between two reconciles, in milliseconds.
    pub heartbeat_ms: u64,
    /// Of a hundred requests for its entry, how many the node refuses.
    pub fault_rate: u8,
    /// How many peers the node asks in one reconcile.
    pub sample_size: usize,
}

impl View for Node {
    type V = NodeView;

    closed spec fn view(&self) -> NodeView {
        NodeView {
            entry: self.entry,
            hash_rate: self.hash_rate,
            peers: self.peers@,
            heartbeat_ms: self.heartbeat_ms,
            fault_rate: self.fault_rate,
            sample_size: self.sample_size,
        }
    }
}

/// The entries among which a reconcile picks: those that were delivered, in the
/// order of the replies, and after them the node's own.
pub open spec fn candidates(own: Entry, replies: Seq<Reply>) -> Seq<Entry> {
    delivered(replies).push(own)
}

/// The entry that a node holding `own` adopts on `replies`: the winner among
/// the candidates.
pub open spec fn adopted(own: Entry, replies: Seq<Reply>) -> Entry {
    candidates(own, replies)[winner_of(candidates(own, replies))]
}

/// The greater of a record and a new draw.
pub fn keep_record(record: u32, draw: u32) -> (kept: u32)
    ensures
        kept == if draw > record {
            draw
        } else {
            record
        },
{
    if draw > record {
        draw
    } else {
        record
    }
}

impl Node {
    /// The node has a heartbeat longer than nothing and asks at least one peer
    /// in a reconcile. `new` makes such nodes only, and no transition changes
    /// what a node was made with.
    pub open spec fn wf(&self) -> bool {
        self@.heartbeat_ms > 0 && self@.sample_size > 0
    }

    /// A node that has not been started: it holds the blank entry and knows no
    /// peer.
    pub fn new(hash_rate: u64, heartbeat_ms: u64, fault_rate: u8, sample_size: usize) -> (node:
        Node)
        requires
            heartbeat_ms > 0,
            sample_size > 0,
        ensures
            node.wf(),
            is_blank(node@.entry),
            node@.hash_rate == hash_rate,
            node@.peers == Seq::<usize>::empty(),
            node@.heartbeat_ms == heartbeat_ms,
            node@.fault_rate == fault_rate,
            node@.sample_size == sample_size,
    {
        Node {
            entry: Entry::new(),
            hash_rate,
            peers: Vec::new(),
            heartbeat_ms,
            fault_rate,
            sample_size,
        }
    }

    /// A copy of the entry that the node holds.
    pub fn entry(&self) -> (entry: Entry)
        ensures
            entry == self@.entry,
    {
        self.entry
    }

    /// How many draws the node makes for one mass.
    pub fn hash_rate(&self) -> (hash_rate: u64)
        ensures
            hash_rate == self@.hash_rate,
    {
        self.hash_rate
    }

    /// The handles of the peers that the node knows.
    pub fn peers(&self) -> (peers: &Vec<usize>)
        ensures
            peers@ == self@.peers,
    {
        &self.peers
    }

    /// The time between two reconciles, in milliseconds.
    pub fn heartbeat_ms(&self) -> (heartbeat_ms: u64)
        ensures
            heartbeat_ms == self@.heartbeat_ms,
    {
        self.heartbeat_ms
    }

    /// Of a hundred requests for its entry, how many the node refuses.
    pub fn fault_rate(&self) -> (fault_rate: u8)
        ensures
            fault_rate == self@.fault_rate,
    {
        self.fault_rate
    }

    /// How many peers the node asks in one reconcile.
    pub fn sample_size(&self) -> (sample_size: usize)
        ensures
            sample_size == self@.sample_size,
    {
        self.sample_size
    }

    /// The greatest of `hash_rate` draws from `[0, MASS_RANGE)`.
    pub fn work(&self) -> (mass: u32)
        requires
            self@.hash_rate > 0,
        ensures
            mass < MASS_RANGE,
    {
        let mut rng = rand::thread_rng();
        let mut record: u32 = gen_range(&mut rng, 0, MASS_RANGE);
        let mut drawn: u64 = 1;
        while drawn < self.hash_rate
            invariant
                record < MASS_RANGE,
            decreases self.hash_rate - drawn,
        {
            let draw: u32 = gen_range(&mut rng, 0, MASS_RANGE);
            record = keep_record(record, draw);
            drawn = drawn + 1;
        }
        record
    }

    /// Applies a transaction that toggles the bit at `index` and for which the
    /// work gave `mass`.
    pub fn apply_transaction(&mut self, index: usize, mass: u32)
        requires
            index < ODDSKETCH_LEN_BITS,
        ensures
            final(self)@.entry.bits() == toggled(old(self)@.entry.bits(), index as int),
            final(self)@.entry.mass == mass,
            final(self)@ == (NodeView { entry: final(self)@.entry, ..old(self)@ }),
            old(self).wf() ==> final(self).wf(),
    {
        self.entry.toggle(index);
        self.entry.mass = mass;
    }

    /// Toggles the bit at `index` and draws a new mass.
    pub fn new_tx(&mut self, index: usize)
        requires
            index < ODDSKETCH_LEN_BITS,
            old(self)@.hash_rate > 0,
        ensures
            final(self)@.entry.bits() == toggled(old(self)@.entry.bits(), index as int),
            final(self)@.entry.mass < MASS_RANGE,
            final(self)@ == (NodeView { entry: final(self)@.entry, ..old(self)@ }),
            old(self).wf() ==> final(self).wf(),
    {
        let mass: u32 = self.work();
        self.apply_transaction(index, mass);
    }

    /// Handles a `Transaction`: toggles one bit, drawn from all the bits of the
    /// oddsketch, and draws a new mass. The seed of the message is not read.
    pub fn handle_transaction(&mut self, _msg: Transaction)
        requires
            old(self)@.hash_rate > 0,
        ensures
            exists|index: int|
                0 <= index < ODDSKETCH_LEN_BITS && final(self)@.entry.bits() == toggled(
                    old(self)@.entry.bits(),
                    index,
                ),
            final(self)@.entry.mass < MASS_RANGE,
            final(self)@ == (NodeView { entry: final(self)@.entry, ..old(self)@ }),
            old(self).wf() ==> final(self).wf(),
    {
        let mut rng = rand::thread_rng();
        let index: u32 = gen_range(&mut rng, 0, ODDSKETCH_LEN_BITS as u32);
        self.new_tx(index as usize);
        proof {
            assert(self@.entry.bits() == toggled(old(self)@.entry.bits(), index as int));
        }
    }

    /// The answer to an `EntryRequest` on which `roll` was drawn: a refusal
    /// where the roll lies below the fault rate, else a copy of the entry.
    pub fn respond(&self, roll: u32) -> (reply: Result<Entry, ResponseError>)
        ensures
            reply == if roll < self@.fault_rate {
                Err::<Entry, ResponseError>(ResponseError)
            } else {
                Ok::<Entry, ResponseError>(self@.entry)
            },
    {
        if roll < self.fault_rate as u32 {
            Err(ResponseError)
        } else {
            Ok(self.entry)
        }
    }

    /// Handles an `EntryRequest`: a copy of the entry, or, for `fault_rate` of
    /// a hundred rolls, a refusal.
    pub fn handle_entry_request(&self, _msg: EntryRequest) -> (reply: Result<Entry, ResponseError>)
        ensures
            reply matches Ok(entry) ==> entry == self@.entry,
            self@.fault_rate == 0 ==> reply is Ok,
            self@.fault_rate >= FAULT_RANGE ==> reply is Err,
    {
        let mut rng = rand::thread_rng();
        let roll: u32 = gen_range(&mut rng, 0, FAULT_RANGE);
        self.respond(roll)
    }

    /// Handles a `NewPeer`: the handle is appended to the peers, whether or not
    /// it is among them already.
    pub fn handle_new_peer(&mut self, msg: NewPeer)
        ensures
            final(self)@ == (NodeView { peers: old(self)@.peers.push(msg.0), ..old(self)@ }),
            old(self).wf() ==> final(self).wf(),
    {
        self.peers.push(msg.0);
    }

    /// Handles a `NewPeerBatch`: the handles are appended to the peers in their
    /// order.
    pub fn handle_new_peer_batch(&mut self, msg: NewPeerBatch)
        ensures
            final(self)@ == (NodeView { peers: old(self)@.peers + msg.0@, ..old(self)@ }),
            old(self).wf() ==> final(self).wf(),
    {
        let mut batch = msg.0;
        self.peers.append(&mut batch);
    }

    /// The peers to ask in one reconcile: `sample_size` of them, or all where
    /// the node knows fewer, no position of the peer list taken twice.
    pub fn sample_peers(&self) -> (sample: Vec<usize>)
        ensures
            is_sample(sample@, self@.peers, self@.sample_size as nat),
    {
        let mut rng = rand::thread_rng();
        choose_multiple(&mut rng, &self.peers, self.sample_size)
    }

    /// Ends a reconcile: of the entries that the sampled peers delivered and
    /// the node's own, the node adopts the winner. Replies that failed are
    /// dropped.
    pub fn reconcile(&mut self, replies: &Vec<Reply>)
        ensures
            final(self)@.entry == adopted(old(self)@.entry, replies@),
            final(self)@ == (NodeView { entry: final(self)@.entry, ..old(self)@ }),
            old(self).wf() ==> final(self).wf(),
    {
        let mut entries: Vec<Entry> = successes(replies);
        entries.push(self.entry);
        match calculate_winner_par(entries.as_slice()) {
            Ok(winner) => {
                self.entry = entries[winner];
            },
            Err(_) => {},
        }
    }
}

/// The entry that a reconcile adopts: where some entry that was delivered is
/// at least as heavy as the node's own, the winner among those delivered, and
/// else the node's own. It is at least as heavy as the node's own and as every
/// entry that was delivered.
pub proof fn lemma_adopted_is_heaviest(own: Entry, replies: Seq<Reply>)
    ensures
        adopted(own, replies) == if exists|i: int|
            0 <= i < delivered(replies).len() && (#[trigger] delivered(replies)[i]).mass
                >= own.mass {
            delivered(replies)[winner_of(delivered(replies))]
        } else {
            own
        },
        adopted(own, replies).mass >= own.mass,
        forall|i: int|
            0 <= i < delivered(replies).len() ==> (#[trigger] delivered(replies)[i]).mass
                <= adopted(own, replies).mass,
        delivered(replies).len() == 0 ==> adopted(own, replies) == own,
{
    let all = candidates(own, replies);
    let got = delivered(replies);
    lemma_winner_is_first_heaviest(all);
    let w = winner_of(all);
    assert(all[got.len() as int] == own);
    assert forall|i: int| 0 <= i < got.len() implies (#[trigger] got[i]).mass <= all[w].mass by {
        assert(all[i] == got[i]);
    }
    if exists|i: int| 0 <= i < got.len() && (#[trigger] got[i]).mass >= own.mass {
        let i = choose|i: int| 0 <= i < got.len() && (#[trigger] got[i]).mass >= own.mass;
        assert(all[i] == got[i]);
        assert(w < got.len());
        assert(all[w] == got[w]);
        lemma_winner_is_first_heaviest(got);
        assert forall|j: int| 0 <= j < got.len() implies (#[trigger] got[j]).mass
            <= got[w].mass by {
            assert(all[j] == got[j]);
        }
        assert forall|j: int| 0 <= j < w implies (#[trigger] got[j]).mass < got[w].mass by {
            assert(all[j] == got[j]);
        }
        lemma_winner_unique(got, w, winner_of(got));
    } else {
        assert forall|j: int| 0 <= j < got.len() implies (#[trigger] all[j]).mass
            < own.mass by {
            assert(all[j] == got[j]);
        }
        assert(is_winner(all, got.len() as int));
        lemma_winner_unique(all, got.len() as int, w);
    }
}

/// What a node holding `own` adopts when one peer delivers `theirs`: the
/// peer's entry unless the node's own is heavier.
pub proof fn lemma_adopted_of_one(own: Entry, theirs: Entry)
    ensures
        adopted(own, seq![Ok(Ok(theirs))]) == if own.mass > theirs.mass {
            own
        } else {
            theirs
        },
{
    let replies: Seq<Reply> = seq![Ok(Ok(theirs))];
    assert(replies.drop_last() =~= Seq::<Reply>::empty());
    assert(delivered(replies.drop_last()) =~= Seq::<Entry>::empty());
    assert(delivered(replies) =~= seq![theirs]);
    let all = candidates(own, replies);
    assert(all =~= seq![theirs, own]);
    let w: int = if own.mass > theirs.mass {
        1
    } else {
        0
    };
    assert(is_winner(all, w));
    lemma_winner_is_first_heaviest(all);
    lemma_winner_unique(all, w, winner_of(all));
}

/// Two nodes that reconcile with each other, one after the other and with no
/// reply lost, hold the same entry afterwards: their distance is 0.
pub proof fn lemma_pair_agrees_after_one_round(first: Entry, second: Entry)
    ensures
        ({
            let second_after = adopted(second, seq![Ok(Ok(first))]);
            let first_after = adopted(first, seq![Ok(Ok(second_after))]);
            first_after == second_after && first_after.distance_to(&second_after) == 0
        }),
{
    let second_after = adopted(second, seq![Ok(Ok(first))]);
    lemma_adopted_of_one(second, first);
    lemma_adopted_of_one(first, second_after);
    crate::entry::lemma_distance_symmetric_and_zero(second_after, second_after);
}

} // verus!
