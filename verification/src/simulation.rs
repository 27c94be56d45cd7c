//! The harness: it gives every node a handle, wires tracker and wallet to the
//! handles, and turns the replies of the nodes into what an observer sees.

use crate::entry::{Entry, ODDSKETCH_LEN_BITS};
use crate::message::{delivered, first_failure, successes, EntryRequest, MailboxError, Reply};
use crate::node::Node;
use crate::tracker::{batch_for, lemma_tracker_completeness, occurrences, Tracker};
use crate::wallet::{Wallet, WalletView};
use vstd::prelude::*;

verus! {

/// The handles of a simulation: those of the nodes, in node order.
pub struct SystemAddrs {
    /// The handle of every node; the node at position `i` has the handle `i`.
    pub node_addrs: Vec<usize>,
}

/// A wired simulation: the actors that a runtime is to run, and the handles by
/// which they are reached.
pub struct Simulation {
    /// The nodes, each at the position that is its handle.
    pub nodes: Vec<Node>,
    /// The tracker, holding the handle of every node.
    pub tracker: Tracker,
    /// The wallet, holding the handle of every node.
    pub wallet: Wallet,
    /// The handles for the observer.
    pub addrs: SystemAddrs,
}

/// The handles of `n` nodes: `0, 1, ..., n - 1`.
pub open spec fn handles(n: nat) -> Seq<usize> {
    Seq::new(n, |i: int| i as usize)
}

/// In a simulation of `n` nodes that knew no peer before, the batch of the
/// tracker leaves node `i` with `n - 1` peers: every other node `j` exactly
/// once, and not itself.
pub proof fn lemma_bootstrap_complete(n: nat, i: int, j: int)
    requires
        n <= usize::MAX,
        0 <= i < n,
        0 <= j < n,
        i != j,
    ensures
        handles(n).no_duplicates(),
        (Seq::<usize>::empty() + batch_for(handles(n), i)).len() == n - 1,
        occurrences(Seq::<usize>::empty() + batch_for(handles(n), i), j as usize) == 1,
        occurrences(Seq::<usize>::empty() + batch_for(handles(n), i), i as usize) == 0,
{
    assert(handles(n)[i] == i as usize);
    assert(handles(n)[j] == j as usize);
    lemma_tracker_completeness(handles(n), i, j);
}

/// The distances from entry `i` to the entries before it, in their order.
pub open spec fn row(entries: Seq<Entry>, i: int) -> Seq<u32> {
    Seq::new(i as nat, |j: int| entries[i].distance_to(&entries[j]) as u32)
}

/// The rows of the first `n` entries, one after the other.
pub open spec fn rows(entries: Seq<Entry>, n: nat) -> Seq<u32>
    decreases n,
{
    if n == 0 {
        Seq::empty()
    } else {
        rows(entries, (n - 1) as nat) + row(entries, n - 1)
    }
}

/// The distance of every pair `(i, j)` with `j < i`, row by row.
pub open spec fn all_distances(entries: Seq<Entry>) -> Seq<u32> {
    rows(entries, entries.len())
}

/// The first `n` rows hold `n * (n - 1) / 2` distances; the distance of the
/// pair `(i, j)` stands at `i * (i - 1) / 2 + j`, and none exceeds
/// `ODDSKETCH_LEN_BITS`.
pub proof fn lemma_rows(entries: Seq<Entry>, n: nat)
    requires
        n <= entries.len(),
    ensures
        rows(entries, n).len() == n * (n - 1) / 2,
        forall|i: int, j: int|
            0 <= j < i < n ==> rows(entries, n)[i * (i - 1) / 2 + j]
                == #[trigger] entries[i].distance_to(&entries[j]),
        forall|k: int| 0 <= k < rows(entries, n).len() ==> rows(entries, n)[k] <= ODDSKETCH_LEN_BITS,
    decreases n,
{
    if n > 0 {
        let m = (n - 1) as nat;
        lemma_rows(entries, m);
        assert(n * (n - 1) / 2 == m * (m - 1) / 2 + m) by (nonlinear_arith)
            requires
                m == n - 1,
                n > 0,
        ;
        assert forall|i: int, j: int| 0 <= j < i < n implies rows(entries, n)[i * (i - 1) / 2 + j]
            == #[trigger] entries[i].distance_to(&entries[j]) by {
            crate::entry::lemma_distance_symmetric_and_zero(entries[i], entries[j]);
            if i < m {
                assert(i * (i - 1) / 2 + j < m * (m - 1) / 2) by (nonlinear_arith)
                    requires
                        0 <= j < i < m,
                ;
            } else {
                assert(row(entries, i)[j] == entries[i].distance_to(&entries[j]));
            }
        }
        assert forall|k: int| 0 <= k < rows(entries, n).len() implies rows(entries, n)[k]
            <= ODDSKETCH_LEN_BITS by {
            if k >= rows(entries, m).len() {
                let j = k - rows(entries, m).len();
                crate::entry::lemma_distance_symmetric_and_zero(entries[m as int], entries[j]);
                assert(rows(entries, n)[k] == row(entries, m as int)[j]);
            }
        }
    } else {
        assert(n * (n - 1) / 2 == 0) by (nonlinear_arith)
            requires
                n == 0,
        ;
    }
}

/// Appends row `i`: the distances from entry `i` to the entries before it.
fn distances_of_row(entries: &Vec<Entry>, i: usize, distances: &mut Vec<u32>)
    requires
        i < entries.len(),
    ensures
        final(distances)@ == old(distances)@ + row(entries@, i as int),
{
    let mut j: usize = 0;
    while j < i
        invariant
            j <= i < entries.len(),
            distances@ == old(distances)@ + row(entries@, i as int).take(j as int),
        decreases i - j,
    {
        let d: u32 = entries[i].distance(&entries[j]);
        distances.push(d);
        proof {
            assert(row(entries@, i as int).take(j + 1) =~= row(entries@, i as int).take(
                j as int,
            ).push(d));
        }
        j = j + 1;
    }
    proof {
        assert(row(entries@, i as int).take(i as int) =~= row(entries@, i as int));
    }
}

/// The Hamming distance of every pair of entries `(i, j)` with `j < i`, row by
/// row: `(1, 0)`, `(2, 0)`, `(2, 1)`, `(3, 0)` and so on.
pub fn pairwise_distances(entries: &Vec<Entry>) -> (distances: Vec<u32>)
    ensures
        distances@ == all_distances(entries@),
        distances@.len() == entries@.len() * (entries@.len() - 1) / 2,
        forall|k: int| 0 <= k < distances@.len() ==> distances@[k] <= ODDSKETCH_LEN_BITS,
{
    let mut distances: Vec<u32> = Vec::new();
    let mut i: usize = 0;
    while i < entries.len()
        invariant
            i <= entries.len(),
            distances@ == rows(entries@, i as nat),
        decreases entries.len() - i,
    {
        distances_of_row(entries, i, &mut distances);
        i = i + 1;
    }
    proof {
        lemma_rows(entries@, entries@.len());
    }
    distances
}

/// Gives the nodes the handles `0, 1, ...` in their order and wires a tracker
/// and a wallet to those handles. The wallet sends each transaction to
/// `wallet_fan` nodes, one every `broadcast_interval_ms` milliseconds.
pub fn start_simulation(nodes: Vec<Node>, wallet_fan: usize, broadcast_interval_ms: u64) -> (sim:
    Simulation)
    requires
        wallet_fan > 0,
        broadcast_interval_ms > 0,
    ensures
        sim.nodes == nodes,
        sim.addrs.node_addrs@ == handles(nodes@.len()),
        sim.tracker@ == handles(nodes@.len()),
        sim.wallet@ == (WalletView {
            nodes: handles(nodes@.len()),
            sample_size: wallet_fan,
            broadcast_interval: broadcast_interval_ms,
        }),
{
    let mut node_addrs: Vec<usize> = Vec::new();
    let mut i: usize = 0;
    while i < nodes.len()
        invariant
            i <= nodes.len(),
            node_addrs@ == handles(i as nat),
        decreases nodes.len() - i,
    {
        node_addrs.push(i);
        proof {
            assert(node_addrs@ =~= handles((i + 1) as nat));
        }
        i = i + 1;
    }
    let tracker = Tracker::new(node_addrs.clone());
    let wallet = Wallet::new(node_addrs.clone(), wallet_fan, broadcast_interval_ms);
    Simulation { nodes, tracker, wallet, addrs: SystemAddrs { node_addrs } }
}

impl SystemAddrs {
    /// The requests of one observation: an `EntryRequest` to every node, in
    /// node order.
    pub fn requests(&self) -> (sends: Vec<(usize, EntryRequest)>)
        ensures
            sends@ == Seq::new(self.node_addrs@.len(), |i: int| (self.node_addrs@[i], EntryRequest)),
    {
        let mut sends: Vec<(usize, EntryRequest)> = Vec::new();
        let mut i: usize = 0;
        while i < self.node_addrs.len()
            invariant
                i <= self.node_addrs.len(),
                sends@ == Seq::new(i as nat, |k: int| (self.node_addrs@[k], EntryRequest)),
            decreases self.node_addrs.len() - i,
        {
            sends.push((self.node_addrs[i], EntryRequest));
            proof {
                assert(sends@ =~= Seq::new(
                    (i + 1) as nat,
                    |k: int| (self.node_addrs@[k], EntryRequest),
                ));
            }
            i = i + 1;
        }
        sends
    }

    /// The entries of the nodes, from their replies in node order. Where the
    /// transport failed a reply, the first such failure is the error; else the
    /// entries of the nodes that did not refuse, in node order.
    pub fn get_all_entries(&self, replies: &Vec<Reply>) -> (result: Result<Vec<Entry>, MailboxError>)
        ensures
            match result {
                Ok(entries) => first_failure(replies@) == replies@.len() && entries@ == delivered(
                    replies@,
                ),
                Err(error) => first_failure(replies@) < replies@.len() && replies@[first_failure(
                    replies@,
                )] == Err::<Result<Entry, crate::message::ResponseError>, MailboxError>(error),
            },
    {
        let mut i: usize = 0;
        proof {
            assert(replies@.skip(0) =~= replies@);
        }
        while i < replies.len()
            invariant
                i <= replies.len(),
                first_failure(replies@) == i + first_failure(replies@.skip(i as int)),
            decreases replies.len() - i,
        {
            proof {
                assert(replies@.skip(i as int).drop_first() =~= replies@.skip(i + 1));
            }
            match &replies[i] {
                Err(error) => {
                    return Err(*error);
                },
                Ok(_) => {},
            }
            i = i + 1;
        }
        Ok(successes(replies))
    }

    /// The pairwise distances of the entries that `get_all_entries` gives for
    /// the replies, or its error.
    pub fn get_all_distances(&self, replies: &Vec<Reply>) -> (result: Result<Vec<u32>, MailboxError>)
        ensures
            match result {
                Ok(distances) => first_failure(replies@) == replies@.len() && distances@
                    == all_distances(delivered(replies@)),
                Err(error) => first_failure(replies@) < replies@.len() && replies@[first_failure(
                    replies@,
                )] == Err::<Result<Entry, crate::message::ResponseError>, MailboxError>(error),
            },
    {
        match self.get_all_entries(replies) {
            Ok(entries) => Ok(pairwise_distances(&entries)),
            Err(error) => Err(error),
        }
    }
}

} // verus!
