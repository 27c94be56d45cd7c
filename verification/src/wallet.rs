//! The wallet: at every tick it sends one synthetic transaction to a random
//! subset of the nodes.

use crate::message::Transaction;
use crate::random::{choose_multiple, gen_usize, is_sample};
use vstd::prelude::*;

verus! {

/// The injector of transactions.
pub struct Wallet {
    nodes: Vec<usize>,
    sample_size: usize,
    broadcast_interval: u64,
}

/// What a wallet holds, as plain values.
pub struct WalletView {
    /// The handles of the nodes that the wallet may send to.
    pub nodes: Seq<usize>,
    /// To how many nodes one transaction goes.
    pub sample_size: usize,
    /// The time between two transactions, in milliseconds.
    pub broadcast_interval: u64,
}

impl View for Wallet {
    type V = WalletView;

    closed spec fn view(&self) -> WalletView {
        WalletView {
            nodes: self.nodes@,
            sample_size: self.sample_size,
            broadcast_interval: self.broadcast_interval,
        }
    }
}

/// The nodes that the sends go to, in the order of the sends.
pub open spec fn targets(sends: Seq<(usize, Transaction)>) -> Seq<usize> {
    Seq::new(sends.len(), |i: int| sends[i].0)
}

/// One send to each node of `sample`, in order, each with the transaction of
/// seed `seed`.
pub open spec fn sends_of(sample: Seq<usize>, seed: usize) -> Seq<(usize, Transaction)> {
    Seq::new(sample.len(), |i: int| (sample[i], Transaction(seed)))
}

/// The sends of one tick for which `sample` and `seed` were drawn.
pub fn transactions_for(sample: &Vec<usize>, seed: usize) -> (sends: Vec<(usize, Transaction)>)
    ensures
        sends@ == sends_of(sample@, seed),
{
    let mut sends: Vec<(usize, Transaction)> = Vec::new();
    let mut i: usize = 0;
    while i < sample.len()
        invariant
            i <= sample.len(),
            sends@ == sends_of(sample@.take(i as int), seed),
        decreases sample.len() - i,
    {
        sends.push((sample[i], Transaction(seed)));
        proof {
            assert(sends@ =~= sends_of(sample@.take(i + 1), seed));
        }
        i = i + 1;
    }
    proof {
        assert(sample@.take(sample.len() as int) =~= sample@);
    }
    sends
}

impl Wallet {
    /// A wallet that sends each transaction to `sample_size` of `nodes`, one
    /// every `broadcast_interval` milliseconds.
    pub fn new(nodes: Vec<usize>, sample_size: usize, broadcast_interval: u64) -> (wallet: Wallet)
        ensures
            wallet@ == (WalletView { nodes: nodes@, sample_size, broadcast_interval }),
    {
        Wallet { nodes, sample_size, broadcast_interval }
    }

    /// The handles of the nodes that the wallet may send to.
    pub fn nodes(&self) -> (nodes: &Vec<usize>)
        ensures
            nodes@ == self@.nodes,
    {
        &self.nodes
    }

    /// To how many nodes one transaction goes.
    pub fn sample_size(&self) -> (sample_size: usize)
        ensures
            sample_size == self@.sample_size,
    {
        self.sample_size
    }

    /// The time between two transactions, in milliseconds.
    pub fn broadcast_interval(&self) -> (broadcast_interval: u64)
        ensures
            broadcast_interval == self@.broadcast_interval,
    {
        self.broadcast_interval
    }

    /// The sends of one tick: one fresh transaction, to `sample_size` of the
    /// nodes, or to all where there are fewer, no position of the node list
    /// taken twice.
    pub fn broadcast(&self) -> (sends: Vec<(usize, Transaction)>)
        ensures
            is_sample(targets(sends@), self@.nodes, self@.sample_size as nat),
            exists|seed: usize| sends@ == sends_of(targets(sends@), seed),
    {
        let mut rng = rand::thread_rng();
        let sample: Vec<usize> = choose_multiple(&mut rng, &self.nodes, self.sample_size);
        let seed: usize = gen_usize(&mut rng);
        let sends = transactions_for(&sample, seed);
        proof {
            assert(targets(sends@) =~= sample@);
        }
        sends
    }
}

} // verus!
