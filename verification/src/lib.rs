//! A gossip-based probabilistic consensus protocol, as a set of verified actor
//! state machines: the digest every node holds, the rule by which a node picks
//! the digest to adopt, and the transitions of nodes, tracker and wallet.

pub mod entry;
pub mod message;
pub mod node;
pub mod random;
pub mod simulation;
pub mod tracker;
pub mod wallet;
pub mod winner;

pub use entry::{Entry, MASS_RANGE, ODDSKETCH_LEN, ODDSKETCH_LEN_BITS};
pub use message::{
    successes, EntryRequest, MailboxError, NewPeer, NewPeerBatch, Reply, ResponseError,
    Transaction,
};
pub use node::{keep_record, Node, FAULT_RANGE};
pub use simulation::{pairwise_distances, start_simulation, Simulation, SystemAddrs};
pub use tracker::Tracker;
pub use wallet::{transactions_for, Wallet};
pub use winner::{calculate_winner, calculate_winner_par, WinnerError, PAR_GRAIN};
