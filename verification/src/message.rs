//! The messages that the actors exchange, and the replies to a request for an
//! entry.

use crate::entry::Entry;
use vstd::prelude::*;

verus! {

/// Asks a node for a copy of its entry.
#[derive(Clone, Copy, Debug, PartialEq, Eq)]
pub struct EntryRequest;

/// The simulated failure of a node to answer an `EntryRequest`.
#[derive(Clone, Copy, Debug, PartialEq, Eq)]
pub struct ResponseError;

/// A message that could not be delivered, or whose answer could not be had.
#[derive(Clone, Copy, Debug, PartialEq, Eq)]
pub enum MailboxError {
    /// The mailbox of the receiver has closed.
    Closed,
    /// The answer did not come in time.
    Timeout,
}

/// Tells a node the handle of one more peer.
#[derive(Clone, Copy, Debug, PartialEq, Eq)]
pub struct NewPeer(pub usize);

/// Tells a node the handles of several more peers, in order.
#[derive(Debug, PartialEq, Eq)]
pub struct NewPeerBatch(pub Vec<usize>);

/// A synthetic transaction. The seed is advisory: a node picks the bit to
/// toggle by a draw of its own.
#[derive(Clone, Copy, Debug, PartialEq, Eq)]
pub struct Transaction(pub usize);

/// What comes back for one `EntryRequest`: the entry, the node's refusal, or the
/// failure of the transport.
pub type Reply = Result<Result<Entry, ResponseError>, MailboxError>;

/// The entries of the replies that succeeded, in the order of the replies.
pub open spec fn delivered(replies: Seq<Reply>) -> Seq<Entry>
    decreases replies.len(),
{
    if replies.len() == 0 {
        Seq::empty()
    } else {
        match replies.last() {
            Ok(Ok(entry)) => delivered(replies.drop_last()).push(entry),
            _ => delivered(replies.drop_last()),
        }
    }
}

/// The index of the first reply that the transport failed, or the number of
/// replies where it failed none.
pub open spec fn first_failure(replies: Seq<Reply>) -> int
    decreases replies.len(),
{
    if replies.len() == 0 {
        0
    } else if replies.first() is Err {
        0
    } else {
        1 + first_failure(replies.drop_first())
    }
}

/// The entries of the replies that succeeded, in order; the others are dropped.
pub fn successes(replies: &Vec<Reply>) -> (entries: Vec<Entry>)
    ensures
        entries@ == delivered(replies@),
{
    let mut entries: Vec<Entry> = Vec::new();
    let mut i: usize = 0;
    while i < replies.len()
        invariant
            i <= replies.len(),
            entries@ == delivered(replies@.take(i as int)),
        decreases replies.len() - i,
    {
        proof {
            assert(replies@.take(i + 1).drop_last() =~= replies@.take(i as int));
        }
        match &replies[i] {
            Ok(Ok(entry)) => {
                entries.push(*entry);
            },
            _ => {},
        }
        i = i + 1;
    }
    proof {
        assert(replies@.take(replies.len() as int) =~= replies@);
    }
    entries
}

} // verus!
