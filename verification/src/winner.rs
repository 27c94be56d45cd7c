//! The winner rule: of a sequence of entries the heaviest wins, and of several
//! that weigh the same, the first.

use crate::entry::Entry;
use vstd::prelude::*;

verus! {

/// Why no winner could be named.
#[derive(Clone, Copy, Debug, PartialEq, Eq)]
pub enum WinnerError {
    /// There was no entry to choose from.
    EmptyInput,
}

/// Ranges of at most this many entries are scanned by one thread.
pub const PAR_GRAIN: usize = 1024;

/// `w` lies in `[lo, hi)`, no entry of that range is heavier than the one at
/// `w`, and every entry of the range before `w` is lighter.
pub open spec fn wins_within(entries: Seq<Entry>, lo: int, hi: int, w: int) -> bool {
    &&& lo <= w < hi
    &&& forall|j: int| lo <= j < hi ==> (#[trigger] entries[j]).mass <= entries[w].mass
    &&& forall|j: int| lo <= j < w ==> (#[trigger] entries[j]).mass < entries[w].mass
}

/// `w` is the smallest index at which `entries` reaches its greatest mass.
pub open spec fn is_winner(entries: Seq<Entry>, w: int) -> bool {
    wins_within(entries, 0, entries.len() as int, w)
}

/// The index of the winner of a non-empty sequence.
pub open spec fn winner_of(entries: Seq<Entry>) -> int {
    choose|w: int| is_winner(entries, w)
}

/// What the winner rule gives for `entries`.
pub open spec fn winner_result(entries: Seq<Entry>) -> Result<usize, WinnerError> {
    if entries.len() == 0 {
        Err(WinnerError::EmptyInput)
    } else {
        Ok(winner_of(entries) as usize)
    }
}

/// Of the winners of two adjoining ranges, the one that wins their union: the
/// right one where it is heavier, else the left one.
pub open spec fn merged(entries: Seq<Entry>, left: int, right: int) -> int {
    if entries[right].mass > entries[left].mass {
        right
    } else {
        left
    }
}

/// No sequence has two winners.
pub proof fn lemma_winner_unique(entries: Seq<Entry>, a: int, b: int)
    requires
        is_winner(entries, a),
        is_winner(entries, b),
    ensures
        a == b,
{
    if a < b {
        assert(entries[a].mass < entries[b].mass);
        assert(entries[b].mass <= entries[a].mass);
    } else if b < a {
        assert(entries[b].mass < entries[a].mass);
        assert(entries[a].mass <= entries[b].mass);
    }
}

proof fn lemma_some_winner(entries: Seq<Entry>) -> (w: int)
    requires
        entries.len() > 0,
    ensures
        is_winner(entries, w),
    decreases entries.len(),
{
    if entries.len() == 1 {
        0
    } else {
        let shorter = entries.drop_last();
        let before = lemma_some_winner(shorter);
        let last = entries.len() - 1;
        assert(forall|j: int| 0 <= j < last ==> shorter[j] == entries[j]);
        let w = merged(entries, before, last);
        assert forall|j: int| 0 <= j < entries.len() implies (#[trigger] entries[j]).mass
            <= entries[w].mass by {
            if j < last {
                assert(shorter[j].mass <= shorter[before].mass);
            }
        }
        assert forall|j: int| 0 <= j < w implies (#[trigger] entries[j]).mass
            < entries[w].mass by {
            if w == last {
                assert(shorter[j].mass <= shorter[before].mass);
            } else {
                assert(shorter[j].mass < shorter[before].mass);
            }
        }
        w
    }
}

/// Every non-empty sequence has a winner: the smallest index that holds the
/// greatest mass of the sequence.
pub proof fn lemma_winner_is_first_heaviest(entries: Seq<Entry>)
    requires
        entries.len() > 0,
    ensures
        is_winner(entries, winner_of(entries)),
        0 <= winner_of(entries) < entries.len(),
        forall|j: int|
            0 <= j < entries.len() ==> (#[trigger] entries[j]).mass <= entries[winner_of(
                entries,
            )].mass,
        forall|j: int|
            0 <= j < winner_of(entries) ==> (#[trigger] entries[j]).mass < entries[winner_of(
                entries,
            )].mass,
{
    let w = lemma_some_winner(entries);
}

/// Scans `entries[lo..hi]` from the left and keeps the first heaviest entry.
fn scan(entries: &[Entry], lo: usize, hi: usize) -> (w: usize)
    requires
        lo < hi <= entries@.len(),
    ensures
        wins_within(entries@, lo as int, hi as int, w as int),
{
    let mut best: usize = lo;
    let mut i: usize = lo + 1;
    while i < hi
        invariant
            lo < i <= hi <= entries@.len(),
            wins_within(entries@, lo as int, i as int, best as int),
        decreases hi - i,
    {
        if entries[i].mass > entries[best].mass {
            best = i;
        }
        i = i + 1;
    }
    best
}

/// The index of the entry with the greatest mass, the first of them where
/// several weigh the same; `EmptyInput` where there is no entry.
pub fn calculate_winner(entries: &[Entry]) -> (result: Result<usize, WinnerError>)
    ensures
        result == winner_result(entries@),
        entries@.len() == 0 <==> result is Err,
        result matches Ok(w) ==> is_winner(entries@, w as int),
{
    if entries.len() == 0 {
        Err(WinnerError::EmptyInput)
    } else {
        let w = scan(entries, 0, entries.len());
        proof {
            lemma_winner_is_first_heaviest(entries@);
            lemma_winner_unique(entries@, w as int, winner_of(entries@));
        }
        Ok(w)
    }
}

/// `rayon::join` on the two halves of a range: it runs the two closures,
/// possibly on two threads, and returns the pair of their results. Each closure
/// is one call of `winner_in` on a range shorter than `[lo, hi)`, so each half
/// of the pair is what `winner_in` returns for that half of the range.
#[verifier::external_body]
fn join_halves(entries: &[Entry], lo: usize, mid: usize, hi: usize) -> (pair: (usize, usize))
    requires
        lo < mid < hi <= entries@.len(),
    ensures
        wins_within(entries@, lo as int, mid as int, pair.0 as int),
        wins_within(entries@, mid as int, hi as int, pair.1 as int),
{
    rayon::join(|| winner_in(entries, lo, mid), || winner_in(entries, mid, hi))
}

/// The winner of `entries[lo..hi]`: a short range is scanned, a long one is
/// halved, the halves are solved side by side and their winners compared.
fn winner_in(entries: &[Entry], lo: usize, hi: usize) -> (w: usize)
    requires
        lo < hi <= entries@.len(),
    ensures
        wins_within(entries@, lo as int, hi as int, w as int),
{
    if hi - lo <= PAR_GRAIN {
        scan(entries, lo, hi)
    } else {
        let mid: usize = lo + (hi - lo) / 2;
        let (left, right) = join_halves(entries, lo, mid, hi);
        let w: usize = if entries[right].mass > entries[left].mass {
            right
        } else {
            left
        };
        proof {
            lemma_merge(entries@, lo as int, mid as int, hi as int, left as int, right as int);
        }
        w
    }
}

/// The better of the winners of two adjoining ranges wins their union.
proof fn lemma_merge(entries: Seq<Entry>, lo: int, mid: int, hi: int, left: int, right: int)
    requires
        wins_within(entries, lo, mid, left),
        wins_within(entries, mid, hi, right),
    ensures
        wins_within(entries, lo, hi, merged(entries, left, right)),
{
    let w = merged(entries, left, right);
    assert forall|j: int| lo <= j < hi implies (#[trigger] entries[j]).mass <= entries[w].mass by {
        if j < mid {
            assert(entries[j].mass <= entries[left].mass);
        } else {
            assert(entries[j].mass <= entries[right].mass);
        }
    }
    assert forall|j: int| lo <= j < w implies (#[trigger] entries[j]).mass < entries[w].mass by {
        if j < mid {
            if w == left {
                assert(entries[j].mass < entries[left].mass);
            } else {
                assert(entries[j].mass <= entries[left].mass);
            }
        } else {
            assert(entries[j].mass < entries[right].mass);
        }
    }
}

/// The winner as `calculate_winner` names it, found by a data-parallel
/// reduction: the two agree on every input, the empty one included.
pub fn calculate_winner_par(entries: &[Entry]) -> (result: Result<usize, WinnerError>)
    ensures
        result == winner_result(entries@),
        entries@.len() == 0 <==> result is Err,
        result matches Ok(w) ==> is_winner(entries@, w as int),
{
    if entries.len() == 0 {
        Err(WinnerError::EmptyInput)
    } else {
        let w = winner_in(entries, 0, entries.len());
        proof {
            lemma_winner_is_first_heaviest(entries@);
            lemma_winner_unique(entries@, w as int, winner_of(entries@));
        }
        Ok(w)
    }
}

/// Whatever `calculate_winner` and `calculate_winner_par` return for one
/// sequence of entries, it is the same; and for a non-empty sequence it is the
/// smallest index that holds the greatest mass.
pub proof fn lemma_winner_variants_agree(
    entries: &[Entry],
    sequential: Result<usize, WinnerError>,
    parallel: Result<usize, WinnerError>,
)
    requires
        call_ensures(calculate_winner, (entries,), sequential),
        call_ensures(calculate_winner_par, (entries,), parallel),
    ensures
        sequential == parallel,
        entries@.len() > 0 ==> sequential == Ok::<usize, WinnerError>(winner_of(entries@) as usize)
            && is_winner(entries@, winner_of(entries@)),
{
    if entries@.len() > 0 {
        lemma_winner_is_first_heaviest(entries@);
    }
}

} // verus!
