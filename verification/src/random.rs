//! The random draws of the protocol. Nothing is claimed of a draw but what
//! holds of every outcome.

use rand::rngs::ThreadRng;
use rand::seq::SliceRandom;
use rand::Rng;
use vstd::prelude::*;

verus! {

/// `rand::rngs::ThreadRng`, the handle to the generator of the running thread.
/// Nothing inside it is visible here.
#[verifier::external_type_specification]
#[verifier::external_body]
pub struct ExThreadRng(rand::rngs::ThreadRng);

/// `rand::thread_rng`: the generator of the running thread, seeded by the
/// system. Nothing is claimed of the handle.
pub assume_specification[ rand::thread_rng ]() -> (rng: rand::rngs::ThreadRng)
;

/// `at` names, for every element of `chosen`, a position of `items` that holds
/// it, and names no position twice.
pub open spec fn drawn_at(chosen: Seq<usize>, items: Seq<usize>, at: Seq<int>) -> bool {
    &&& at.len() == chosen.len()
    &&& at.no_duplicates()
    &&& forall|k: int|
        0 <= k < at.len() ==> 0 <= #[trigger] at[k] < items.len() && chosen[k] == items[at[k]]
}

/// `chosen` holds `amount` elements of `items`, or all of them where there are
/// fewer, each taken from a position of its own.
pub open spec fn is_sample(chosen: Seq<usize>, items: Seq<usize>, amount: nat) -> bool {
    &&& chosen.len() == if amount <= items.len() {
        amount
    } else {
        items.len()
    }
    &&& exists|at: Seq<int>| drawn_at(chosen, items, at)
}

/// Every element of a sample is one of the items, and a sample of items that
/// hold nothing twice holds nothing twice.
pub proof fn lemma_sample_distinct(chosen: Seq<usize>, items: Seq<usize>, amount: nat)
    requires
        is_sample(chosen, items, amount),
    ensures
        chosen.len() <= items.len(),
        chosen.len() <= amount,
        forall|k: int| 0 <= k < chosen.len() ==> items.contains(#[trigger] chosen[k]),
        items.no_duplicates() ==> chosen.no_duplicates(),
{
    let at = choose|at: Seq<int>| drawn_at(chosen, items, at);
    assert forall|k: int| 0 <= k < chosen.len() implies items.contains(#[trigger] chosen[k]) by {
        assert(0 <= at[k] < items.len() && chosen[k] == items[at[k]]);
    }
    if items.no_duplicates() {
        assert forall|i: int, j: int|
            0 <= i < chosen.len() && 0 <= j < chosen.len() && i != j implies chosen[i]
            != chosen[j] by {
            assert(0 <= at[i] < items.len() && chosen[i] == items[at[i]]);
            assert(0 <= at[j] < items.len() && chosen[j] == items[at[j]]);
            assert(at[i] != at[j]);
        }
    }
}

/// `rand::Rng::gen_range` with `u32` bounds: a value of `[low, high)`. The call
/// panics where the range is empty, which `requires` leaves out.
#[verifier::external_body]
pub(crate) fn gen_range(rng: &mut ThreadRng, low: u32, high: u32) -> (drawn: u32)
    requires
        low < high,
    ensures
        low <= drawn < high,
{
    rng.gen_range(low, high)
}

/// `rand::Rng::gen` for `usize`: any value of the type.
#[verifier::external_body]
pub(crate) fn gen_usize(rng: &mut ThreadRng) -> usize {
    rng.gen()
}

/// `rand::seq::SliceRandom::choose_multiple`, collected: `amount` elements of
/// the slice, or all of them where it holds fewer, taken from distinct
/// positions and in random order.
#[verifier::external_body]
pub(crate) fn choose_multiple(rng: &mut ThreadRng, items: &Vec<usize>, amount: usize) -> (chosen:
    Vec<usize>)
    ensures
        is_sample(chosen@, items@, amount as nat),
{
    items.choose_multiple(rng, amount).cloned().collect()
}

} // verus!
