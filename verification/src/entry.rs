//! The digest that every node holds: an oddsketch and a mass.

use vstd::prelude::*;

verus! {

/// Number of bytes of an oddsketch.
pub const ODDSKETCH_LEN: usize = 128;

/// Number of bits of an oddsketch, the same for every node of a network.
pub const ODDSKETCH_LEN_BITS: usize = 1024;

/// Every mass lies below this bound.
pub const MASS_RANGE: u32 = 2_000_000;

/// The consensus state of one node.
#[derive(Clone, Copy, Debug, PartialEq, Eq)]
pub struct Entry {
    /// The bit vector, packed eight bits to a byte, lowest bit first.
    pub oddsketch: [u8; ODDSKETCH_LEN],
    /// The proof-of-work score by which entries are compared.
    pub mass: u32,
}

/// Bit `k` of `byte`, counted from the lowest.
pub open spec fn bit_of(byte: u8, k: u8) -> bool {
    byte & (1u8 << k) != 0
}

/// `entry` is the entry of a node that has seen no transaction: every bit of
/// the oddsketch is clear and the mass is 0.
pub open spec fn is_blank(entry: Entry) -> bool {
    &&& entry.mass == 0
    &&& forall|i: int| 0 <= i < ODDSKETCH_LEN ==> entry.oddsketch@[i] == 0
    &&& entry.bits() == Seq::new(ODDSKETCH_LEN_BITS as nat, |i: int| false)
}

/// `bits` with the bit at `index` inverted.
pub open spec fn toggled(bits: Seq<bool>, index: int) -> Seq<bool> {
    bits.update(index, !bits[index])
}

/// How many of the eight bits of `byte` are set.
pub open spec fn ones(byte: u8) -> nat {
    ones_below(byte, 8)
}

/// How many of the lowest `n` bits of `byte` are set.
pub open spec fn ones_below(byte: u8, n: nat) -> nat
    decreases n,
{
    if n == 0 {
        0
    } else {
        ones_below(byte, (n - 1) as nat) + if bit_of(byte, (n - 1) as u8) {
            1nat
        } else {
            0nat
        }
    }
}

/// `u8::count_ones` of std: the number of ones in the binary representation
/// of the byte, stated here as `ones`, the count of its eight bits that are set.
pub assume_specification[ u8::count_ones ](byte: u8) -> (n: u32)
    ensures
        n == ones(byte),
;

/// How many bits of a sequence are set.
pub open spec fn set_bits(bits: Seq<bool>) -> nat
    decreases bits.len(),
{
    if bits.len() == 0 {
        0
    } else {
        set_bits(bits.drop_last()) + if bits.last() {
            1nat
        } else {
            0nat
        }
    }
}

/// In how many positions two bit sequences of one length differ.
pub open spec fn hamming(a: Seq<bool>, b: Seq<bool>) -> nat
    recommends
        a.len() == b.len(),
    decreases a.len(),
{
    if a.len() == 0 || b.len() == 0 {
        0
    } else {
        hamming(a.drop_last(), b.drop_last()) + if a.last() != b.last() {
            1nat
        } else {
            0nat
        }
    }
}

proof fn lemma_xor_bit(x: u8, y: u8, m: u8)
    by (bit_vector)
    requires
        m < 8,
    ensures
        bit_of(x ^ y, m) == (bit_of(x, m) != bit_of(y, m)),
{
}

/// The bits below `8 * bytes + n` differ in as many places as those below
/// `8 * bytes`, plus the places below `n` in which the two bytes at `bytes` differ.
proof fn lemma_hamming_step(a: Entry, b: Entry, bytes: int, n: nat)
    requires
        0 <= bytes < ODDSKETCH_LEN,
        n <= 8,
    ensures
        hamming(a.bits().take(8 * bytes + n), b.bits().take(8 * bytes + n)) == hamming(
            a.bits().take(8 * bytes),
            b.bits().take(8 * bytes),
        ) + ones_below(a.oddsketch@[bytes] ^ b.oddsketch@[bytes], n),
    decreases n,
{
    if n > 0 {
        let upto = 8 * bytes + n;
        lemma_hamming_step(a, b, bytes, (n - 1) as nat);
        lemma_xor_bit(a.oddsketch@[bytes], b.oddsketch@[bytes], (n - 1) as u8);
        assert(a.bits().take(upto).drop_last() =~= a.bits().take(upto - 1));
        assert(b.bits().take(upto).drop_last() =~= b.bits().take(upto - 1));
        assert((upto - 1) / 8 == bytes && (upto - 1) % 8 == n - 1);
    }
}

proof fn lemma_hamming_bound(a: Seq<bool>, b: Seq<bool>)
    requires
        a.len() == b.len(),
    ensures
        hamming(a, b) <= a.len(),
    decreases a.len(),
{
    if a.len() > 0 {
        lemma_hamming_bound(a.drop_last(), b.drop_last());
    }
}

proof fn lemma_flip_bit(byte: u8, k: u8, m: u8)
    by (bit_vector)
    requires
        k < 8,
        m < 8,
    ensures
        bit_of(byte ^ (1u8 << k), m) == (if m == k { !bit_of(byte, m) } else { bit_of(byte, m) }),
{
}

impl Entry {
    /// The oddsketch as a sequence of `ODDSKETCH_LEN_BITS` bits.
    pub open spec fn bits(&self) -> Seq<bool> {
        Seq::new(ODDSKETCH_LEN_BITS as nat, |i: int| bit_of(self.oddsketch@[i / 8], (i % 8) as u8))
    }

    /// The entry of a node that has seen no transaction.
    pub fn new() -> (entry: Entry)
        ensures
            is_blank(entry),
    {
        let entry = Entry { oddsketch: [0u8; ODDSKETCH_LEN], mass: 0 };
        proof {
            assert(forall|k: u8| k < 8 ==> !bit_of(0u8, k)) by (bit_vector);
            assert(entry.bits() =~= Seq::new(ODDSKETCH_LEN_BITS as nat, |i: int| false));
        }
        entry
    }

    /// The Hamming distance between the two oddsketches.
    pub open spec fn distance_to(&self, other: &Entry) -> nat {
        hamming(self.bits(), other.bits())
    }

    /// Counts the bits in which the two oddsketches differ.
    pub fn distance(&self, other: &Entry) -> (d: u32)
        ensures
            d == self.distance_to(other),
            d <= ODDSKETCH_LEN_BITS,
    {
        let mut total: u32 = 0;
        let mut i: usize = 0;
        while i < ODDSKETCH_LEN
            invariant
                i <= ODDSKETCH_LEN,
                total == hamming(self.bits().take(8 * i), other.bits().take(8 * i)),
                total <= 8 * i,
            decreases ODDSKETCH_LEN - i,
        {
            let differing: u32 = (self.oddsketch[i] ^ other.oddsketch[i]).count_ones();
            proof {
                lemma_hamming_step(*self, *other, i as int, 8);
                lemma_hamming_bound(self.bits().take(8 * i + 8), other.bits().take(8 * i + 8));
            }
            total = total + differing;
            i = i + 1;
        }
        proof {
            assert(self.bits().take(8 * ODDSKETCH_LEN) =~= self.bits());
            assert(other.bits().take(8 * ODDSKETCH_LEN) =~= other.bits());
        }
        total
    }

    /// Inverts the bit at `index` and leaves everything else as it was.
    pub fn toggle(&mut self, index: usize)
        requires
            index < ODDSKETCH_LEN_BITS,
        ensures
            final(self).bits() == toggled(old(self).bits(), index as int),
            final(self).oddsketch@ == old(self).oddsketch@.update(
                index as int / 8,
                old(self).oddsketch@[index as int / 8] ^ (1u8 << ((index % 8) as u8)),
            ),
            final(self).mass == old(self).mass,
    {
        let at: usize = index / 8;
        let k: u8 = (index % 8) as u8;
        let byte: u8 = self.oddsketch[at];
        self.oddsketch[at] = byte ^ (1u8 << k);
        proof {
            assert forall|i: int| 0 <= i < ODDSKETCH_LEN_BITS implies self.bits()[i] == toggled(
                old(self).bits(),
                index as int,
            )[i] by {
                if i / 8 == at as int {
                    lemma_flip_bit(byte, k, (i % 8) as u8);
                }
            }
            assert(self.bits() =~= toggled(old(self).bits(), index as int));
        }
    }
}

/// Every oddsketch has `ODDSKETCH_LEN_BITS` bits, held in `ODDSKETCH_LEN` bytes.
pub proof fn lemma_oddsketch_length(entry: Entry)
    ensures
        entry.bits().len() == ODDSKETCH_LEN_BITS,
        entry.oddsketch@.len() == ODDSKETCH_LEN,
        ODDSKETCH_LEN_BITS == 8 * ODDSKETCH_LEN,
{
}

/// Toggling one bit twice gives back the bits there were, and toggling it once
/// changes that bit alone.
pub proof fn lemma_toggle_twice(bits: Seq<bool>, index: int)
    requires
        0 <= index < bits.len(),
    ensures
        toggled(toggled(bits, index), index) == bits,
        toggled(bits, index)[index] != bits[index],
        forall|i: int| 0 <= i < bits.len() && i != index ==> toggled(bits, index)[i] == bits[i],
{
    assert(toggled(toggled(bits, index), index) =~= bits);
}

/// The Hamming distance does not depend on the order of its two arguments.
pub proof fn lemma_hamming_symmetric(a: Seq<bool>, b: Seq<bool>)
    requires
        a.len() == b.len(),
    ensures
        hamming(a, b) == hamming(b, a),
    decreases a.len(),
{
    if a.len() > 0 {
        lemma_hamming_symmetric(a.drop_last(), b.drop_last());
    }
}

/// Two bit sequences of one length are at distance 0 exactly when they are equal.
pub proof fn lemma_hamming_zero(a: Seq<bool>, b: Seq<bool>)
    requires
        a.len() == b.len(),
    ensures
        hamming(a, b) == 0 <==> a == b,
    decreases a.len(),
{
    if a.len() > 0 {
        lemma_hamming_zero(a.drop_last(), b.drop_last());
        if a.drop_last() == b.drop_last() && a.last() == b.last() {
            assert(a =~= a.drop_last().push(a.last()));
            assert(b =~= b.drop_last().push(b.last()));
        }
    } else {
        assert(a =~= b);
    }
}

/// The distance between two entries is symmetric, is at most
/// `ODDSKETCH_LEN_BITS`, and is 0 from an entry to a copy of itself.
pub proof fn lemma_distance_symmetric_and_zero(a: Entry, b: Entry)
    ensures
        a.distance_to(&b) == b.distance_to(&a),
        a.distance_to(&b) <= ODDSKETCH_LEN_BITS,
        a == b ==> a.distance_to(&b) == 0,
        a.distance_to(&a) == 0,
{
    lemma_hamming_symmetric(a.bits(), b.bits());
    lemma_hamming_bound(a.bits(), b.bits());
    lemma_hamming_zero(a.bits(), a.bits());
}

proof fn lemma_byte_from_bits(x: u8, y: u8)
    by (bit_vector)
    requires
        bit_of(x, 0) == bit_of(y, 0),
        bit_of(x, 1) == bit_of(y, 1),
        bit_of(x, 2) == bit_of(y, 2),
        bit_of(x, 3) == bit_of(y, 3),
        bit_of(x, 4) == bit_of(y, 4),
        bit_of(x, 5) == bit_of(y, 5),
        bit_of(x, 6) == bit_of(y, 6),
        bit_of(x, 7) == bit_of(y, 7),
    ensures
        x == y,
{
}

proof fn lemma_same_bit(a: Entry, b: Entry, at: int, k: u8)
    requires
        a.bits() == b.bits(),
        0 <= at < ODDSKETCH_LEN,
        k < 8,
    ensures
        bit_of(a.oddsketch@[at], k) == bit_of(b.oddsketch@[at], k),
{
    let i: int = 8 * at + k;
    assert(i / 8 == at && i % 8 == k);
    assert(a.bits()[i] == bit_of(a.oddsketch@[i / 8], (i % 8) as u8));
    assert(b.bits()[i] == bit_of(b.oddsketch@[i / 8], (i % 8) as u8));
}

/// Two entries whose oddsketches are at distance 0 hold the same oddsketch,
/// byte for byte.
pub proof fn lemma_distance_zero_same_oddsketch(a: Entry, b: Entry)
    requires
        a.distance_to(&b) == 0,
    ensures
        a.oddsketch == b.oddsketch,
        a.mass == b.mass ==> a == b,
{
    lemma_hamming_zero(a.bits(), b.bits());
    assert forall|at: int| 0 <= at < ODDSKETCH_LEN implies a.oddsketch[at] == b.oddsketch[at] by {
        lemma_same_bit(a, b, at, 0);
        lemma_same_bit(a, b, at, 1);
        lemma_same_bit(a, b, at, 2);
        lemma_same_bit(a, b, at, 3);
        lemma_same_bit(a, b, at, 4);
        lemma_same_bit(a, b, at, 5);
        lemma_same_bit(a, b, at, 6);
        lemma_same_bit(a, b, at, 7);
        lemma_byte_from_bits(a.oddsketch@[at], b.oddsketch@[at]);
    }
    assert(a.oddsketch =~= b.oddsketch);
}

/// An entry in which one bit was toggled twice holds the oddsketch that it
/// held before, byte for byte.
pub proof fn lemma_two_toggles_cancel(before: Entry, between: Entry, after: Entry, index: int)
    requires
        0 <= index < ODDSKETCH_LEN_BITS,
        between.bits() == toggled(before.bits(), index),
        after.bits() == toggled(between.bits(), index),
    ensures
        after.bits() == before.bits(),
        after.oddsketch == before.oddsketch,
        between.distance_to(&before) == 1,
{
    lemma_toggle_twice(before.bits(), index);
    lemma_hamming_zero(after.bits(), before.bits());
    lemma_distance_zero_same_oddsketch(after, before);
    lemma_hamming_of_toggled(before.bits(), index);
}

/// Toggling one bit moves a bit sequence to distance 1.
pub proof fn lemma_hamming_of_toggled(bits: Seq<bool>, index: int)
    requires
        0 <= index < bits.len(),
    ensures
        hamming(toggled(bits, index), bits) == 1,
    decreases bits.len(),
{
    let changed = toggled(bits, index);
    if index == bits.len() - 1 {
        assert(changed.drop_last() =~= bits.drop_last());
        lemma_hamming_zero(bits.drop_last(), bits.drop_last());
    } else {
        assert(changed.drop_last() =~= toggled(bits.drop_last(), index));
        lemma_hamming_of_toggled(bits.drop_last(), index);
    }
}

/// One toggle changes the number of set bits by one: up where the bit was
/// clear, down where it was set.
pub proof fn lemma_toggle_moves_count_by_one(bits: Seq<bool>, index: int)
    requires
        0 <= index < bits.len(),
    ensures
        bits[index] ==> set_bits(toggled(bits, index)) == set_bits(bits) - 1,
        !bits[index] ==> set_bits(toggled(bits, index)) == set_bits(bits) + 1,
        set_bits(bits) <= bits.len(),
    decreases bits.len(),
{
    let changed = toggled(bits, index);
    lemma_set_bits_bound(bits);
    if index == bits.len() - 1 {
        assert(changed.drop_last() =~= bits.drop_last());
    } else {
        assert(changed.drop_last() =~= toggled(bits.drop_last(), index));
        lemma_toggle_moves_count_by_one(bits.drop_last(), index);
    }
}

proof fn lemma_set_bits_bound(bits: Seq<bool>)
    ensures
        set_bits(bits) <= bits.len(),
    decreases bits.len(),
{
    if bits.len() > 0 {
        lemma_set_bits_bound(bits.drop_last());
    }
}

} // verus!
