//! The mathematical model of a set of cards and the basic operations on it.
//!
//! A card set is a `u32`; card `k` (for `0 <= k < 32`) is in the set when bit `k` is set.
//! Bit 31 is the jack of clubs, bit 0 the seven of diamonds.
use vstd::prelude::*;
use vstd::std_specs::bits::{u32_leading_zeros, axiom_u32_leading_zeros};
use crate::consts::{JACKOFCLUBS, REVERSED_AUGENLIST};

verus! {

/// The card with bit index `k`, as a one-card set.
pub open spec fn bit(k: int) -> u32 {
    1u32 << (k as u32)
}

/// Card `k` belongs to the set `x`.
pub open spec fn has_card(x: u32, k: int) -> bool {
    0 <= k < 32 && x & (1u32 << (k as u32)) != 0
}

/// `c` is a single card.
pub open spec fn is_card(c: u32) -> bool {
    exists|k: int| 0 <= k < 32 && c == bit(k)
}

/// Every card of `a` is in `b`.
pub open spec fn subset(a: u32, b: u32) -> bool {
    a & b == a
}

/// Point value of the card with bit index `k`.
pub open spec fn card_value(k: int) -> nat {
    if 0 <= k < 32 {
        REVERSED_AUGENLIST@[k] as nat
    } else {
        0
    }
}

/// No card is worth more than eleven points.
pub proof fn lemma_card_value_bound(k: int)
    ensures
        card_value(k) <= 11,
{
    if k == 0 {
    } else if k == 1 {
    } else if k == 2 {
    } else if k == 3 {
    } else if k == 4 {
    } else if k == 5 {
    } else if k == 6 {
    } else if k == 7 {
    } else if k == 8 {
    } else if k == 9 {
    } else if k == 10 {
    } else if k == 11 {
    } else if k == 12 {
    } else if k == 13 {
    } else if k == 14 {
    } else if k == 15 {
    } else if k == 16 {
    } else if k == 17 {
    } else if k == 18 {
    } else if k == 19 {
    } else if k == 20 {
    } else if k == 21 {
    } else if k == 22 {
    } else if k == 23 {
    } else if k == 24 {
    } else if k == 25 {
    } else if k == 26 {
    } else if k == 27 {
    } else if k == 28 {
    } else if k == 29 {
    } else if k == 30 {
    } else if k == 31 {
    }
}

/// Number of cards of `x` with bit index at least `k`.
pub open spec fn count_from(x: u32, k: int) -> nat
    decreases 32 - k,
{
    if k >= 32 {
        0
    } else {
        count_from(x, k + 1) + if has_card(x, k) {
            1nat
        } else {
            0nat
        }
    }
}

/// Number of cards in `x`.
pub open spec fn card_count(x: u32) -> nat {
    count_from(x, 0)
}

/// Points of the cards of `x` with bit index at least `k`.
pub open spec fn points_from(x: u32, k: int) -> nat
    decreases 32 - k,
{
    if k >= 32 {
        0
    } else {
        points_from(x, k + 1) + if has_card(x, k) {
            card_value(k)
        } else {
            0
        }
    }
}

/// Points of the cards in `x` (aces 11, tens 10, kings 4, queens 3, jacks 2).
pub open spec fn points(x: u32) -> nat {
    points_from(x, 0)
}

/// The cards of `x` with bit index at least `k`, highest bit first.
pub open spec fn high_cards(x: u32, k: int) -> Seq<u32>
    decreases 32 - k,
{
    if k >= 32 {
        seq![]
    } else {
        high_cards(x, k + 1) + if has_card(x, k) {
            seq![bit(k)]
        } else {
            seq![]
        }
    }
}

/// The cards of `x` as one-card sets, jack of clubs first, seven of diamonds last.
pub open spec fn cards_of(x: u32) -> Seq<u32> {
    high_cards(x, 0)
}

// -----------------------------------------------------------------------------
// Bit lemmas
// -----------------------------------------------------------------------------

/// The bit of a card in the results of the bitwise operations.
pub proof fn lemma_bit_ops(a: u32, b: u32, k: u32)
    by (bit_vector)
    requires
        k < 32,
    ensures
        ((a | b) & (1u32 << k) != 0) == ((a & (1u32 << k) != 0) || (b & (1u32 << k) != 0)),
        ((a & b) & (1u32 << k) != 0) == ((a & (1u32 << k) != 0) && (b & (1u32 << k) != 0)),
        ((!a) & (1u32 << k) != 0) == !(a & (1u32 << k) != 0),
        ((a ^ b) & (1u32 << k) != 0) == ((a & (1u32 << k) != 0) != (b & (1u32 << k) != 0)),
{
}

/// Facts on single cards: two cards overlap only when equal, a card of a set is a subset of
/// it, reading a bit by shifting, the neighbour of a card, and the empty and full sets.
pub proof fn lemma_bit_facts(x: u32, j: u32, k: u32)
    by (bit_vector)
    requires
        j < 32,
        k < 32,
    ensures
        ((1u32 << j) & (1u32 << k) != 0) == (j == k),
        j != k ==> (1u32 << j) & (1u32 << k) == 0,
        j != k ==> (1u32 << j) != (1u32 << k),
        x & (1u32 << j) != 0 ==> (1u32 << j) & x == (1u32 << j),
        ((x >> j) & 1u32 == 0u32) == (x & (1u32 << j) == 0),
        (1u32 << k) >> 1u32 == if k == 0 {
            0u32
        } else {
            1u32 << ((k - 1) as u32)
        },
        (1u32 << k) > 0,
        (1u32 << k) & (((1u32 << k) - 1) as u32) == 0,
        0u32 & (1u32 << k) == 0,
        0xffff_ffffu32 & (1u32 << k) != 0,
        j > k ==> (1u32 << j) > (1u32 << k),
        j + k < 32 ==> (((x >> j) & (1u32 << k)) != 0) == ((x & (1u32 << ((j + k) as u32))) != 0),
        j + k >= 32 ==> (x >> j) & (1u32 << k) == 0,
{
}

/// The membership of each card of `a | b`, `a & b`, `!a`, `a ^ b` and of a single card.
pub proof fn lemma_has_ops(a: u32, b: u32, k: int)
    requires
        0 <= k < 32,
    ensures
        has_card(a | b, k) == (has_card(a, k) || has_card(b, k)),
        has_card(a & b, k) == (has_card(a, k) && has_card(b, k)),
        has_card(!a, k) == !has_card(a, k),
        has_card(a ^ b, k) == (has_card(a, k) != has_card(b, k)),
{
    lemma_bit_ops(a, b, k as u32);
}

pub proof fn lemma_has_bit(j: int, k: int)
    requires
        0 <= j < 32,
    ensures
        has_card(bit(j), k) == (j == k),
{
    if 0 <= k < 32 {
        lemma_bit_facts(0, j as u32, k as u32);
    }
}

proof fn lemma_zero_from_bits(x: u32)
    by (bit_vector)
    requires
        x & (1u32 << 0u32) == 0,
        x & (1u32 << 1u32) == 0,
        x & (1u32 << 2u32) == 0,
        x & (1u32 << 3u32) == 0,
        x & (1u32 << 4u32) == 0,
        x & (1u32 << 5u32) == 0,
        x & (1u32 << 6u32) == 0,
        x & (1u32 << 7u32) == 0,
        x & (1u32 << 8u32) == 0,
        x & (1u32 << 9u32) == 0,
        x & (1u32 << 10u32) == 0,
        x & (1u32 << 11u32) == 0,
        x & (1u32 << 12u32) == 0,
        x & (1u32 << 13u32) == 0,
        x & (1u32 << 14u32) == 0,
        x & (1u32 << 15u32) == 0,
        x & (1u32 << 16u32) == 0,
        x & (1u32 << 17u32) == 0,
        x & (1u32 << 18u32) == 0,
        x & (1u32 << 19u32) == 0,
        x & (1u32 << 20u32) == 0,
        x & (1u32 << 21u32) == 0,
        x & (1u32 << 22u32) == 0,
        x & (1u32 << 23u32) == 0,
        x & (1u32 << 24u32) == 0,
        x & (1u32 << 25u32) == 0,
        x & (1u32 << 26u32) == 0,
        x & (1u32 << 27u32) == 0,
        x & (1u32 << 28u32) == 0,
        x & (1u32 << 29u32) == 0,
        x & (1u32 << 30u32) == 0,
        x & (1u32 << 31u32) == 0,
    ensures
        x == 0,
{
}

/// Two card sets with the same cards are equal.
pub proof fn lemma_ext(a: u32, b: u32)
    requires
        forall|k: int| 0 <= k < 32 ==> has_card(a, k) == has_card(b, k),
    ensures
        a == b,
{
    assert forall|k: int| 0 <= k < 32 implies !has_card(a ^ b, k) by {
        lemma_has_ops(a, b, k);
    }
    assert(!has_card(a ^ b, 0) && !has_card(a ^ b, 1) && !has_card(a ^ b, 2) && !has_card(a ^ b, 3));
    assert(!has_card(a ^ b, 4) && !has_card(a ^ b, 5) && !has_card(a ^ b, 6) && !has_card(a ^ b, 7));
    assert(!has_card(a ^ b, 8) && !has_card(a ^ b, 9) && !has_card(a ^ b, 10) && !has_card(a ^ b, 11));
    assert(!has_card(a ^ b, 12) && !has_card(a ^ b, 13) && !has_card(a ^ b, 14) && !has_card(a ^ b, 15));
    assert(!has_card(a ^ b, 16) && !has_card(a ^ b, 17) && !has_card(a ^ b, 18) && !has_card(a ^ b, 19));
    assert(!has_card(a ^ b, 20) && !has_card(a ^ b, 21) && !has_card(a ^ b, 22) && !has_card(a ^ b, 23));
    assert(!has_card(a ^ b, 24) && !has_card(a ^ b, 25) && !has_card(a ^ b, 26) && !has_card(a ^ b, 27));
    assert(!has_card(a ^ b, 28) && !has_card(a ^ b, 29) && !has_card(a ^ b, 30) && !has_card(a ^ b, 31));
    lemma_zero_from_bits(a ^ b);
    lemma_set_algebra(a, b, 0);
}

/// No card is in the empty set, and every card is in `ALLCARDS`.
pub proof fn lemma_has_consts(k: int)
    ensures
        !has_card(0, k),
        0 <= k < 32 ==> has_card(0xffff_ffffu32, k),
{
    if 0 <= k < 32 {
        lemma_bit_facts(0, 0, k as u32);
    }
}

// -----------------------------------------------------------------------------
// Counting and points
// -----------------------------------------------------------------------------

/// Counts and points add up over disjoint sets.
pub proof fn lemma_union_from(a: u32, b: u32, k: int)
    requires
        a & b == 0,
    ensures
        count_from(a | b, k) == count_from(a, k) + count_from(b, k),
        points_from(a | b, k) == points_from(a, k) + points_from(b, k),
    decreases 32 - k,
{
    if k < 32 {
        lemma_union_from(a, b, k + 1);
        if 0 <= k {
            lemma_has_ops(a, b, k);
            lemma_has_consts(k);
        }
    }
}

pub proof fn lemma_union(a: u32, b: u32)
    requires
        a & b == 0,
    ensures
        card_count(a | b) == card_count(a) + card_count(b),
        points(a | b) == points(a) + points(b),
{
    lemma_union_from(a, b, 0);
}

/// Counts and points only depend on the cards of a set.
pub proof fn lemma_same_cards_from(a: u32, b: u32, k: int)
    requires
        forall|j: int| k <= j < 32 ==> has_card(a, j) == has_card(b, j),
    ensures
        count_from(a, k) == count_from(b, k),
        points_from(a, k) == points_from(b, k),
        high_cards(a, k) == high_cards(b, k),
    decreases 32 - k,
{
    if k < 32 {
        lemma_same_cards_from(a, b, k + 1);
    }
}

/// Counts, points and card lists of a set with no cards at or above index `k`.
pub proof fn lemma_none_from(a: u32, k: int)
    requires
        forall|j: int| k <= j < 32 ==> !has_card(a, j),
    ensures
        count_from(a, k) == 0,
        points_from(a, k) == 0,
        high_cards(a, k) == Seq::<u32>::empty(),
    decreases 32 - k,
{
    if k < 32 {
        lemma_none_from(a, k + 1);
    }
}

pub proof fn lemma_empty_set()
    ensures
        card_count(0) == 0,
        points(0) == 0,
        cards_of(0) == Seq::<u32>::empty(),
{
    assert forall|j: int| 0 <= j < 32 implies !has_card(0, j) by {
        lemma_has_consts(j);
    }
    lemma_none_from(0, 0);
}

/// The counts from index `k` of a single card.
pub proof fn lemma_single_from(t: int, k: int)
    requires
        0 <= t < 32,
    ensures
        count_from(bit(t), k) == (if k <= t {
            1nat
        } else {
            0nat
        }),
        points_from(bit(t), k) == (if k <= t {
            card_value(t)
        } else {
            0nat
        }),
    decreases 32 - k,
{
    if k < 32 {
        lemma_single_from(t, k + 1);
        lemma_has_bit(t, k);
    }
}

pub proof fn lemma_single(t: int)
    requires
        0 <= t < 32,
    ensures
        card_count(bit(t)) == 1,
        points(bit(t)) == card_value(t),
        has_card(bit(t), t),
{
    lemma_single_from(t, 0);
    lemma_has_bit(t, t);
}

/// A set with no cards is the empty set.
pub proof fn lemma_count_zero(x: u32)
    requires
        card_count(x) == 0,
    ensures
        x == 0,
{
    lemma_count_zero_from(x, 0);
    assert forall|k: int| 0 <= k < 32 implies has_card(x, k) == has_card(0, k) by {
        lemma_has_consts(k);
    }
    lemma_ext(x, 0);
}

proof fn lemma_count_zero_from(x: u32, k: int)
    requires
        count_from(x, k) == 0,
    ensures
        forall|j: int| k <= j < 32 ==> !has_card(x, j),
    decreases 32 - k,
{
    if k < 32 {
        lemma_count_zero_from(x, k + 1);
    }
}

/// A set has at most `32 - k` cards at or above index `k`, and at most the points of all cards.
pub proof fn lemma_bounds_from(x: u32, k: int)
    requires
        0 <= k,
    ensures
        count_from(x, k) <= 32 - k || k > 32,
        points_from(x, k) <= points_from(0xffff_ffffu32, k),
    decreases 32 - k,
{
    if k < 32 {
        lemma_bounds_from(x, k + 1);
        lemma_has_consts(k);
    }
}

/// All 32 cards together are worth 120 points.
pub proof fn lemma_all_points()
    ensures
        points(0xffff_ffffu32) == 120,
        card_count(0xffff_ffffu32) == 32,
{
    assert forall|k: int| 0 <= k < 32 implies has_card(0xffff_ffffu32, k) by {
        lemma_has_consts(k);
    }
    reveal_with_fuel(points_from, 33);
    reveal_with_fuel(count_from, 33);
    assert(points_from(0xffff_ffffu32, 0) == 120);
}

pub proof fn lemma_bounds(x: u32)
    ensures
        card_count(x) <= 32,
        points(x) <= 120,
{
    lemma_bounds_from(x, 0);
    lemma_all_points();
}

/// The card list of a set has one entry per card.
pub proof fn lemma_high_cards_len(x: u32, k: int)
    ensures
        high_cards(x, k).len() == count_from(x, k),
    decreases 32 - k,
{
    if k < 32 {
        lemma_high_cards_len(x, k + 1);
    }
}

/// Counting and points of a set with one card added.
pub proof fn lemma_add_card(x: u32, t: int)
    requires
        0 <= t < 32,
        !has_card(x, t),
    ensures
        x & bit(t) == 0,
        card_count(x | bit(t)) == card_count(x) + 1,
        points(x | bit(t)) == points(x) + card_value(t),
{
    let tt = t as u32;
    assert(x & (1u32 << tt) == 0);
    lemma_union(x, bit(t));
    lemma_single(t);
}

/// Counting and points of a set with one card taken out.
pub proof fn lemma_remove_card(x: u32, t: int)
    requires
        0 <= t < 32,
        has_card(x, t),
    ensures
        card_count(x) == card_count(x & !bit(t)) + 1,
        points(x) == points(x & !bit(t)) + card_value(t),
        !has_card(x & !bit(t), t),
        (x & !bit(t)) | bit(t) == x,
        x ^ bit(t) == x & !bit(t),
{
    let y = x & !bit(t);
    assert forall|k: int| 0 <= k < 32 implies has_card(y | bit(t), k) == has_card(x, k) by {
        lemma_has_ops(x, !bit(t), k);
        lemma_has_ops(bit(t), bit(t), k);
        lemma_has_ops(y, bit(t), k);
        lemma_has_bit(t, k);
    }
    lemma_ext(y | bit(t), x);
    assert forall|k: int| 0 <= k < 32 implies has_card(x ^ bit(t), k) == has_card(y, k) by {
        lemma_has_ops(x, bit(t), k);
        lemma_has_ops(bit(t), bit(t), k);
        lemma_has_ops(x, !bit(t), k);
        lemma_has_bit(t, k);
    }
    lemma_ext(x ^ bit(t), y);
    lemma_has_ops(x, !bit(t), t);
    lemma_has_ops(bit(t), bit(t), t);
    lemma_has_bit(t, t);
    lemma_add_card(y, t);
}

// -----------------------------------------------------------------------------
// Executable operations
// -----------------------------------------------------------------------------

/// Operations on a card set.
pub trait Bitboard {
    /// The card set that the value stands for.
    spec fn card_set(&self) -> u32;

    /// The set holds some card of `card`.
    fn __contain(&self, card: u32) -> bool;

    /// The lowest card (bit 0) is in the set.
    fn __is_odd(&self) -> bool;

    /// The cards of the set, highest first, and how many there are.
    fn __decompose(&self) -> ([u32; 32], usize);

    /// The first twelve cards of the set, highest first, zero-padded.
    fn __decompose_twelve(&self) -> [u32; 12]
        requires
            card_count(self.card_set()) <= 12,
    ;
}

impl Bitboard for u32 {
    open spec fn card_set(&self) -> u32 {
        *self
    }

    fn __contain(&self, card: u32) -> (r: bool)
        ensures
            r == (*self & card != 0),
    {
        (*self & card) > 0
    }

    fn __is_odd(&self) -> (r: bool)
        ensures
            r == has_card(*self, 0),
    {
        let x = *self;
        proof {
            lemma_set_algebra(x, 0, 0);
            lemma_card_constants();
        }
        x % 2 == 1
    }

    fn __decompose(&self) -> (r: ([u32; 32], usize))
        ensures
            r.1 == card_count(*self),
            r.0@.subrange(0, r.1 as int) == cards_of(*self),
            forall|i: int| r.1 <= i < 32 ==> r.0@[i] == 0,
    {
        let (arr, n) = decompose_into_32(*self);
        (arr, n)
    }

    fn __decompose_twelve(&self) -> (r: [u32; 12])
        ensures
            r@.subrange(0, card_count(*self) as int) == cards_of(*self),
            forall|i: int| card_count(*self) <= i < 12 ==> r@[i] == 0,
    {
        let x = *self;
        let (arr, n) = decompose_into_32(x);
        let mut ret = [0u32; 12];
        let mut i: usize = 0;
        while i < 12
            invariant
                n <= 12,
                i <= 12,
                forall|j: int| 0 <= j < i ==> ret@[j] == arr@[j],
                forall|j: int| i <= j < 12 ==> ret@[j] == 0,
            decreases 12 - i,
        {
            ret[i] = arr[i];
            i = i + 1;
        }
        assert(ret@.subrange(0, n as int) =~= arr@.subrange(0, n as int));
        ret
    }
}

fn decompose_into_32(x: u32) -> (r: ([u32; 32], usize))
    ensures
        r.1 == card_count(x),
        r.1 <= 32,
        r.0@.subrange(0, r.1 as int) == cards_of(x),
        forall|i: int| r.1 <= i < 32 ==> r.0@[i] == 0,
{
    let mut ret = [0u32; 32];
    let mut i: usize = 0;
    let mut c: u32 = JACKOFCLUBS;
    let ghost mut k: int = 31;
    proof {
        lemma_high_cards_len(x, 32);
        lemma_card_constants();
    }
    while c > 0
        invariant
            -1 <= k < 32,
            k >= 0 ==> c == bit(k),
            k < 0 ==> c == 0,
            i == count_from(x, k + 1),
            i <= 31 - k,
            ret@.subrange(0, i as int) == high_cards(x, k + 1),
            forall|j: int| i <= j < 32 ==> ret@[j] == 0,
        decreases k + 1,
    {
        proof {
            if k < 0 {
                assert(false);
            }
            lemma_high_cards_len(x, k);
            lemma_bit_facts(0, 0, k as u32);
        }
        if x & c > 0 {
            let ghost old_ret = ret@;
            ret[i] = c;
            assert(ret@.subrange(0, i + 1) =~= old_ret.subrange(0, i as int).push(c));
            i = i + 1;
        } else {
            assert(ret@.subrange(0, i as int) == high_cards(x, k + 1));
        }
        c = c >> 1;
        proof {
            k = k - 1;
        }
    }
    proof {
        if k >= 0 {
            lemma_bit_facts(0, 0, k as u32);
        }
        lemma_high_cards_len(x, 0);
    }
    (ret, i)
}

/// Counts the cards of `x`.
pub fn count_cards(x: u32) -> (r: u32)
    ensures
        r == card_count(x),
        r <= 32,
{
    let mut acc: u32 = 0;
    let mut k: u32 = 32;
    while k > 0
        invariant
            k <= 32,
            acc == count_from(x, k as int),
            acc <= 32 - k,
        decreases k,
    {
        k = k - 1;
        proof {
            lemma_bounds_from(x, k as int);
        }
        if x & (1u32 << k) != 0 {
            acc = acc + 1;
        }
    }
    acc
}

/// The card with bit index `k`.
pub fn card_at(k: u32) -> (r: u32)
    requires
        k < 32,
    ensures
        r == bit(k as int),
{
    1u32 << k
}

/// Proves that a single card `c` of a set is one of its bits.
pub proof fn lemma_card_index(c: u32) -> (k: int)
    requires
        is_card(c),
    ensures
        0 <= k < 32,
        c == bit(k),
{
    choose|k: int| 0 <= k < 32 && c == bit(k)
}

/// Every entry of the card list is a single card of the set.
pub proof fn lemma_high_cards_members(x: u32, k: int)
    ensures
        forall|i: int|
            0 <= i < high_cards(x, k).len() ==> #[trigger] is_card(high_cards(x, k)[i]) && subset(
                high_cards(x, k)[i],
                x,
            ),
    decreases 32 - k,
{
    if k < 32 {
        lemma_high_cards_members(x, k + 1);
        let s = high_cards(x, k + 1);
        assert forall|i: int| 0 <= i < high_cards(x, k).len() implies #[trigger] is_card(
            high_cards(x, k)[i],
        ) && subset(high_cards(x, k)[i], x) by {
            if i < s.len() {
                assert(high_cards(x, k)[i] == s[i]);
                assert(is_card(s[i]));
            } else {
                assert(has_card(x, k) && high_cards(x, k)[i] == bit(k));
                lemma_card_subset(x, k);
            }
        }
    }
}

/// Each entry of the card list of `x` is a single card in `x`.
pub proof fn lemma_cards_of_members(x: u32)
    ensures
        forall|i: int|
            0 <= i < cards_of(x).len() ==> #[trigger] is_card(cards_of(x)[i]) && subset(
                cards_of(x)[i],
                x,
            ),
{
    lemma_high_cards_members(x, 0);
}

/// The card list of `x` from index `k` on runs strictly downward, and every entry is at
/// least the card with index `k`.
pub proof fn lemma_high_cards_descending(x: u32, k: int)
    requires
        0 <= k <= 32,
    ensures
        forall|i: int, j: int|
            0 <= i < j < high_cards(x, k).len() ==> #[trigger] high_cards(x, k)[i]
                > #[trigger] high_cards(x, k)[j],
        k < 32 ==> forall|i: int|
            0 <= i < high_cards(x, k).len() ==> #[trigger] high_cards(x, k)[i] >= bit(k),
    decreases 32 - k,
{
    if k < 32 {
        lemma_high_cards_descending(x, k + 1);
        let s = high_cards(x, k + 1);
        if k + 1 < 32 {
            lemma_bit_facts(0, (k + 1) as u32, k as u32);
        }
        assert forall|i: int| 0 <= i < high_cards(x, k).len() implies #[trigger] high_cards(
            x,
            k,
        )[i] >= bit(k) by {
            if i < s.len() {
                assert(high_cards(x, k)[i] == s[i]);
            }
        }
        assert forall|i: int, j: int|
            0 <= i < j < high_cards(x, k).len() implies #[trigger] high_cards(x, k)[i]
                > #[trigger] high_cards(x, k)[j] by {
            assert(high_cards(x, k)[i] == s[i]);
            if j < s.len() {
                assert(high_cards(x, k)[j] == s[j]);
            }
        }
    }
}

/// The card list of `x` holds no card twice.
pub proof fn lemma_cards_of_descending(x: u32)
    ensures
        forall|i: int, j: int|
            0 <= i < j < cards_of(x).len() ==> #[trigger] cards_of(x)[i] > #[trigger] cards_of(
                x,
            )[j],
{
    lemma_high_cards_descending(x, 0);
}

/// Shifting a set down by `s` moves each card down by `s` places; the cards below `s` drop.
pub proof fn lemma_shr_count_from(x: u32, s: u32, k: int)
    requires
        s < 32,
        0 <= k <= 32,
    ensures
        count_from(x >> s, k) == count_from(x, k + s),
    decreases 32 - k,
{
    if k < 32 {
        lemma_shr_count_from(x, s, k + 1);
        lemma_bit_facts(x, s, k as u32);
        if k + s >= 32 {
            lemma_none_from(x, k + s);
            lemma_none_from(x, k + s + 1);
        }
    } else {
        lemma_none_from(x, k + s);
    }
}

/// A set with no card below index `s` has as many cards from `s` on as in all.
pub proof fn lemma_count_from_low(x: u32, s: int, k: int)
    requires
        0 <= k <= s <= 32,
        forall|j: int| 0 <= j < s ==> !has_card(x, j),
    ensures
        count_from(x, k) == count_from(x, s),
    decreases s - k,
{
    if k < s {
        lemma_count_from_low(x, s, k + 1);
    }
}

/// Shifting down a set with no card below `s` keeps its number of cards.
pub proof fn lemma_shr_count(x: u32, s: u32)
    requires
        s < 32,
        forall|j: int| 0 <= j < s ==> !has_card(x, j),
    ensures
        card_count(x >> s) == card_count(x),
{
    lemma_shr_count_from(x, s, 0);
    lemma_count_from_low(x, s as int, 0);
}

/// A card of a set is a subset of it.
pub proof fn lemma_card_subset(x: u32, j: int)
    requires
        has_card(x, j),
    ensures
        subset(bit(j), x),
        is_card(bit(j)),
{
    lemma_bit_facts(x, j as u32, 0);
}


/// The highest card of a non-empty set.
pub proof fn lemma_highest(x: u32)
    requires
        x != 0,
    ensures
        0 <= 31 - u32_leading_zeros(x) < 32,
        has_card(x, 31 - u32_leading_zeros(x)),
        forall|j: int| 31 - u32_leading_zeros(x) < j < 32 ==> !has_card(x, j),
        cards_of(x) == seq![bit(31 - u32_leading_zeros(x))] + cards_of(
            x & !bit(31 - u32_leading_zeros(x)),
        ),
{
    axiom_u32_leading_zeros(x);
    let lz = u32_leading_zeros(x);
    let h = 31 - lz;
    lemma_bit_facts(x, h as u32, 0);
    assert forall|j: int| h < j < 32 implies !has_card(x, j) by {
        assert((x >> (j as u32)) & 1u32 == 0u32);
        lemma_bit_facts(x, j as u32, 0);
    }
    let y = x & !bit(h);
    assert forall|j: int| 0 <= j < 32 implies has_card(y, j) == (has_card(x, j) && j != h) by {
        lemma_has_ops(x, !bit(h), j);
        lemma_has_ops(bit(h), bit(h), j);
        lemma_has_bit(h, j);
    }
    lemma_highest_cards(x, y, h, 0);
}

proof fn lemma_highest_cards(x: u32, y: u32, h: int, k: int)
    requires
        0 <= h < 32,
        0 <= k,
        has_card(x, h),
        forall|j: int| h < j < 32 ==> !has_card(x, j),
        forall|j: int| 0 <= j < 32 ==> has_card(y, j) == (has_card(x, j) && j != h),
    ensures
        k <= h ==> high_cards(x, k) == seq![bit(h)] + high_cards(y, k),
        k > h ==> high_cards(x, k) == high_cards(y, k),
    decreases 32 - k,
{
    if k < 32 {
        lemma_highest_cards(x, y, h, k + 1);
        if k == h {
            lemma_none_from(x, k + 1);
            lemma_none_from(y, k + 1);
        }
        if k < h {
            assert(high_cards(x, k) =~= seq![bit(h)] + high_cards(y, k));
        }
    }
}

/// A subset has no more cards and no more points.
pub proof fn lemma_subset_bounds(a: u32, b: u32, k: int)
    requires
        subset(a, b),
    ensures
        count_from(a, k) <= count_from(b, k),
        points_from(a, k) <= points_from(b, k),
    decreases 32 - k,
{
    if k < 32 {
        lemma_subset_bounds(a, b, k + 1);
        if 0 <= k {
            lemma_has_ops(a, b, k);
        }
    }
}

/// Two different cards do not overlap.
pub proof fn lemma_cards_disjoint(j: int, k: int)
    requires
        0 <= j < 32,
        0 <= k < 32,
        j != k,
    ensures
        bit(j) & bit(k) == 0,
        bit(j) != bit(k),
{
    lemma_bit_facts(0, j as u32, k as u32);
}

/// Identities of the bitwise operations on card sets.
pub proof fn lemma_set_algebra(a: u32, b: u32, c: u32)
    by (bit_vector)
    ensures
        a & a == a,
        a & !a == 0,
        a & !0u32 == a,
        a & 0xffff_ffffu32 == a,
        a & 0u32 == 0,
        0u32 & a == 0,
        a | 0u32 == a,
        0u32 | a == a,
        a & b == b & a,
        a | b == b | a,
        a ^ b == 0 ==> a == b,
        (a % 2 == 1) == (a & 1u32 != 0),
        (a & b == 0 && a & c == 0) ==> a & (b | c) == 0,
        subset(a, a),
        subset(0u32, a),
        subset(a, a | b),
        subset(b, a | b),
        (subset(a, c) && subset(b, c)) ==> subset(a | b, c),
        subset(a & b, a),
        subset(a & b, b),
        subset(a & !b, a),
        (a & !b) & b == 0,
        subset(a, b) ==> subset(a, b | c),
        (subset(a, b) && subset(b, c)) ==> subset(a, c),
        (a != 0) ==> (a | b) != 0,
        a & b == 0 ==> (c & a) & (c & b) == 0,
        (c & a) | (c & b) == c & (a | b),
        subset(c, b & a) ==> subset(c, b),
        (subset(a, b) && subset(a, c)) ==> subset(a, b & c),
        a | !a == 0xffff_ffffu32,
        (a & b == 0) ==> (a | b) == (a ^ b),
        b & c == 0 ==> a ^ (b | c) == (a ^ b) ^ c,
        subset(b, a) ==> a ^ b == a & !b,
        a & c == 0 ==> (a & !b) & c == 0,
        (a | b) & c == 0 ==> (a & c == 0 && b & c == 0),
        subset(b, a) ==> (a & !b) | b == a,
        (a & !b) & b == 0,
{
}

/// The one-card sets of the 32 cards as numbers.
pub proof fn lemma_card_constants()
    ensures
        bit(31) == 0x8000_0000u32, bit(30) == 0x4000_0000u32, bit(29) == 0x2000_0000u32,
        bit(28) == 0x1000_0000u32, bit(27) == 0x0800_0000u32, bit(26) == 0x0400_0000u32,
        bit(25) == 0x0200_0000u32, bit(24) == 0x0100_0000u32, bit(23) == 0x0080_0000u32,
        bit(22) == 0x0040_0000u32, bit(21) == 0x0020_0000u32, bit(20) == 0x0010_0000u32,
        bit(19) == 0x0008_0000u32, bit(18) == 0x0004_0000u32, bit(17) == 0x0002_0000u32,
        bit(16) == 0x0001_0000u32, bit(15) == 0x0000_8000u32, bit(14) == 0x0000_4000u32,
        bit(13) == 0x0000_2000u32, bit(12) == 0x0000_1000u32, bit(11) == 0x0000_0800u32,
        bit(10) == 0x0000_0400u32, bit(9) == 0x0000_0200u32, bit(8) == 0x0000_0100u32,
        bit(7) == 0x0000_0080u32, bit(6) == 0x0000_0040u32, bit(5) == 0x0000_0020u32,
        bit(4) == 0x0000_0010u32, bit(3) == 0x0000_0008u32, bit(2) == 0x0000_0004u32,
        bit(1) == 0x0000_0002u32, bit(0) == 0x0000_0001u32,
{
    assert(1u32 << 31u32 == 0x8000_0000u32 && 1u32 << 30u32 == 0x4000_0000u32 && 1u32 << 29u32
        == 0x2000_0000u32 && 1u32 << 28u32 == 0x1000_0000u32 && 1u32 << 27u32 == 0x0800_0000u32
        && 1u32 << 26u32 == 0x0400_0000u32 && 1u32 << 25u32 == 0x0200_0000u32 && 1u32 << 24u32
        == 0x0100_0000u32 && 1u32 << 23u32 == 0x0080_0000u32 && 1u32 << 22u32 == 0x0040_0000u32
        && 1u32 << 21u32 == 0x0020_0000u32 && 1u32 << 20u32 == 0x0010_0000u32 && 1u32 << 19u32
        == 0x0008_0000u32 && 1u32 << 18u32 == 0x0004_0000u32 && 1u32 << 17u32 == 0x0002_0000u32
        && 1u32 << 16u32 == 0x0001_0000u32 && 1u32 << 15u32 == 0x0000_8000u32 && 1u32 << 14u32
        == 0x0000_4000u32 && 1u32 << 13u32 == 0x0000_2000u32 && 1u32 << 12u32 == 0x0000_1000u32
        && 1u32 << 11u32 == 0x0000_0800u32 && 1u32 << 10u32 == 0x0000_0400u32 && 1u32 << 9u32
        == 0x0000_0200u32 && 1u32 << 8u32 == 0x0000_0100u32 && 1u32 << 7u32 == 0x0000_0080u32
        && 1u32 << 6u32 == 0x0000_0040u32 && 1u32 << 5u32 == 0x0000_0020u32 && 1u32 << 4u32
        == 0x0000_0010u32 && 1u32 << 3u32 == 0x0000_0008u32 && 1u32 << 2u32 == 0x0000_0004u32
        && 1u32 << 1u32 == 0x0000_0002u32 && 1u32 << 0u32 == 0x0000_0001u32) by (bit_vector);
}

/// Whether `c` is a single card.
pub fn single_card(c: u32) -> (r: bool)
    ensures
        r == is_card(c),
{
    let mut k: u32 = 0;
    while k < 32
        invariant
            k <= 32,
            forall|j: int| 0 <= j < k ==> c != #[trigger] bit(j),
        decreases 32 - k,
    {
        if c == 1u32 << k {
            assert(c == bit(k as int));
            return true;
        }
        k = k + 1;
    }
    false
}

} // verus!

