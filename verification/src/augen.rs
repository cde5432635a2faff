//! Card points ("Augen") of card sets.
use vstd::prelude::*;
use vstd::std_specs::bits::{u32_trailing_zeros, axiom_u32_trailing_zeros};
use crate::cards::{
    bit, card_count, card_value, count_cards, has_card, lemma_bounds, lemma_bounds_from,
    lemma_remove_card, points, points_from,
};
use crate::consts::{JACKOFCLUBS, REVERSED_AUGENLIST};

verus! {

/// Point value of the lowest card of `x`.
pub open spec fn lowest_value(x: u32) -> nat {
    card_value(u32_trailing_zeros(x) as int)
}

/// `x` without its lowest card.
pub open spec fn without_lowest(x: u32) -> u32 {
    x & ((x - 1) as u32)
}

/// Points of the three lowest cards of `x`.
pub open spec fn three_lowest_value(x: u32) -> nat {
    lowest_value(x) + lowest_value(without_lowest(x)) + lowest_value(
        without_lowest(without_lowest(x)),
    )
}

proof fn lemma_lowest_bits(x: u32, t: u32)
    by (bit_vector)
    requires
        t < 32,
        (x >> t) & 1u32 == 1u32,
        x << ((32 - t) as u32) == 0,
    ensures
        x & (1u32 << t) != 0,
        x & ((x - 1) as u32) == x & !(1u32 << t),
{
}

/// The lowest card of a non-empty set: it is in the set and removing it is `x & (x - 1)`.
pub proof fn lemma_lowest(x: u32)
    requires
        x != 0,
    ensures
        0 <= u32_trailing_zeros(x) < 32,
        has_card(x, u32_trailing_zeros(x) as int),
        without_lowest(x) == x & !bit(u32_trailing_zeros(x) as int),
        card_count(x) == card_count(without_lowest(x)) + 1,
        points(x) == points(without_lowest(x)) + lowest_value(x),
{
    axiom_u32_trailing_zeros(x);
    let t = u32_trailing_zeros(x);
    lemma_lowest_bits(x, t);
    lemma_remove_card(x, t as int);
}

/// Point queries on card sets.
pub trait Augen {
    /// The card set that the value stands for.
    spec fn augen_set(&self) -> u32;

    /// Points of all cards of the set.
    fn __get_value(&self) -> u8;

    /// Points of the three lowest cards of a set of at least three cards.
    fn __get_value_of_three_cards(&self) -> u8
        requires
            card_count(self.augen_set()) >= 3,
    ;

    /// Number of cards of the set.
    fn __get_number_of_bits(&self) -> u8;

    /// Points of the lowest card of a non-empty set.
    fn __get_from_one_card(&self) -> u8
        requires
            self.augen_set() != 0,
    ;
}

impl Augen for u32 {
    open spec fn augen_set(&self) -> u32 {
        *self
    }

    fn __get_value(&self) -> (r: u8)
        ensures
            r == points(*self),
    {
        let x = *self;
        let mut augen = 0u8;
        let mut current_card = JACKOFCLUBS;
        let mut i: usize = 0;
        proof {
            crate::cards::lemma_card_constants();
        }
        while i < 32
            invariant
                i <= 32,
                i < 32 ==> current_card == bit(31 - i),
                augen == points_from(x, 32 - i),
            decreases 32 - i,
        {
            proof {
                lemma_bounds_from(x, 31 - i);
                lemma_bounds(x);
                lemma_points_from_le(x, 31 - i);
                crate::cards::lemma_bit_facts(0, 0, (31 - i) as u32);
            }
            if x & current_card > 0 {
                augen = augen + REVERSED_AUGENLIST[31 - i];
            }
            current_card = current_card >> 1;
            i = i + 1;
        }
        augen
    }

    fn __get_value_of_three_cards(&self) -> (r: u8)
        ensures
            r == three_lowest_value(*self),
            card_count(*self) == 3 ==> r == points(*self),
    {
        let mut x: u32 = *self;
        let ghost x0 = x;
        proof {
            lemma_three(x0);
        }
        let i1 = x.trailing_zeros() as usize;
        x = x & (x - 1);
        let i2 = x.trailing_zeros() as usize;
        x = x & (x - 1);
        let i3 = x.trailing_zeros() as usize;
        REVERSED_AUGENLIST[i1] + REVERSED_AUGENLIST[i2] + REVERSED_AUGENLIST[i3]
    }

    fn __get_number_of_bits(&self) -> (r: u8)
        ensures
            r == card_count(*self),
    {
        count_cards(*self) as u8
    }

    fn __get_from_one_card(&self) -> (r: u8)
        ensures
            r == lowest_value(*self),
            card_count(*self) == 1 ==> r == points(*self),
    {
        proof {
            lemma_lowest(*self);
            if card_count(*self) == 1 {
                crate::cards::lemma_count_zero(without_lowest(*self));
                crate::cards::lemma_empty_set();
            }
        }
        let i1 = self.trailing_zeros() as usize;
        REVERSED_AUGENLIST[i1]
    }
}

/// Points from index `k` never exceed the points of the whole set, nor 120.
pub proof fn lemma_points_from_le(x: u32, k: int)
    requires
        0 <= k,
    ensures
        points_from(x, k) <= points(x),
        points_from(x, k) <= 120,
    decreases k,
{
    if k > 0 {
        lemma_points_from_le(x, k - 1);
    }
    lemma_bounds(x);
}

/// The three lowest cards of a set of at least three cards, and the case of exactly three.
proof fn lemma_three(x: u32)
    requires
        card_count(x) >= 3,
    ensures
        x != 0,
        without_lowest(x) != 0,
        without_lowest(without_lowest(x)) != 0,
        u32_trailing_zeros(x) < 32,
        u32_trailing_zeros(without_lowest(x)) < 32,
        u32_trailing_zeros(without_lowest(without_lowest(x))) < 32,
        card_count(x) == 3 ==> three_lowest_value(x) == points(x),
        x > 0,
        x & ((x - 1) as u32) > 0,
{
    crate::cards::lemma_empty_set();
    let y = without_lowest(x);
    let z = without_lowest(y);
    assert(x != 0);
    lemma_lowest(x);
    assert(y != 0);
    lemma_lowest(y);
    assert(z != 0);
    lemma_lowest(z);
    if card_count(x) == 3 {
        crate::cards::lemma_count_zero(without_lowest(z));
    }
    crate::cards::lemma_card_value_bound(u32_trailing_zeros(x) as int);
    crate::cards::lemma_card_value_bound(u32_trailing_zeros(y) as int);
    crate::cards::lemma_card_value_bound(u32_trailing_zeros(z) as int);
}

/// Point queries used throughout the engine.
pub trait Points {
    /// The card set that the value stands for.
    spec fn points_set(&self) -> u32;

    /// Points of all cards of the set.
    fn points(&self) -> u8;

    /// Number of cards of the set.
    fn card_count(&self) -> u8;
}

impl Points for u32 {
    open spec fn points_set(&self) -> u32 {
        *self
    }

    fn points(&self) -> (r: u8)
        ensures
            r == points(*self),
    {
        self.__get_value()
    }

    fn card_count(&self) -> (r: u8)
        ensures
            r == card_count(*self),
    {
        self.__get_number_of_bits()
    }
}

} // verus!
