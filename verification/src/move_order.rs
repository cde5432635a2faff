//! Orders of the moves tried first by the search when a player leads: the cards of suits
//! still held by at least two players first, and an order that leads trump and suits that
//! run.
use vstd::prelude::*;
use crate::cards::{bit, card_count, cards_of, count_from, has_card, high_cards, is_card, subset};
use crate::cli_playout::{highest_bit, top_from};
use crate::consts::{CLUBS, DIAMONDS, HEARTS, SPADES, TRUMP_GRAND};
use crate::defs::{next_of, trump_of, Game, Player};
use crate::position::Position;
use crate::rules::{cards_for_player, get_cards_for_player};

verus! {

/// Whether some player besides another one still holds a card of `mask` and `card` belongs
/// to it: at least two of the three hands hold cards of the suit.
pub open spec fn zugeb_spec(state: Position, card: u32, mask: u32) -> bool {
    let d: int = if mask & state.declarer_cards != 0 { 1 } else { 0 };
    let l: int = if mask & state.left_cards != 0 { 1 } else { 0 };
    let r: int = if mask & state.right_cards != 0 { 1 } else { 0 };
    card & mask != 0 && d + l + r > 1
}

/// Whether `card` is of a suit (the jacks, or a plain suit) that two players still hold.
pub open spec fn zugebung_spec(state: Position, card: u32) -> bool {
    zugeb_spec(state, card, TRUMP_GRAND) || zugeb_spec(state, card, CLUBS) || zugeb_spec(
        state,
        card,
        SPADES,
    ) || zugeb_spec(state, card, HEARTS) || zugeb_spec(state, card, DIAMONDS)
}

/// The cards of `moves` from index `k` up, highest first, that are (`premium`) or are not of a
/// suit two players still hold.
pub open spec fn zugebung_cards(state: Position, moves: u32, k: int, premium: bool) -> Seq<u32>
    decreases 32 - k,
{
    if k >= 32 || k < 0 {
        seq![]
    } else {
        zugebung_cards(state, moves, k + 1, premium) + if has_card(moves, k) && zugebung_spec(
            state,
            bit(k),
        ) == premium {
            seq![bit(k)]
        } else {
            seq![]
        }
    }
}

/// Both lists together hold as many cards as `moves` from index `k` up.
proof fn lemma_zugebung_len(state: Position, moves: u32, k: int)
    requires
        0 <= k <= 32,
    ensures
        zugebung_cards(state, moves, k, true).len() + zugebung_cards(state, moves, k, false).len()
            == count_from(moves, k),
    decreases 32 - k,
{
    if k < 32 {
        lemma_zugebung_len(state, moves, k + 1);
    }
}

fn zugeb(state: &Position, card: u32, mask: u32) -> (r: bool)
    ensures
        r == zugeb_spec(*state, card, mask),
{
    let cardm = card & mask != 0;
    let cardd: u32 = if (mask & state.declarer_cards) != 0 { 1 } else { 0 };
    let cardl: u32 = if (mask & state.left_cards) != 0 { 1 } else { 0 };
    let cardr: u32 = if (mask & state.right_cards) != 0 { 1 } else { 0 };
    cardm && cardd + cardl + cardr > 1
}

fn zugebung(state: &Position, card: u32) -> (r: bool)
    ensures
        r == zugebung_spec(*state, card),
{
    zugeb(state, card, TRUMP_GRAND) || zugeb(state, card, CLUBS) || zugeb(state, card, SPADES)
        || zugeb(state, card, HEARTS) || zugeb(state, card, DIAMONDS)
}

/// The moves, highest first, those of a suit two players still hold before the others; the
/// number of moves.
pub fn get_sorted_by_zugebung(state: Position, moves: u32) -> (r: ([u32; 10], usize))
    requires
        card_count(moves) <= 10,
    ensures
        r.1 == card_count(moves),
        r.0@.subrange(0, r.1 as int) == zugebung_cards(state, moves, 0, true) + zugebung_cards(
            state,
            moves,
            0,
            false,
        ),
{
    let mut premium: Vec<u32> = Vec::new();
    let mut elses: Vec<u32> = Vec::new();
    let mut k: u32 = 32;
    proof {
        lemma_zugebung_len(state, moves, 0);
    }
    while k > 0
        invariant
            k <= 32,
            premium@ == zugebung_cards(state, moves, k as int, true),
            elses@ == zugebung_cards(state, moves, k as int, false),
        decreases k,
    {
        let card = 1u32 << (k - 1);
        if moves & card != 0 {
            proof {
                assert(has_card(moves, k - 1));
            }
            if zugebung(&state, card) {
                premium.push(card);
            } else {
                elses.push(card);
            }
        }
        proof {
            assert(premium@ =~= zugebung_cards(state, moves, k - 1, true));
            assert(elses@ =~= zugebung_cards(state, moves, k - 1, false));
        }
        k = k - 1;
    }
    let mut all: [u32; 10] = [0; 10];
    let mut n: usize = 0;
    let ghost target = premium@ + elses@;
    while n < premium.len()
        invariant
            n <= premium@.len(),
            premium@.len() + elses@.len() <= 10,
            target == premium@ + elses@,
            all@.len() == 10,
            forall|q: int| 0 <= q < n ==> all@[q] == target[q],
        decreases premium@.len() - n,
    {
        all[n] = premium[n];
        n = n + 1;
    }
    let mut m: usize = 0;
    while m < elses.len()
        invariant
            m <= elses@.len(),
            n == premium@.len(),
            premium@.len() + elses@.len() <= 10,
            target == premium@ + elses@,
            all@.len() == 10,
            forall|q: int| 0 <= q < n + m ==> all@[q] == target[q],
        decreases elses@.len() - m,
    {
        all[n + m] = elses[m];
        m = m + 1;
    }
    assert(all@.subrange(0, (n + m) as int) =~= target);
    (all, n + m)
}

/// How a suit lies among the player to move and the two others: the suit, how many of its
/// cards each holds, how many of the highest cards in a row each holds, and a measure of how
/// many rounds of the suit all of them can follow.
#[derive(Clone, Copy, PartialEq, Eq, Structural, Debug)]
pub struct SuitData {
    pub suit_pattern: u32,
    pub cnt_p1: u32,
    pub cnt_p2: u32,
    pub cnt_p3: u32,
    pub ups_p1: u32,
    pub ups_p2: u32,
    pub ups_p3: u32,
    pub factor: u32,
}

/// The counts of a suit among the cards below index `k`: each player's cards, and the run of
/// cards in a row held by the player with the highest of them (the others' runs 0).
pub open spec fn suit_counts(suit: u32, c1: u32, c2: u32, c3: u32, k: int) -> SuitData
    decreases k,
{
    if k <= 0 {
        SuitData {
            suit_pattern: suit,
            cnt_p1: 0,
            cnt_p2: 0,
            cnt_p3: 0,
            ups_p1: 0,
            ups_p2: 0,
            ups_p3: 0,
            factor: 0,
        }
    } else {
        let d = suit_counts(suit, c1, c2, c3, k - 1);
        let j = k - 1;
        if !has_card(suit, j) {
            d
        } else if has_card(c1, j) {
            SuitData {
                cnt_p1: (d.cnt_p1 + 1) as u32,
                ups_p1: (d.ups_p1 + 1) as u32,
                ups_p2: 0,
                ups_p3: 0,
                ..d
            }
        } else if has_card(c2, j) {
            SuitData {
                cnt_p2: (d.cnt_p2 + 1) as u32,
                ups_p2: (d.ups_p2 + 1) as u32,
                ups_p1: 0,
                ups_p3: 0,
                ..d
            }
        } else if has_card(c3, j) {
            SuitData {
                cnt_p3: (d.cnt_p3 + 1) as u32,
                ups_p3: (d.ups_p3 + 1) as u32,
                ups_p1: 0,
                ups_p2: 0,
                ..d
            }
        } else {
            d
        }
    }
}

/// The counts never exceed the cards looked at.
proof fn lemma_counts_bound(suit: u32, c1: u32, c2: u32, c3: u32, k: int)
    requires
        0 <= k <= 32,
    ensures
        suit_counts(suit, c1, c2, c3, k).cnt_p1 <= k,
        suit_counts(suit, c1, c2, c3, k).cnt_p2 <= k,
        suit_counts(suit, c1, c2, c3, k).cnt_p3 <= k,
        suit_counts(suit, c1, c2, c3, k).ups_p1 <= k,
        suit_counts(suit, c1, c2, c3, k).ups_p2 <= k,
        suit_counts(suit, c1, c2, c3, k).ups_p3 <= k,
        suit_counts(suit, c1, c2, c3, k).suit_pattern == suit,
        suit_counts(suit, c1, c2, c3, k).factor == 0,
    decreases k,
{
    if k > 0 {
        lemma_counts_bound(suit, c1, c2, c3, k - 1);
    }
}

/// The measure of a suit: ten times the product of the three counts; when someone lacks the
/// suit, the largest product of two counts.
pub open spec fn suit_factor(d: SuitData) -> u32 {
    let all = d.cnt_p1 * d.cnt_p2 * d.cnt_p3 * 10;
    if all == 0 {
        let a = d.cnt_p1 * d.cnt_p2;
        let b = d.cnt_p1 * d.cnt_p3;
        let c = d.cnt_p2 * d.cnt_p3;
        let m = if a >= b { a } else { b };
        (if m >= c { m } else { c }) as u32
    } else {
        all as u32
    }
}

/// How `suit` lies among the player's cards and the two others' (see `SuitData`).
pub fn get_suit_analysis(
    suit: u32,
    cards_player: u32,
    cards_other_player_1: u32,
    cards_other_player_2: u32,
) -> (r: SuitData)
    ensures
        ({
            let d = suit_counts(suit, cards_player, cards_other_player_1, cards_other_player_2, 32);
            r == SuitData { factor: suit_factor(d), ..d }
        }),
{
    let mut ret = SuitData {
        suit_pattern: suit,
        cnt_p1: 0,
        cnt_p2: 0,
        cnt_p3: 0,
        ups_p1: 0,
        ups_p2: 0,
        ups_p3: 0,
        factor: 0,
    };
    let mut k: u32 = 0;
    while k < 32
        invariant
            k <= 32,
            ret == suit_counts(suit, cards_player, cards_other_player_1, cards_other_player_2, k as int),
        decreases 32 - k,
    {
        proof {
            lemma_counts_bound(suit, cards_player, cards_other_player_1, cards_other_player_2, k as int);
        }
        let c = 1u32 << k;
        if suit & c != 0 {
            proof {
                assert(has_card(suit, k as int));
            }
            if cards_player & c != 0 {
                proof {
                    assert(has_card(cards_player, k as int));
                }
                ret.cnt_p1 = ret.cnt_p1 + 1;
                ret.ups_p1 = ret.ups_p1 + 1;
                ret.ups_p2 = 0;
                ret.ups_p3 = 0;
            } else if cards_other_player_1 & c != 0 {
                proof {
                    assert(has_card(cards_other_player_1, k as int));
                }
                ret.cnt_p2 = ret.cnt_p2 + 1;
                ret.ups_p2 = ret.ups_p2 + 1;
                ret.ups_p1 = 0;
                ret.ups_p3 = 0;
            } else if cards_other_player_2 & c != 0 {
                proof {
                    assert(has_card(cards_other_player_2, k as int));
                }
                ret.cnt_p3 = ret.cnt_p3 + 1;
                ret.ups_p3 = ret.ups_p3 + 1;
                ret.ups_p1 = 0;
                ret.ups_p2 = 0;
            }
        }
        k = k + 1;
    }
    proof {
        lemma_counts_bound(suit, cards_player, cards_other_player_1, cards_other_player_2, 32);
        assert(ret.cnt_p1 * ret.cnt_p2 <= 32 * 32) by (nonlinear_arith)
            requires
                ret.cnt_p1 <= 32,
                ret.cnt_p2 <= 32,
        ;
        assert(ret.cnt_p1 * ret.cnt_p3 <= 32 * 32) by (nonlinear_arith)
            requires
                ret.cnt_p1 <= 32,
                ret.cnt_p3 <= 32,
        ;
        assert(ret.cnt_p2 * ret.cnt_p3 <= 32 * 32) by (nonlinear_arith)
            requires
                ret.cnt_p2 <= 32,
                ret.cnt_p3 <= 32,
        ;
        assert(ret.cnt_p1 * ret.cnt_p2 * ret.cnt_p3 * 10 <= 32 * 32 * 32 * 10) by (nonlinear_arith)
            requires
                ret.cnt_p1 <= 32,
                ret.cnt_p2 <= 32,
                ret.cnt_p3 <= 32,
        ;
    }
    let all = ret.cnt_p1 * ret.cnt_p2 * ret.cnt_p3 * 10;
    if all == 0 {
        let a = ret.cnt_p1 * ret.cnt_p2;
        let b = ret.cnt_p1 * ret.cnt_p3;
        let c = ret.cnt_p2 * ret.cnt_p3;
        let m = if a >= b { a } else { b };
        ret.factor = if m >= c { m } else { c };
    } else {
        ret.factor = all;
    }
    ret
}

/// The highest card of `x` up to index `k`, when there is one, is a card of `x`.
proof fn lemma_top_from(x: u32, k: int)
    requires
        k < 32,
    ensures
        top_from(x, k) != 0 ==> is_card(top_from(x, k)) && subset(top_from(x, k), x),
    decreases k + 1,
{
    if k >= 0 {
        if has_card(x, k) {
            crate::cards::lemma_card_subset(x, k);
        } else {
            lemma_top_from(x, k - 1);
        }
    }
}

/// The moves put in order so far: single cards of `moves`, none twice, none left in
/// `remaining`, and with `remaining` all of `moves`.
pub open spec fn order_ok(list: Seq<u32>, remaining: u32, moves: u32) -> bool {
    &&& subset(remaining, moves)
    &&& list.len() + card_count(remaining) == card_count(moves)
    &&& forall|q: int|
        0 <= q < list.len() ==> is_card(#[trigger] list[q]) && subset(list[q], moves) && list[q]
            & remaining == 0
    &&& forall|a: int, b: int| 0 <= a < b < list.len() ==> #[trigger] list[a] != #[trigger] list[b]
}

/// Moves the highest remaining move of `suit`, if any, to the end of the list.
fn add_card(suit: u32, remaining_moves: &mut u32, arr: &mut Vec<u32>, Ghost(moves): Ghost<u32>)
    requires
        order_ok(old(arr)@, *old(remaining_moves), moves),
    ensures
        order_ok(final(arr)@, *final(remaining_moves), moves),
        top_from(*old(remaining_moves) & suit, 31) == 0 ==> final(arr)@ == old(arr)@
            && *final(remaining_moves) == *old(remaining_moves),
        top_from(*old(remaining_moves) & suit, 31) != 0 ==> final(arr)@ == old(arr)@.push(
            top_from(*old(remaining_moves) & suit, 31),
        ) && *final(remaining_moves) == *old(remaining_moves) & !top_from(
            *old(remaining_moves) & suit,
            31,
        ),
{
    let rem = *remaining_moves;
    let c = highest_bit(rem & suit);
    if c != 0 {
        proof {
            lemma_top_from(rem & suit, 31);
            crate::cards::lemma_set_algebra(rem, suit, c);
            crate::cards::lemma_set_algebra(c, rem & suit, rem);
            lemma_take_card(c, rem);
        }
        let ghost old_list = arr@;
        arr.push(c);
        *remaining_moves = rem & !c;
        proof {
            let nr = rem & !c;
            assert(c & (rem & !c) == 0) by (bit_vector);
            crate::cards::lemma_set_algebra(rem, c, moves);
            crate::cards::lemma_set_algebra(nr, rem, moves);
            assert forall|q: int| 0 <= q < arr@.len() implies is_card(#[trigger] arr@[q]) && subset(
                arr@[q],
                moves,
            ) && arr@[q] & nr == 0 by {
                if q < old_list.len() {
                    assert(arr@[q] == old_list[q]);
                    lemma_disjoint_shrink(arr@[q], rem, c);
                } else {
                    assert(arr@[q] == c);
                    crate::cards::lemma_set_algebra(c, rem, moves);
                }
            }
            assert forall|a: int, b: int| 0 <= a < b < arr@.len() implies #[trigger] arr@[a]
                != #[trigger] arr@[b] by {
                if b == old_list.len() {
                    assert(arr@[a] == old_list[a]);
                    lemma_distinct_card(old_list[a], c, rem);
                } else {
                    assert(arr@[a] == old_list[a]);
                    assert(arr@[b] == old_list[b]);
                }
            }
        }
    }
}

/// Taking a card of a set leaves one card fewer.
proof fn lemma_take_card(c: u32, x: u32)
    requires
        is_card(c),
        subset(c, x),
    ensures
        card_count(x & !c) + 1 == card_count(x),
        subset(x & !c, x),
{
    crate::cards::lemma_set_algebra(x, c, 0);
    crate::cards::lemma_union(x & !c, c);
    let k = choose|k: int| 0 <= k < 32 && c == bit(k);
    crate::cards::lemma_bit_facts(0, k as u32, k as u32);
    lemma_single_count(k, 0);
}

/// A single card counts one.
proof fn lemma_single_count(k: int, j: int)
    requires
        0 <= k < 32,
        0 <= j <= 32,
    ensures
        count_from(bit(k), j) == if j <= k {
            1nat
        } else {
            0nat
        },
    decreases 32 - j,
{
    if j < 32 {
        lemma_single_count(k, j + 1);
        crate::cards::lemma_has_bit(k, j);
    }
}

/// A set with a card at or below index `k` has a highest one there.
proof fn lemma_top_nonzero(x: u32, k: int)
    requires
        k < 32,
    ensures
        (exists|j: int| 0 <= j <= k && has_card(x, j)) ==> top_from(x, k) != 0,
    decreases k + 1,
{
    if k >= 0 {
        if has_card(x, k) {
            crate::cards::lemma_bit_facts(0, k as u32, k as u32);
        } else {
            lemma_top_nonzero(x, k - 1);
        }
    }
}

/// A card disjoint from a set is disjoint from any part of it.
proof fn lemma_disjoint_shrink(e: u32, x: u32, c: u32)
    requires
        e & x == 0,
    ensures
        e & (x & !c) == 0,
{
    assert(e & x == 0 ==> e & (x & !c) == 0) by (bit_vector);
}

/// A card outside a set differs from a card of it.
proof fn lemma_distinct_card(e: u32, c: u32, x: u32)
    requires
        e & x == 0,
        is_card(c),
        subset(c, x),
    ensures
        e != c,
{
    let k = choose|k: int| 0 <= k < 32 && c == bit(k);
    crate::cards::lemma_bit_facts(0, k as u32, k as u32);
    assert(c & x == c);
    assert((e & x == 0 && c & x == c && c != 0) ==> e != c) by (bit_vector);
}

/// Appends the moves, highest first.
fn add_remaining_cards(moves: u32, arr: &mut Vec<u32>)
    ensures
        final(arr)@ == old(arr)@ + cards_of(moves),
{
    let mut k: u32 = 32;
    let ghost start = arr@;
    while k > 0
        invariant
            k <= 32,
            arr@ == start + high_cards(moves, k as int),
        decreases k,
    {
        let c = 1u32 << (k - 1);
        if moves & c != 0 {
            proof {
                assert(has_card(moves, k - 1));
            }
            arr.push(c);
        }
        proof {
            assert(arr@ =~= start + high_cards(moves, k - 1));
        }
        k = k - 1;
    }
}

/// `d` put into `s` behind the entries whose measure is not larger than its own.
pub open spec fn insert_by_factor(s: Seq<SuitData>, d: SuitData) -> Seq<SuitData>
    decreases s.len(),
{
    if s.len() == 0 {
        seq![d]
    } else if s.last().factor > d.factor {
        insert_by_factor(s.drop_last(), d).push(s.last())
    } else {
        s.push(d)
    }
}

/// The suit data in the order of their measure, lowest first; equal ones keep their order.
pub open spec fn sorted_by_factor(v: Seq<SuitData>) -> Seq<SuitData>
    decreases v.len(),
{
    if v.len() == 0 {
        seq![]
    } else {
        insert_by_factor(sorted_by_factor(v.drop_last()), v.last())
    }
}

/// Putting an entry in keeps the length.
proof fn lemma_insert_len(s: Seq<SuitData>, d: SuitData)
    ensures
        insert_by_factor(s, d).len() == s.len() + 1,
    decreases s.len(),
{
    if s.len() > 0 && s.last().factor > d.factor {
        lemma_insert_len(s.drop_last(), d);
    }
}

/// Sorting keeps the length.
proof fn lemma_sorted_len(v: Seq<SuitData>)
    ensures
        sorted_by_factor(v).len() == v.len(),
    decreases v.len(),
{
    if v.len() > 0 {
        lemma_sorted_len(v.drop_last());
        lemma_insert_len(sorted_by_factor(v.drop_last()), v.last());
    }
}

/// The suit data sorted by their measure, lowest first; equal ones keep their order.
fn sort_by_factor(v: [SuitData; 4]) -> (r: [SuitData; 4])
    ensures
        r@ == sorted_by_factor(v@),
{
    let mut a = v;
    proof {
        let t = v@.take(1);
        assert(t.drop_last() =~= Seq::<SuitData>::empty());
        assert(sorted_by_factor(t.drop_last()) == Seq::<SuitData>::empty());
        assert(t.last() == v@[0]);
        assert(sorted_by_factor(t) == insert_by_factor(Seq::<SuitData>::empty(), v@[0]));
        assert(a@.take(1) =~= sorted_by_factor(v@.take(1)));
    }
    let mut i: usize = 1;
    while i < 4
        invariant
            1 <= i <= 4,
            a@.len() == 4,
            a@.take(i as int) == sorted_by_factor(v@.take(i as int)),
            a@.skip(i as int) == v@.skip(i as int),
        decreases 4 - i,
    {
        let ghost s = a@.take(i as int);
        let ghost x = v@[i as int];
        proof {
            lemma_sorted_len(v@.take(i as int));
            assert(a@[i as int] == x) by {
                assert(a@.skip(i as int)[0] == v@.skip(i as int)[0]);
            }
            assert(v@.take(i + 1).drop_last() =~= v@.take(i as int));
            assert(v@.take(i + 1).last() == x);
            assert(sorted_by_factor(v@.take(i + 1)) == insert_by_factor(s, x));
            assert(s.len() == i);
            assert(s.take(i as int) =~= s);
            assert(s.skip(i as int) =~= Seq::<SuitData>::empty());
            assert(insert_by_factor(s, x) =~= insert_by_factor(s.take(i as int), x) + s.skip(
                i as int,
            ));
            assert(a@.take(i + 1) =~= s.take(i as int) + seq![x] + s.skip(i as int));
            assert forall|k: int| 0 <= k < a@.skip(i + 1).len() implies #[trigger] a@.skip(i + 1)[k]
                == v@.skip(i + 1)[k] by {
                assert(a@.skip(i as int)[k + 1] == v@.skip(i as int)[k + 1]);
            }
            assert(a@.skip(i + 1) =~= v@.skip(i + 1));
        }
        let mut j: usize = i;
        while j > 0 && a[j - 1].factor > a[j].factor
            invariant
                j <= i < 4,
                a@.len() == 4,
                s.len() == i,
                a@.take(i + 1) == s.take(j as int) + seq![x] + s.skip(j as int),
                a@.skip(i + 1) == v@.skip(i + 1),
                insert_by_factor(s, x) == insert_by_factor(s.take(j as int), x) + s.skip(j as int),
            decreases j,
        {
            let ghost before = a@;
            let t = a[j - 1];
            a[j - 1] = a[j];
            a[j] = t;
            proof {
                assert(before[j as int] == x) by {
                    assert(before.take(i + 1)[j as int] == (s.take(j as int) + seq![x] + s.skip(
                        j as int,
                    ))[j as int]);
                }
                assert(before[j - 1] == s[j - 1]) by {
                    assert(before.take(i + 1)[j - 1] == (s.take(j as int) + seq![x] + s.skip(
                        j as int,
                    ))[j - 1]);
                }
                let sj = s.take(j as int);
                assert(sj.drop_last() =~= s.take(j - 1));
                assert(sj.last() == s[j - 1]);
                assert(insert_by_factor(sj, x) == insert_by_factor(s.take(j - 1), x).push(
                    s[j - 1],
                ));
                assert(insert_by_factor(s, x) =~= insert_by_factor(s.take(j - 1), x) + s.skip(
                    j - 1,
                ));
                let target = s.take(j - 1) + seq![x] + s.skip(j - 1);
                let prior = s.take(j as int) + seq![x] + s.skip(j as int);
                assert forall|k: int| 0 <= k < i + 1 implies a@.take(i + 1)[k] == target[k] by {
                    assert(before.take(i + 1)[k] == prior[k]);
                    if k < j - 1 {
                        assert(before[k] == s[k]);
                    } else if k == j - 1 {
                    } else if k == j {
                    } else {
                        assert(before[k] == s[k - 1]);
                    }
                }
                assert(a@.take(i + 1) =~= target);
                assert(a@.skip(i + 1) =~= before.skip(i + 1));
            }
            j = j - 1;
        }
        proof {
            let sj = s.take(j as int);
            if j > 0 {
                assert(a@[j - 1] == s[j - 1]) by {
                    assert(a@.take(i + 1)[j - 1] == (sj + seq![x] + s.skip(j as int))[j - 1]);
                }
                assert(a@[j as int] == x) by {
                    assert(a@.take(i + 1)[j as int] == (sj + seq![x] + s.skip(j as int))[j as int]);
                }
                assert(sj.last() == s[j - 1]);
                assert(insert_by_factor(sj, x) == sj.push(x));
            } else {
                assert(sj =~= seq![]);
                assert(insert_by_factor(sj, x) == seq![x]);
            }
            assert(a@.take(i + 1) =~= insert_by_factor(s, x));
            assert(a@.skip(i + 1) =~= v@.skip(i + 1));
        }
        i = i + 1;
    }
    proof {
        assert(a@.take(4) =~= a@);
        assert(v@.take(4) =~= v@);
    }
    a
}

/// How `suit` lies among the hands `c1` of the player to move, `c2` and `c3` (see
/// `get_suit_analysis`).
pub open spec fn suit_data(suit: u32, c1: u32, c2: u32, c3: u32) -> SuitData {
    let d = suit_counts(suit, c1, c2, c3, 32);
    SuitData { factor: suit_factor(d), ..d }
}

/// The suits of `s`, in order, whose measure is positive and, when `need_top`, of which the
/// player to move holds the highest cards.
pub open spec fn chosen_suits(s: Seq<SuitData>, need_top: bool) -> Seq<u32>
    decreases s.len(),
{
    if s.len() == 0 {
        seq![]
    } else {
        let prev = chosen_suits(s.drop_last(), need_top);
        let d = s.last();
        if d.factor > 0 && (!need_top || d.ups_p1 > 0) {
            prev.push(d.suit_pattern)
        } else {
            prev
        }
    }
}

/// The plain suits looked at when a player leads: diamonds, hearts, spades and, in a grand,
/// clubs (else an empty entry), each with how it lies among the hands.
pub open spec fn plain_suit_data(state: Position, game: Game) -> Seq<SuitData> {
    let p1 = state.player;
    let p2 = next_of(p1);
    let p3 = next_of(p2);
    let c1 = cards_for_player(state.declarer_cards, state.left_cards, state.right_cards, p1);
    let c2 = cards_for_player(state.declarer_cards, state.left_cards, state.right_cards, p2);
    let c3 = cards_for_player(state.declarer_cards, state.left_cards, state.right_cards, p3);
    let empty = SuitData {
        suit_pattern: 0,
        cnt_p1: 0,
        cnt_p2: 0,
        cnt_p3: 0,
        ups_p1: 0,
        ups_p2: 0,
        ups_p3: 0,
        factor: 0,
    };
    seq![
        suit_data(DIAMONDS, c1, c2, c3),
        suit_data(HEARTS, c1, c2, c3),
        suit_data(SPADES, c1, c2, c3),
        if game == Game::Grand {
            suit_data(CLUBS, c1, c2, c3)
        } else {
            empty
        },
    ]
}

/// The suits from which a leader takes the highest card, in turn: trump when the declarer
/// leads; then, among the first three plain suits by rising measure (four in a grand), those
/// that run and whose top cards the leader holds; then those that run.
pub open spec fn lead_suits(state: Position, game: Game) -> Seq<u32> {
    let n: int = if game == Game::Grand {
        4
    } else {
        3
    };
    let sorted = sorted_by_factor(plain_suit_data(state, game)).take(n);
    (if state.player == Player::Declarer {
        seq![trump_of(game)]
    } else {
        seq![]
    }) + chosen_suits(sorted, true) + chosen_suits(sorted, false)
}

/// Taking, for each suit of `suits` in turn, the highest card of that suit among the moves
/// left: the cards taken, in order, and the moves left.
pub open spec fn pick_tops(remaining: u32, suits: Seq<u32>) -> (Seq<u32>, u32)
    decreases suits.len(),
{
    if suits.len() == 0 {
        (seq![], remaining)
    } else {
        let prev = pick_tops(remaining, suits.drop_last());
        let c = top_from(prev.1 & suits.last(), 31);
        if c == 0 {
            prev
        } else {
            (prev.0.push(c), prev.1 & !c)
        }
    }
}

/// One more suit takes its highest card after those before.
proof fn lemma_pick_push(remaining: u32, suits: Seq<u32>, x: u32)
    ensures
        pick_tops(remaining, suits.push(x)) == ({
            let prev = pick_tops(remaining, suits);
            let c = top_from(prev.1 & x, 31);
            if c == 0 {
                prev
            } else {
                (prev.0.push(c), prev.1 & !c)
            }
        }),
{
    assert(suits.push(x).drop_last() =~= suits);
}

/// One more entry adds its suit when it qualifies.
proof fn lemma_chosen_push(s: Seq<SuitData>, i: int, need_top: bool)
    requires
        0 <= i < s.len(),
    ensures
        chosen_suits(s.take(i + 1), need_top) == if s[i].factor > 0 && (!need_top || s[i].ups_p1
            > 0) {
            chosen_suits(s.take(i), need_top).push(s[i].suit_pattern)
        } else {
            chosen_suits(s.take(i), need_top)
        },
{
    assert(s.take(i + 1).drop_last() =~= s.take(i));
}

/// The order for a player who leads: with the declarer to move, the highest trump first; then
/// the highest card of each suit that runs and of which the player holds the top cards, then
/// of each other suit that runs (the plain suits, clubs only in a grand, by rising measure);
/// then the rest, highest first. Every move comes exactly once.
pub fn get_sorted_main(state: Position, moves: u32, game: Game) -> (r: ([u32; 10], usize))
    requires
        card_count(moves) <= 10,
    ensures
        r.1 == card_count(moves),
        forall|q: int| 0 <= q < r.1 ==> is_card(#[trigger] r.0@[q]) && subset(r.0@[q], moves),
        forall|a: int, b: int| 0 <= a < b < r.1 ==> #[trigger] r.0@[a] != #[trigger] r.0@[b],
        state.player == Player::Declarer && moves & trump_of(game) != 0 ==> r.0@[0] == top_from(
            moves & trump_of(game),
            31,
        ),
        ({
            let p = pick_tops(moves, lead_suits(state, game));
            r.0@.take(r.1 as int) == p.0 + cards_of(p.1)
        }),
{
    let p1 = state.player;
    let p2 = p1.inc();
    let p3 = p2.inc();
    let c1 = get_cards_for_player(state.declarer_cards, state.left_cards, state.right_cards, p1);
    let c2 = get_cards_for_player(state.declarer_cards, state.left_cards, state.right_cards, p2);
    let c3 = get_cards_for_player(state.declarer_cards, state.left_cards, state.right_cards, p3);
    let trump = game.get_trump();
    let trumpsuit = get_suit_analysis(trump, c1, c2, c3);
    let mut nr_color_suits: usize = 3;
    let empty = SuitData {
        suit_pattern: 0,
        cnt_p1: 0,
        cnt_p2: 0,
        cnt_p3: 0,
        ups_p1: 0,
        ups_p2: 0,
        ups_p3: 0,
        factor: 0,
    };
    let mut colorsuit: [SuitData; 4] = [empty, empty, empty, empty];
    colorsuit[0] = get_suit_analysis(DIAMONDS, c1, c2, c3);
    colorsuit[1] = get_suit_analysis(HEARTS, c1, c2, c3);
    colorsuit[2] = get_suit_analysis(SPADES, c1, c2, c3);
    if game == Game::Grand {
        colorsuit[3] = get_suit_analysis(CLUBS, c1, c2, c3);
        nr_color_suits = 4;
    }
    proof {
        assert(colorsuit@ =~= plain_suit_data(state, game));
    }
    let colorsuit = sort_by_factor(colorsuit);
    let ghost n_plain: int = if game == Game::Grand {
        4
    } else {
        3
    };
    let ghost sorted = colorsuit@.take(n_plain);
    let ghost head: Seq<u32> = if state.player == Player::Declarer {
        seq![trump_of(game)]
    } else {
        seq![]
    };
    let mut list: Vec<u32> = Vec::new();
    let mut remaining = moves;
    let ghost mut done: Seq<u32> = seq![];
    proof {
        lemma_counts_bound(trump, c1, c2, c3, 32);
        crate::cards::lemma_set_algebra(moves, 0, 0);
        lemma_top_nonzero(moves & trump, 31);
        if moves & trump != 0 {
            if !(exists|j: int| 0 <= j <= 31 && has_card(moves & trump, j)) {
                assert forall|k: int| 0 <= k < 32 implies has_card(moves & trump, k) == has_card(
                    0u32,
                    k,
                ) by {
                    crate::cards::lemma_has_consts(k);
                }
                crate::cards::lemma_ext(moves & trump, 0);
            }
        }
    }
    proof {
        assert(pick_tops(moves, done) == (Seq::<u32>::empty(), moves));
        assert(list@ =~= Seq::<u32>::empty());
    }
    if state.player == Player::Declarer {
        add_card(trumpsuit.suit_pattern, &mut remaining, &mut list, Ghost(moves));
        proof {
            lemma_pick_push(moves, done, trump);
            done = done.push(trump);
        }
    }
    proof {
        assert(done =~= head);
    }
    let ghost first_list = list@;
    let mut i: usize = 0;
    while i < nr_color_suits
        invariant
            i <= nr_color_suits <= 4,
            nr_color_suits == n_plain,
            sorted == colorsuit@.take(n_plain),
            order_ok(list@, remaining, moves),
            list@.len() >= first_list.len(),
            list@.subrange(0, first_list.len() as int) == first_list,
            done == head + chosen_suits(sorted.take(i as int), true),
            list@ == pick_tops(moves, done).0,
            remaining == pick_tops(moves, done).1,
        decreases nr_color_suits - i,
    {
        let item = colorsuit[i];
        proof {
            assert(sorted[i as int] == item);
            lemma_chosen_push(sorted, i as int, true);
        }
        if item.factor > 0 && item.ups_p1 > 0 {
            add_card(item.suit_pattern, &mut remaining, &mut list, Ghost(moves));
            proof {
                lemma_pick_push(moves, done, item.suit_pattern);
                assert(done.push(item.suit_pattern) =~= head + chosen_suits(
                    sorted.take(i as int),
                    true,
                ).push(item.suit_pattern));
                done = done.push(item.suit_pattern);
            }
        }
        proof {
            assert(list@.subrange(0, first_list.len() as int) =~= first_list);
        }
        i = i + 1;
    }
    proof {
        assert(sorted.take(n_plain) =~= sorted);
    }
    let ghost mid = done;
    i = 0;
    while i < nr_color_suits
        invariant
            i <= nr_color_suits <= 4,
            nr_color_suits == n_plain,
            sorted == colorsuit@.take(n_plain),
            order_ok(list@, remaining, moves),
            list@.len() >= first_list.len(),
            list@.subrange(0, first_list.len() as int) == first_list,
            done == mid + chosen_suits(sorted.take(i as int), false),
            list@ == pick_tops(moves, done).0,
            remaining == pick_tops(moves, done).1,
        decreases nr_color_suits - i,
    {
        let item = colorsuit[i];
        proof {
            assert(sorted[i as int] == item);
            lemma_chosen_push(sorted, i as int, false);
        }
        if item.factor > 0 {
            add_card(item.suit_pattern, &mut remaining, &mut list, Ghost(moves));
            proof {
                lemma_pick_push(moves, done, item.suit_pattern);
                assert(done.push(item.suit_pattern) =~= mid + chosen_suits(
                    sorted.take(i as int),
                    false,
                ).push(item.suit_pattern));
                done = done.push(item.suit_pattern);
            }
        }
        proof {
            assert(list@.subrange(0, first_list.len() as int) =~= first_list);
        }
        i = i + 1;
    }
    proof {
        assert(sorted == sorted_by_factor(plain_suit_data(state, game)).take(n_plain));
        assert(done =~= lead_suits(state, game));
    }
    let ghost before_rest = list@;
    add_remaining_cards(remaining, &mut list);
    proof {
        crate::cards::lemma_cards_of_members(remaining);
        crate::cards::lemma_cards_of_descending(remaining);
        crate::cards::lemma_high_cards_len(remaining, 0);
        let rest = cards_of(remaining);
        assert forall|q: int| 0 <= q < list@.len() implies is_card(#[trigger] list@[q]) && subset(
            list@[q],
            moves,
        ) by {
            if q >= before_rest.len() {
                assert(list@[q] == rest[q - before_rest.len()]);
                crate::cards::lemma_set_algebra(list@[q], remaining, moves);
            } else {
                assert(list@[q] == before_rest[q]);
            }
        }
        assert forall|a: int, b: int| 0 <= a < b < list@.len() implies #[trigger] list@[a]
            != #[trigger] list@[b] by {
            if b >= before_rest.len() && a < before_rest.len() {
                assert(list@[a] == before_rest[a]);
                assert(list@[b] == rest[b - before_rest.len()]);
                lemma_distinct_card(before_rest[a], rest[b - before_rest.len()], remaining);
            } else if a >= before_rest.len() {
                assert(list@[a] == rest[a - before_rest.len()]);
                assert(list@[b] == rest[b - before_rest.len()]);
            } else {
                assert(list@[a] == before_rest[a]);
                assert(list@[b] == before_rest[b]);
            }
        }
        if state.player == Player::Declarer && moves & trump_of(game) != 0 {
            assert(list@[0] == first_list[0]);
        }
    }
    let ghost full = list@;
    let mut ret: [u32; 10] = [0; 10];
    let mut k: usize = 0;
    while k < list.len()
        invariant
            list@.len() <= 10,
            k <= list@.len(),
            ret@.len() == 10,
            forall|q: int| 0 <= q < k ==> ret@[q] == list@[q],
        decreases list@.len() - k,
    {
        ret[k] = list[k];
        k = k + 1;
    }
    proof {
        assert(ret@.take(k as int) =~= full);
    }
    (ret, k)
}

} // verus!
