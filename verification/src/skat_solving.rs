//! Finding the best skat to put away: every pair of the declarer's twelve cards is tried.
use vstd::prelude::*;
use crate::augen::Augen;
use crate::cards::{
    bit, card_count, cards_of, has_card, is_card, lemma_set_algebra, points, subset, Bitboard,
};
use crate::context::{deal_ok, GameContext};
use crate::counters::Counters;
use crate::defs::{Game, Player};
use crate::engine::SkatEngine;
use crate::rules::get_all_unplayed_cards;
use crate::solver::solve_double_dummy;

verus! {

/// How much of each skat's game is searched: a window that starts at the best value so far,
/// only whether the game is won, or the full value.
#[derive(Clone, Copy, PartialEq, Eq, Structural, Debug)]
pub enum AccelerationMode {
    AlphaBetaAccelerating,
    WinningOnly,
    NotAccelerating,
}

/// A skat put away and the value of the game with it.
#[derive(Clone, Copy, PartialEq, Eq, Structural, Debug)]
pub struct SolveWithSkatRetLine {
    pub skat_card_1: u32,
    pub skat_card_2: u32,
    pub value: u8,
}

/// The best skat, every skat tried, and the search statistics.
pub struct SolveWithSkatRet {
    pub best_skat: Option<SolveWithSkatRetLine>,
    pub all_skats: Vec<SolveWithSkatRetLine>,
    pub counters: Counters,
}

/// The pairs of the card at index `i` with each later card of the twelve.
pub open spec fn pair_row(s: Seq<u32>, i: int) -> Seq<(u32, u32)> {
    Seq::new((11 - i) as nat, |k: int| (s[i], s[i + 1 + k]))
}

/// The pairs whose first card has an index below `i`, in order.
pub open spec fn pairs_before(s: Seq<u32>, i: int) -> Seq<(u32, u32)>
    decreases i,
{
    if i <= 0 {
        Seq::empty()
    } else {
        pairs_before(s, i - 1) + pair_row(s, i - 1)
    }
}

/// All pairs of two of the twelve cards, the earlier card first.
pub open spec fn skat_pairs(s: Seq<u32>) -> Seq<(u32, u32)> {
    pairs_before(s, 11)
}

/// Every pair of the list is made of two cards of the twelve, the earlier one first.
pub proof fn lemma_pairs_before(s: Seq<u32>, i: int)
    requires
        0 <= i <= 11,
        s.len() >= 12,
    ensures
        forall|k: int|
            0 <= k < pairs_before(s, i).len() ==> exists|a: int, b: int|
                0 <= a < b < 12 && #[trigger] pairs_before(s, i)[k] == (s[a], s[b]),
        i > 0 ==> pairs_before(s, i).len() > 0,
    decreases i,
{
    if i > 0 {
        lemma_pairs_before(s, i - 1);
        let prev = pairs_before(s, i - 1);
        let row = pair_row(s, i - 1);
        assert forall|k: int| 0 <= k < pairs_before(s, i).len() implies exists|a: int, b: int|
            0 <= a < b < 12 && #[trigger] pairs_before(s, i)[k] == (s[a], s[b]) by {
            if k < prev.len() {
                assert(pairs_before(s, i)[k] == prev[k]);
                let (a, b) = choose|a: int, b: int| 0 <= a < b < 12 && prev[k] == (s[a], s[b]);
                assert(pairs_before(s, i)[k] == (s[a], s[b]));
            } else {
                let m = k - prev.len();
                assert(pairs_before(s, i)[k] == row[m]);
                assert(row[m] == (s[i - 1], s[i + m]));
            }
        }
    }
}

/// The pairs of two of the twelve cards, the earlier card first.
pub fn generate_skat_combinations(cards: &[u32]) -> (r: Vec<(u32, u32)>)
    requires
        cards@.len() >= 12,
    ensures
        r@ == skat_pairs(cards@),
{
    let mut combinations: Vec<(u32, u32)> = Vec::new();
    let mut i: usize = 0;
    while i < 11
        invariant
            cards@.len() >= 12,
            i <= 11,
            combinations@ == pairs_before(cards@, i as int),
        decreases 11 - i,
    {
        let mut j: usize = i + 1;
        proof {
            assert(pair_row(cards@, i as int).take(0) =~= Seq::<(u32, u32)>::empty());
            assert(combinations@ =~= pairs_before(cards@, i as int) + pair_row(
                cards@,
                i as int,
            ).take(0));
        }
        while j < 12
            invariant
                cards@.len() >= 12,
                i < 11,
                i + 1 <= j <= 12,
                combinations@ == pairs_before(cards@, i as int) + pair_row(cards@, i as int).take(
                    j - i - 1,
                ),
            decreases 12 - j,
        {
            combinations.push((cards[i], cards[j]));
            proof {
                assert(pair_row(cards@, i as int).take(j - i) =~= pair_row(
                    cards@,
                    i as int,
                ).take(j - i - 1).push((cards@[i as int], cards@[j as int])));
            }
            j = j + 1;
        }
        proof {
            assert(pair_row(cards@, i as int).take(11 - i) =~= pair_row(cards@, i as int));
        }
        i = i + 1;
    }
    combinations
}

/// The value of the game with the current hand of the declarer and a skat worth
/// `skat_value`: the searched value plus the skat; in a null game the lost flag.
fn evaluate_skat_combination(
    engine: &mut SkatEngine,
    skat_value: u8,
    mode: AccelerationMode,
    alpha: u8,
    game: Game,
    cnt: &mut Counters,
) -> (r: u8)
    requires
        old(engine).wf(),
        skat_value <= 60,
    ensures
        final(engine).wf(),
        final(engine).context == old(engine).context,
        r <= 120 + skat_value,
        game != Game::Null && mode == AccelerationMode::WinningOnly && alpha >= 61 ==> r == 0
            && *final(cnt) == *old(cnt) && *final(engine) == *old(engine),
        game != Game::Null && !(mode == AccelerationMode::WinningOnly && alpha >= 61) ==> r
            >= skat_value,
{
    let mut lower: u8 = 0;
    let mut upper: u8 = 120;
    if game != Game::Null {
        match mode {
            AccelerationMode::AlphaBetaAccelerating => {
                if alpha > skat_value {
                    lower = alpha - skat_value;
                }
            },
            AccelerationMode::WinningOnly => {
                if alpha >= 61 {
                    return 0;
                }
                lower = 60 - skat_value;
                upper = lower + 1;
            },
            AccelerationMode::NotAccelerating => {},
        }
    } else {
        lower = 0;
        upper = 1;
    }
    let result = match game {
        Game::Null => solve_double_dummy(engine, 0, 1, 1),
        _ => solve_double_dummy(engine, lower, upper, 1),
    };
    cnt.add(result.counters);
    match game {
        Game::Null => result.best_value,
        _ => result.best_value + skat_value,
    }
}

/// `value` beats `best` as the value of a skat: higher, in a null game lower.
pub open spec fn better_skat(game: Game, value: u8, best: u8) -> bool {
    if game == Game::Null {
        value < best
    } else {
        value > best
    }
}

/// Keeps the skat as the best one when it beats the best so far, or is the first.
fn update_best_skat(
    ret: &mut SolveWithSkatRet,
    skat_card_1: u32,
    skat_card_2: u32,
    game_value: u8,
    game: Game,
    alpha: &mut u8,
)
    ensures
        final(ret).all_skats@ == old(ret).all_skats@,
        final(ret).counters == old(ret).counters,
        (old(ret).best_skat is None || better_skat(game, game_value, *old(alpha))) ==> (
        final(ret).best_skat == Some(
            SolveWithSkatRetLine { skat_card_1, skat_card_2, value: game_value },
        ) && *final(alpha) == game_value),
        !(old(ret).best_skat is None || better_skat(game, game_value, *old(alpha))) ==> (
        final(ret).best_skat == old(ret).best_skat && *final(alpha) == *old(alpha)),
{
    match game {
        Game::Null => {
            if game_value < *alpha || ret.best_skat.is_none() {
                ret.best_skat = Some(
                    SolveWithSkatRetLine { skat_card_1, skat_card_2, value: game_value },
                );
                *alpha = game_value;
            }
        },
        _ => {
            if game_value > *alpha || ret.best_skat.is_none() {
                ret.best_skat = Some(
                    SolveWithSkatRetLine { skat_card_1, skat_card_2, value: game_value },
                );
                *alpha = game_value;
            }
        },
    }
}

/// Two different cards of the twelve make a skat of at most 22 points; without them the
/// twelve cards are a hand of ten that shares no card with the other hands.
proof fn lemma_skat_pair(twelve: u32, a: int, b: int, l: u32, r: u32)
    requires
        0 <= a < b < cards_of(twelve).len(),
        twelve & l == 0,
        twelve & r == 0,
        card_count(twelve) == 12,
    ensures
        is_card(cards_of(twelve)[a]),
        is_card(cards_of(twelve)[b]),
        cards_of(twelve)[a] & cards_of(twelve)[b] == 0,
        card_count(twelve ^ (cards_of(twelve)[a] | cards_of(twelve)[b])) == 10,
        (twelve ^ (cards_of(twelve)[a] | cards_of(twelve)[b])) & l == 0,
        (twelve ^ (cards_of(twelve)[a] | cards_of(twelve)[b])) & r == 0,
        points(cards_of(twelve)[a] | cards_of(twelve)[b]) <= 22,
{
    let s = cards_of(twelve);
    crate::cards::lemma_cards_of_members(twelve);
    crate::cards::lemma_cards_of_descending(twelve);
    let c1 = s[a];
    let c2 = s[b];
    assert(is_card(c1) && subset(c1, twelve));
    assert(is_card(c2) && subset(c2, twelve));
    let ka = crate::cards::lemma_card_index(c1);
    let kb = crate::cards::lemma_card_index(c2);
    assert(c1 > c2);
    crate::cards::lemma_cards_disjoint(ka, kb);
    crate::cards::lemma_has_bit(ka, ka);
    crate::cards::lemma_has_bit(kb, kb);
    crate::cards::lemma_has_ops(c1, twelve, ka);
    crate::cards::lemma_has_ops(c2, twelve, kb);
    crate::cards::lemma_remove_card(twelve, ka);
    let t1 = twelve & !bit(ka);
    assert(has_card(t1, kb)) by {
        crate::cards::lemma_has_ops(twelve, !bit(ka), kb);
        crate::cards::lemma_has_ops(bit(ka), bit(ka), kb);
        crate::cards::lemma_has_bit(ka, kb);
    }
    crate::cards::lemma_remove_card(t1, kb);
    lemma_set_algebra(twelve, c1, c2);
    lemma_set_algebra(c1, c2, 0);
    lemma_set_algebra(t1, c2, 0);
    assert(twelve ^ (c1 | c2) == t1 & !bit(kb));
    lemma_set_algebra(twelve, bit(ka), l);
    lemma_set_algebra(twelve, bit(ka), r);
    lemma_set_algebra(t1, bit(kb), l);
    lemma_set_algebra(t1, bit(kb), r);
    crate::cards::lemma_union(c1, c2);
    crate::cards::lemma_single(ka);
    crate::cards::lemma_single(kb);
    crate::cards::lemma_card_value_bound(ka);
    crate::cards::lemma_card_value_bound(kb);
}

/// The declarer's twelve cards: the ten of the hand and the two nobody holds.
proof fn lemma_twelve(d: u32, l: u32, r: u32)
    requires
        d & l == 0,
        d & r == 0,
        l & r == 0,
        card_count(l) == 10,
        card_count(r) == 10,
    ensures
        card_count(!(d | l | r) | d) == 12,
        (!(d | l | r) | d) & l == 0,
        (!(d | l | r) | d) & r == 0,
{
    let all = d | l | r;
    lemma_set_algebra(all, 0, 0);
    lemma_set_algebra(d, l, r);
    lemma_set_algebra(l, r, 0);
    lemma_set_algebra(d | l, r, 0);
    crate::cards::lemma_union(l, r);
    crate::cards::lemma_union(d, l | r);
    assert(d | (l | r) == all) by {
        lemma_set_algebra(d, l, r);
        crate::cards::lemma_bit_ops(d, l, 0);
        assert forall|k: int| 0 <= k < 32 implies has_card(d | (l | r), k) == has_card(all, k) by {
            crate::cards::lemma_has_ops(d, l | r, k);
            crate::cards::lemma_has_ops(l, r, k);
            crate::cards::lemma_has_ops(d, l, k);
            crate::cards::lemma_has_ops(d | l, r, k);
        }
        crate::cards::lemma_ext(d | (l | r), all);
    }
    crate::cards::lemma_union(all, !all);
    crate::cards::lemma_all_points();
    assert(!all & d == 0) by {
        assert forall|k: int| 0 <= k < 32 implies !has_card(!all & d, k) by {
            crate::cards::lemma_has_ops(!all, d, k);
            crate::cards::lemma_has_ops(all, d, k);
            crate::cards::lemma_has_ops(d, l, k);
            crate::cards::lemma_has_ops(d | l, r, k);
        }
        crate::cards::lemma_has_consts(0);
        assert forall|k: int| 0 <= k < 32 implies has_card(!all & d, k) == has_card(0u32, k) by {
            crate::cards::lemma_has_consts(k);
        }
        crate::cards::lemma_ext(!all & d, 0);
    }
    crate::cards::lemma_union(!all, d);
    assert forall|k: int| 0 <= k < 32 implies has_card((!all | d) & l, k) == has_card(0u32, k)
        && has_card((!all | d) & r, k) == has_card(0u32, k) by {
        crate::cards::lemma_has_consts(k);
        crate::cards::lemma_has_ops(!all | d, l, k);
        crate::cards::lemma_has_ops(!all | d, r, k);
        crate::cards::lemma_has_ops(!all, d, k);
        crate::cards::lemma_has_ops(all, d, k);
        crate::cards::lemma_has_ops(d, l, k);
        crate::cards::lemma_has_ops(d | l, r, k);
        crate::cards::lemma_has_ops(d, r, k);
        crate::cards::lemma_has_ops(l, r, k);
    }
    crate::cards::lemma_ext((!all | d) & l, 0);
    crate::cards::lemma_ext((!all | d) & r, 0);
}

/// What the skat search reports: the skats tried, in the order of the pairs of the twelve
/// cards, and a best one among them that no other skat beats.
pub open spec fn skat_search_ok(
    r: SolveWithSkatRet,
    declarer_cards: u32,
    left_cards: u32,
    right_cards: u32,
    game: Game,
) -> bool {
    let twelve = !(declarer_cards | left_cards | right_cards) | declarer_cards;
    let pairs = skat_pairs(cards_of(twelve));
    &&& 0 < r.all_skats@.len() <= pairs.len()
    &&& forall|k: int|
        0 <= k < r.all_skats@.len() ==> (#[trigger] r.all_skats@[k]).skat_card_1 == pairs[k].0
            && r.all_skats@[k].skat_card_2 == pairs[k].1
    &&& r.best_skat matches Some(b) && r.all_skats@.contains(b) && forall|k: int|
        0 <= k < r.all_skats@.len() ==> !better_skat(game, #[trigger] r.all_skats@[k].value, b.value)
    &&& r.best_skat matches Some(b) && forall|k: int|
        0 <= k < r.all_skats@.len() ==> if game == Game::Null {
            b.value <= #[trigger] r.all_skats@[k].value
        } else {
            r.all_skats@[k].value <= b.value
        }
}

/// The best skat for the declarer holding `declarer_cards` and the two cards nobody holds:
/// each pair of these twelve cards is put away in turn and the game searched. The best skat
/// has the highest value, in a null game the lowest; a null game that is won ends the trial
/// early unless no acceleration is asked for.
pub fn solve_with_skat(
    left_cards: u32,
    right_cards: u32,
    declarer_cards: u32,
    game: Game,
    start_player: Player,
    accelerating_mode: AccelerationMode,
) -> (r: SolveWithSkatRet)
    requires
        declarer_cards & left_cards == 0,
        declarer_cards & right_cards == 0,
        left_cards & right_cards == 0,
        card_count(declarer_cards) <= 10,
        card_count(left_cards) == 10,
        card_count(right_cards) == 10,
    ensures
        skat_search_ok(r, declarer_cards, left_cards, right_cards, game),
{
    let mut ret = SolveWithSkatRet {
        best_skat: None,
        all_skats: Vec::new(),
        counters: Counters::new(),
    };
    let p = GameContext::create(declarer_cards, left_cards, right_cards, game, start_player);
    let mut engine = SkatEngine::new(p, None);
    let initial_position = engine.create_initial_position();
    proof {
        lemma_set_algebra(declarer_cards, 0, 0);
        lemma_set_algebra(left_cards, 0, 0);
        lemma_set_algebra(right_cards, 0, 0);
        lemma_twelve(declarer_cards, left_cards, right_cards);
    }
    let skatcards_bitmask = !get_all_unplayed_cards(
        initial_position.declarer_cards,
        initial_position.left_cards,
        initial_position.right_cards,
    );
    let twelve_cards_bitmask = skatcards_bitmask | initial_position.declarer_cards;
    let ghost twelve = twelve_cards_bitmask;
    let ghost s = cards_of(twelve);
    proof {
        crate::cards::lemma_high_cards_len(twelve, 0);
    }
    let twelve_cards = twelve_cards_bitmask.__decompose_twelve();
    proof {
        assert(twelve_cards@ =~= s);
    }

    let mut alpha: u8 = 0;
    if game == Game::Null {
        alpha = 1;
    }

    let skat_combinations = generate_skat_combinations(&twelve_cards);
    proof {
        lemma_pairs_before(s, 11);
    }
    let n = skat_combinations.len();
    let mut i: usize = 0;
    while i < n
        invariant
            n == skat_combinations@.len(),
            skat_combinations@ == skat_pairs(s),
            s == cards_of(twelve),
            s.len() == 12,
            card_count(twelve) == 12,
            twelve & left_cards == 0,
            twelve & right_cards == 0,
            left_cards & right_cards == 0,
            card_count(left_cards) == 10,
            card_count(right_cards) == 10,
            twelve == !(declarer_cards | left_cards | right_cards) | declarer_cards,
            twelve_cards_bitmask == twelve,
            engine.wf(),
            engine.context.left_cards == left_cards,
            engine.context.right_cards == right_cards,
            engine.context.game_type == game,
            i <= n,
            n > 0,
            ret.all_skats@.len() == i,
            forall|k: int|
                0 <= k < i ==> (#[trigger] ret.all_skats@[k]).skat_card_1
                    == skat_combinations@[k].0 && ret.all_skats@[k].skat_card_2
                    == skat_combinations@[k].1,
            i == 0 ==> ret.best_skat is None,
            i > 0 ==> (ret.best_skat matches Some(b) && ret.all_skats@.contains(b) && b.value
                == alpha && forall|k: int|
                0 <= k < i ==> !better_skat(game, #[trigger] ret.all_skats@[k].value, b.value)),
        ensures
            i > 0,
        decreases n - i,
    {
        let (skat_card_1, skat_card_2) = skat_combinations[i];
        let skat_bitmask = skat_card_1 | skat_card_2;
        let player_hand_bitmask = twelve_cards_bitmask ^ skat_bitmask;
        proof {
            lemma_pairs_before(s, 11);
            assert(skat_combinations@[i as int] == pairs_before(s, 11)[i as int]);
            let (a, b) = choose|a: int, b: int|
                0 <= a < b < 12 && pairs_before(s, 11)[i as int] == (s[a], s[b]);
            lemma_skat_pair(twelve, a, b, left_cards, right_cards);
            assert(skat_card_1 == s[a] && skat_card_2 == s[b]);
            assert(player_hand_bitmask & left_cards == 0);
            assert(player_hand_bitmask & right_cards == 0);
            assert(card_count(player_hand_bitmask) == 10);
            assert(points(skat_bitmask) <= 22);
        }
        let skat_value = skat_bitmask.__get_value();
        engine.context.set_declarer_cards(player_hand_bitmask);
        let game_value = evaluate_skat_combination(
            &mut engine,
            skat_value,
            accelerating_mode,
            alpha,
            game,
            &mut ret.counters,
        );
        let line = SolveWithSkatRetLine { skat_card_1, skat_card_2, value: game_value };
        let ghost old_best = ret.best_skat;
        let ghost old_all = ret.all_skats@;
        ret.all_skats.push(line);
        update_best_skat(&mut ret, skat_card_1, skat_card_2, game_value, game, &mut alpha);
        proof {
            assert(ret.all_skats@[i as int] == line);
            assert forall|k: int| 0 <= k < i implies ret.all_skats@[k] == old_all[k] by {}
            let b = ret.best_skat.unwrap();
            if b == line {
                assert(ret.all_skats@.contains(b)) by {
                    assert(ret.all_skats@[i as int] == b);
                }
            } else {
                let ob = old_best.unwrap();
                assert(old_all.contains(ob));
                let j = choose|j: int| 0 <= j < old_all.len() && old_all[j] == ob;
                assert(ret.all_skats@[j] == ob);
            }
        }
        i = i + 1;
        if (accelerating_mode == AccelerationMode::AlphaBetaAccelerating || accelerating_mode
            == AccelerationMode::WinningOnly) && game == Game::Null && game_value == 0 {
            break;
        }
    }
    ret
}

} // verus!
