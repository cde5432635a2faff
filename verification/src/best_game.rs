//! Choosing the game to announce for a hand of ten cards: over random deals of the other cards,
//! how often each game is won with perfect play after taking up the skat.
use vstd::prelude::*;
use crate::analysis::cards_for_suit;
use crate::builder::{sample_indices, thread_rng};
use crate::cards::{bit, card_count, count_cards, has_card, is_card};
use crate::consts::ALLCARDS;
use crate::context::{GameContext, ProblemTransformation};
use crate::convert::BitConverter;
use crate::defs::{Game, Player};
use crate::pimc_search::sort_by_sum;
use crate::skat_solving::{skat_search_ok, solve_with_skat, AccelerationMode, SolveWithSkatRet};

verus! {

/// One deal of the best-game search: the skat, the left and the right hand, and the
/// declarer's best value in each game (clubs, spades, hearts, diamonds, grand, null).
pub struct BestGameSample {
    pub skat: u32,
    pub left: u32,
    pub right: u32,
    pub scores: [u8; 6],
}

/// Why the best-game search did not run.
#[derive(Debug, Clone, Copy, PartialEq, Eq, Structural)]
pub enum BestGameError {
    /// The hand does not hold ten cards; the number it holds.
    WrongCardCount(u32),
}

/// The deals of the search, and each game (by its index in the order clubs, spades, hearts,
/// diamonds, grand, null) with the number of deals it wins, most wins first.
pub struct BestGameRun {
    pub samples: Vec<BestGameSample>,
    pub results: Vec<(u32, u64, u32)>,
}

/// Whether game `v` is won with the best value `score`: more than 60 points, or no trick in
/// the null game.
pub open spec fn game_won(v: int, score: u8) -> bool {
    if v == 5 {
        score == 0
    } else {
        score > 60
    }
}

/// The number of deals in which game `v` is won.
pub open spec fn game_wins(samples: Seq<BestGameSample>, v: int) -> nat
    decreases samples.len(),
{
    if samples.len() == 0 {
        0
    } else {
        game_wins(samples.drop_last(), v) + if game_won(v, samples.last().scores@[v]) {
            1nat
        } else {
            0nat
        }
    }
}

/// The game of index `v` and the trump suit exchanged to clubs: 0 to 3 the suit games of
/// clubs, spades, hearts and diamonds, 4 grand, 5 null.
pub open spec fn game_of_spec(v: int) -> (Game, u8) {
    if v < 4 {
        (Game::Suit, v as u8)
    } else if v == 4 {
        (Game::Grand, 0u8)
    } else {
        (Game::Null, 0u8)
    }
}

/// The game of each index: the suit games through an exchange of suits that makes clubs
/// trump.
fn game_of(v: usize) -> (r: (Game, u8))
    requires
        v < 6,
    ensures
        r == game_of_spec(v as int),
{
    if v < 4 {
        (Game::Suit, v as u8)
    } else if v == 4 {
        (Game::Grand, 0)
    } else {
        (Game::Null, 0)
    }
}

/// The switch of a suit game of trump `suit` to clubs.
fn switch_cards(cards: u32, suit: u8) -> (r: u32)
    ensures
        r == cards_for_suit(cards, suit),
{
    if suit == 1 {
        GameContext::get_switched_cards(cards, ProblemTransformation::SpadesSwitch)
    } else if suit == 2 {
        GameContext::get_switched_cards(cards, ProblemTransformation::HeartsSwitch)
    } else if suit == 3 {
        GameContext::get_switched_cards(cards, ProblemTransformation::DiamondsSwitch)
    } else {
        cards
    }
}

/// The deal that `game_score` can search: with the suits exchanged for trump `suit`, the three
/// hands do not overlap, the declarer has at most ten cards and each other player ten.
pub open spec fn score_deal_ok(declarer: u32, left: u32, right: u32, suit: u8) -> bool {
    let d = cards_for_suit(declarer, suit);
    let l = cards_for_suit(left, suit);
    let r = cards_for_suit(right, suit);
    &&& d & l == 0
    &&& d & r == 0
    &&& l & r == 0
    &&& card_count(d) <= 10
    &&& card_count(l) == 10
    &&& card_count(r) == 10
}

/// `s` is the best skat's value that the skat search `ret` reports for game `v` of the deal:
/// the games 0 to 3 are suit games with clubs, spades, hearts and diamonds as trump (searched
/// with the trump suit exchanged for clubs), 4 is grand and 5 is null.
pub open spec fn scored_by_search(
    ret: SolveWithSkatRet,
    declarer: u32,
    left: u32,
    right: u32,
    v: int,
    s: u8,
) -> bool {
    let suit: u8 = if 0 <= v < 4 {
        v as u8
    } else {
        0
    };
    let game = if v == 4 {
        Game::Grand
    } else if v == 5 {
        Game::Null
    } else {
        Game::Suit
    };
    &&& skat_search_ok(
        ret,
        cards_for_suit(declarer, suit),
        cards_for_suit(left, suit),
        cards_for_suit(right, suit),
        game,
    )
    &&& ret.best_skat matches Some(b) && b.value == s
}

/// Some skat search of game `v` of the deal reports `s` as its best skat's value.
pub open spec fn found_by_search(declarer: u32, left: u32, right: u32, v: int, s: u8) -> bool {
    exists|ret: SolveWithSkatRet| #[trigger] scored_by_search(ret, declarer, left, right, v, s)
}

/// The declarer's best value in game `v` with the hand `declarer` and the skat (the cards
/// no hand holds) against `left` and `right`, the skat chosen by the search; none when the
/// hands cannot be played.
fn game_score(declarer: u32, left: u32, right: u32, v: usize, start_player: Player) -> (r: Option<u8>)
    requires
        v < 6,
    ensures
        r is Some <==> score_deal_ok(declarer, left, right, game_of_spec(v as int).1),
        r matches Some(s) ==> found_by_search(declarer, left, right, v as int, s),
{
    let (game, suit) = game_of(v);
    let d = switch_cards(declarer, suit);
    let l = switch_cards(left, suit);
    let r = switch_cards(right, suit);
    if d & l != 0 || d & r != 0 || l & r != 0 || count_cards(d) > 10 || count_cards(l) != 10
        || count_cards(r) != 10 {
        return None;
    }
    let ret = solve_with_skat(l, r, d, game, start_player, AccelerationMode::WinningOnly);
    match ret.best_skat {
        Some(best) => {
            proof {
                assert(scored_by_search(ret, declarer, left, right, v as int, best.value));
                assert(found_by_search(declarer, left, right, v as int, best.value));
            }
            Some(best.value)
        },
        None => Some(0),
    }
}

/// The cards at positions `from` to `to` of `order` in `cards`, joined.
fn join_positions(cards: &Vec<u32>, order: &Vec<usize>, from: usize, to: usize) -> (r: u32)
    requires
        from <= to <= order@.len(),
        forall|i: int| 0 <= i < order@.len() ==> (#[trigger] order@[i]) < cards@.len(),
    ensures
        r == crate::analysis::joined_at(cards@, order@, from as int, to as int),
{
    let mut acc: u32 = 0;
    let mut i: usize = from;
    while i < to
        invariant
            from <= i <= to,
            to <= order@.len(),
            forall|q: int| 0 <= q < order@.len() ==> (#[trigger] order@[q]) < cards@.len(),
            acc == crate::analysis::joined_at(cards@, order@, from as int, i as int),
        decreases to - i,
    {
        acc = acc | cards[order[i]];
        i = i + 1;
    }
    acc
}

/// Ten of the remaining cards each to the left and right hand, from distinct positions of a
/// list of distinct cards none of which is in `my_cards`: the three hands do not overlap and
/// each holds ten cards.
proof fn lemma_deal_of_rest(rest: Seq<u32>, order: Seq<usize>, my_cards: u32)
    requires
        rest.len() == 22,
        forall|q: int| 0 <= q < 22 ==> is_card(#[trigger] rest[q]) && rest[q] & my_cards == 0,
        forall|a: int, b: int| 0 <= a < b < 22 ==> (#[trigger] rest[a]) < (#[trigger] rest[b]),
        order.len() == 22,
        forall|q: int| 0 <= q < 22 ==> #[trigger] order[q] < 22,
        forall|a: int, b: int| 0 <= a < b < 22 ==> #[trigger] order[a] != #[trigger] order[b],
    ensures
        ({
            let left = crate::analysis::joined_at(rest, order, 2, 12);
            let right = crate::analysis::joined_at(rest, order, 12, 22);
            &&& my_cards & left == 0
            &&& my_cards & right == 0
            &&& left & right == 0
            &&& card_count(left) == 10
            &&& card_count(right) == 10
        }),
{
    assert forall|q: int| 0 <= q < 22 implies is_card(#[trigger] rest[order[q] as int]) by {}
    assert forall|a: int, b: int| 0 <= a < b < 22 implies #[trigger] rest[order[a] as int]
        != #[trigger] rest[order[b] as int] by {
        if order[a] < order[b] {
            assert(rest[order[a] as int] < rest[order[b] as int]);
        } else {
            assert(rest[order[b] as int] < rest[order[a] as int]);
        }
    }
    crate::analysis::lemma_joined_count(rest, order, 2, 12);
    crate::analysis::lemma_joined_count(rest, order, 12, 22);
    crate::analysis::lemma_joined_disjoint(rest, order, 2, 12, rest, order, 12, 22);
    lemma_joined_avoids(rest, order, 2, 12, my_cards);
    lemma_joined_avoids(rest, order, 12, 22, my_cards);
}

/// Joining entries that avoid `x` gives a set that avoids `x`.
proof fn lemma_joined_avoids(cards: Seq<u32>, order: Seq<usize>, a: int, b: int, x: u32)
    requires
        forall|j: int| a <= j < b ==> #[trigger] cards[order[j] as int] & x == 0,
    ensures
        x & crate::analysis::joined_at(cards, order, a, b) == 0,
    decreases b - a,
{
    if b > a {
        lemma_joined_avoids(cards, order, a, b - 1, x);
        let y = crate::analysis::joined_at(cards, order, a, b - 1);
        let c = cards[order[b - 1] as int];
        assert(x & y == 0 && c & x == 0 ==> x & (y | c) == 0) by (bit_vector);
    } else {
        assert(x & 0u32 == 0) by (bit_vector);
    }
}

/// For the hand named in `my_cards_str`, deals the other cards `samples` times at random to the
/// skat and the two other hands and finds for each game the declarer's best value with
/// perfect play after taking up the skat (the leading player `start_player`). The games come
/// sorted by the deals they win.
pub fn calculate_best_game(my_cards_str: &str, start_player: Player, samples: u32) -> (r: Result<
    BestGameRun,
    BestGameError,
>)
    ensures
        r matches Err(BestGameError::WrongCardCount(n)) ==> n == card_count(
            crate::convert::text_cards(my_cards_str.text_bytes()),
        ) && n != 10,
        r is Ok <==> card_count(crate::convert::text_cards(my_cards_str.text_bytes())) == 10,
        r matches Ok(run) ==> card_count(crate::convert::text_cards(my_cards_str.text_bytes()))
            == 10 && run.samples@.len() == samples && run.results@.len() == 6 && (forall|a: int, b: int|
            0 <= a < b < 6 ==> (#[trigger] run.results@[a]).1 >= (#[trigger] run.results@[b]).1)
            && (forall|v: int|
            0 <= v < 6 ==> #[trigger] run.results@.contains((v as u32, game_wins(run.samples@, v) as u64, 0u32))),
        r matches Ok(run) ==> forall|j: int, v: int|
            0 <= j < run.samples@.len() && 0 <= v < 6 ==> #[trigger] found_by_search(
                crate::convert::text_cards(my_cards_str.text_bytes()),
                run.samples@[j].left,
                run.samples@[j].right,
                v,
                #[trigger] run.samples@[j].scores@[v],
            ),
{
    let my_cards = my_cards_str.__bit();
    let n = count_cards(my_cards);
    if n != 10 {
        return Err(BestGameError::WrongCardCount(n));
    }
    let remaining = ALLCARDS ^ my_cards;
    proof {
        assert(my_cards & (0xffff_ffffu32 ^ my_cards) == 0 && my_cards | (0xffff_ffffu32 ^ my_cards)
            == 0xffff_ffffu32) by (bit_vector);
        crate::cards::lemma_union(my_cards, remaining);
        crate::cards::lemma_all_points();
    }
    let mut remaining_vec: Vec<u32> = Vec::new();
    let mut k: u32 = 0;
    while k < 32
        invariant
            k <= 32,
            remaining == ALLCARDS ^ my_cards,
            remaining_vec@.len() + crate::cards::count_from(remaining, k as int) == card_count(
                remaining,
            ),
            forall|q: int|
                0 <= q < remaining_vec@.len() ==> is_card(#[trigger] remaining_vec@[q])
                    && remaining_vec@[q] & my_cards == 0,
            forall|a: int, b: int|
                0 <= a < b < remaining_vec@.len() ==> (#[trigger] remaining_vec@[a]) < (
                #[trigger] remaining_vec@[b]),
            k < 32 ==> forall|q: int|
                0 <= q < remaining_vec@.len() ==> (#[trigger] remaining_vec@[q]) < (1u32 << k),
        decreases 32 - k,
    {
        let c = 1u32 << k;
        if remaining & c != 0 {
            proof {
                assert(has_card(remaining, k as int));
                assert(c == bit(k as int));
                assert(remaining == 0xffff_ffffu32 ^ my_cards);
                assert((0xffff_ffffu32 ^ my_cards) & (1u32 << k) != 0 ==> (1u32 << k) & my_cards
                    == 0) by (bit_vector)
                    requires
                        k < 32,
                ;
                crate::cards::lemma_bit_facts(0, k, 0);
            }
            remaining_vec.push(c);
        }
        proof {
            if k + 1 < 32 {
                crate::cards::lemma_bit_facts(0, (k + 1) as u32, k);
            }
        }
        k = k + 1;
    }
    proof {
        assert(remaining_vec@.len() == 22);
    }
    let mut rng = thread_rng();
    let mut runs: Vec<BestGameSample> = Vec::new();
    let mut wins: [u64; 6] = [0, 0, 0, 0, 0, 0];
    let mut i: u32 = 0;
    while i < samples
        invariant
            i <= samples,
            remaining_vec@.len() == 22,
            card_count(my_cards) == 10,
            forall|q: int|
                0 <= q < remaining_vec@.len() ==> is_card(#[trigger] remaining_vec@[q])
                    && remaining_vec@[q] & my_cards == 0,
            forall|a: int, b: int|
                0 <= a < b < remaining_vec@.len() ==> (#[trigger] remaining_vec@[a]) < (
                #[trigger] remaining_vec@[b]),
            runs@.len() == i,
            forall|v: int| 0 <= v < 6 ==> wins@[v] == game_wins(runs@, v),
            forall|v: int| 0 <= v < 6 ==> wins@[v] <= i,
            my_cards == crate::convert::text_cards(my_cards_str.text_bytes()),
            forall|j: int, q: int|
                0 <= j < runs@.len() && 0 <= q < 6 ==> #[trigger] found_by_search(
                    my_cards,
                    runs@[j].left,
                    runs@[j].right,
                    q,
                    #[trigger] runs@[j].scores@[q],
                ),
        decreases samples - i,
    {
        let order = sample_indices(&mut rng, 22, 22);
        let skat = join_positions(&remaining_vec, &order, 0, 2);
        let left = join_positions(&remaining_vec, &order, 2, 12);
        let right = join_positions(&remaining_vec, &order, 12, 22);
        proof {
            lemma_deal_of_rest(remaining_vec@, order@, my_cards);
        }
        let mut scores: [u8; 6] = [0, 0, 0, 0, 0, 0];
        let mut v: usize = 0;
        while v < 6
            invariant
                v <= 6,
                my_cards & left == 0,
                my_cards & right == 0,
                left & right == 0,
                card_count(my_cards) == 10,
                card_count(left) == 10,
                card_count(right) == 10,
                forall|q: int| 0 <= q < v ==> #[trigger] found_by_search(
                    my_cards,
                    left,
                    right,
                    q,
                    scores@[q],
                ),
            decreases 6 - v,
        {
            proof {
                let suit = game_of_spec(v as int).1;
                crate::analysis::lemma_suit_disjoint(my_cards, left, suit);
                crate::analysis::lemma_suit_disjoint(my_cards, right, suit);
                crate::analysis::lemma_suit_disjoint(left, right, suit);
                crate::analysis::lemma_suit_count(my_cards, suit);
                crate::analysis::lemma_suit_count(left, suit);
                crate::analysis::lemma_suit_count(right, suit);
            }
            let score = match game_score(my_cards, left, right, v, start_player) {
                Some(s) => s,
                None => 0,
            };
            scores[v] = score;
            proof {
                assert forall|q: int| 0 <= q < v + 1 implies #[trigger] found_by_search(
                    my_cards,
                    left,
                    right,
                    q,
                    scores@[q],
                ) by {}
            }
            v = v + 1;
        }
        let ghost before = runs@;
        runs.push(BestGameSample { skat, left, right, scores });
        proof {
            assert(runs@.drop_last() =~= before);
            assert forall|j: int, q: int|
                0 <= j < runs@.len() && 0 <= q < 6 implies #[trigger] found_by_search(
                my_cards,
                runs@[j].left,
                runs@[j].right,
                q,
                #[trigger] runs@[j].scores@[q],
            ) by {
                if j < before.len() {
                    assert(runs@[j] == before[j]);
                }
            }
        }
        let mut u: usize = 0;
        while u < 6
            invariant
                u <= 6,
                i < samples,
                runs@.len() == i + 1,
                runs@.last().scores == scores,
                runs@.drop_last() == before,
                forall|q: int| 0 <= q < 6 ==> game_wins(before, q) <= i,
                forall|q: int| 0 <= q < u ==> wins@[q] == game_wins(runs@, q),
                forall|q: int| u <= q < 6 ==> wins@[q] == game_wins(before, q),
                forall|q: int| 0 <= q < 6 ==> wins@[q] <= i + 1,
                my_cards == crate::convert::text_cards(my_cards_str.text_bytes()),
                forall|j: int, q: int|
                    0 <= j < runs@.len() && 0 <= q < 6 ==> #[trigger] found_by_search(
                        my_cards,
                        runs@[j].left,
                        runs@[j].right,
                        q,
                        #[trigger] runs@[j].scores@[q],
                    ),
            decreases 6 - u,
        {
            let won = if u == 5 {
                scores[u] == 0
            } else {
                scores[u] > 60
            };
            proof {
                assert(game_wins(runs@, u as int) == game_wins(before, u as int) + if game_won(
                    u as int,
                    scores@[u as int],
                ) {
                    1nat
                } else {
                    0nat
                });
            }
            if won {
                wins[u] = wins[u] + 1;
            }
            u = u + 1;
        }
        i = i + 1;
    }
    let mut lines: Vec<(u32, u64, u32)> = Vec::new();
    let mut v: usize = 0;
    while v < 6
        invariant
            v <= 6,
            lines@.len() == v,
            forall|q: int| 0 <= q < v ==> #[trigger] lines@[q] == (q as u32, wins@[q], 0u32),
        decreases 6 - v,
    {
        lines.push((v as u32, wins[v], 0));
        v = v + 1;
    }
    let results = sort_by_sum(&lines);
    proof {
        assert forall|q: int| 0 <= q < 6 implies #[trigger] results@.contains(
            (q as u32, game_wins(runs@, q) as u64, 0u32),
        ) by {
            let x = lines@[q];
            assert(lines@.contains(x));
            vstd::seq_lib::to_multiset_contains(lines@, x);
            vstd::seq_lib::to_multiset_contains(results@, x);
        }
    }
    Ok(BestGameRun { samples: runs, results })
}

} // verus!
