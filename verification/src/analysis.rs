//! Judging a hand before the game: the Monte Carlo win estimate of a declarer's hand for a
//! game type, the best two cards to lay away after taking up the skat, and the exact wins of a
//! random hand over random deals of the other cards.
use vstd::prelude::*;
use rayon::iter::{IntoParallelIterator, ParallelIterator};
use crate::builder::{sample_indices, thread_rng};
use crate::cards::{bit, has_card, is_card, subset};
use crate::consts::ALLCARDS;
use crate::context::{GameContext, ProblemTransformation};
use crate::defs::{Game, Player};
use crate::engine::SkatEngine;
use crate::pimc_problem::PimcProblem;
use crate::pimc_problem_builder::{default_pimc_builder, PimcProblemBuilder};
use crate::pimc_search::{deal_playable, PimcSearch};
use crate::signature::{signature_spec, HandSignature};
use crate::solver::solve_and_add_skat;

verus! {

/// The builder that `declarer_problem` fills in.
pub open spec fn declarer_builder(game: Game, keep: u32, discard: Option<u32>, remaining: u32) -> PimcProblemBuilder {
    let b0 = match game {
        Game::Grand => PimcProblemBuilder { game_type: Game::Grand, ..default_pimc_builder() },
        Game::Suit => PimcProblemBuilder { game_type: Game::Suit, ..default_pimc_builder() },
        Game::Null => PimcProblemBuilder {
            game_type: Game::Null,
            threshold: Some(1u8),
            ..default_pimc_builder()
        },
    };
    let b1 = PimcProblemBuilder {
        my_player: Some(Player::Declarer),
        next_player: Some(Player::Declarer),
        my_cards: Some(keep),
        ..b0
    };
    let b2 = match discard {
        Some(d) => PimcProblemBuilder {
            skat_cards: Some(d),
            all_cards: Some(
                (match b1.all_cards {
                    Some(a) => a,
                    None => 0u32,
                }) | d,
            ),
            ..b1
        },
        None => b1,
    };
    let b3 = PimcProblemBuilder {
        all_cards: Some(remaining | keep | b2.table_spec()),
        ..b2
    };
    if game == Game::Null {
        b3
    } else {
        PimcProblemBuilder { threshold: Some(61u8), ..b3 }
    }
}

/// The declarer's problem can be built and dealt.
pub open spec fn declarer_ok(game: Game, keep: u32, discard: Option<u32>, remaining: u32) -> bool {
    let b = declarer_builder(game, keep, discard, remaining);
    b.complete() && crate::pimc_problem::concrete_feasible(b.build_spec())
}

/// The problem of the declarer, who leads, holding `keep` (having laid away `discard`, when
/// given) with the cards `remaining` unseen, in a game of type `game`: threshold 61 in a suit
/// game or grand, 1 in a null game. There is none when no game can be dealt for it.
pub fn declarer_problem(game: Game, keep: u32, discard: Option<u32>, remaining: u32) -> (r: Option<
    PimcProblem,
>)
    ensures
        r == if declarer_ok(game, keep, discard, remaining) {
            Some(declarer_builder(game, keep, discard, remaining).build_spec())
        } else {
            None
        },
        r matches Some(p) ==> crate::pimc_problem::concrete_feasible(p) && p.my_player
            == Player::Declarer && p.my_cards == keep && p.game_type == game && p.skat_cards
            == discard,
{
    let b0 = match game {
        Game::Grand => PimcProblemBuilder::new_grand(),
        Game::Suit => PimcProblemBuilder::new_farbspiel(),
        Game::Null => PimcProblemBuilder::new_null(),
    };
    let b1 = b0.my_player(Player::Declarer).turn(Player::Declarer).my_cards_val(keep);
    let b2 = match discard {
        Some(d) => b1.skat_cards_val(d),
        None => b1,
    };
    let b3 = b2.remaining_cards_val(remaining);
    let builder = if game == Game::Null {
        b3
    } else {
        b3.threshold(61)
    };
    if !builder.is_complete() {
        return None;
    }
    let problem = builder.build();
    if !problem.can_deal() {
        return None;
    }
    Some(problem)
}

/// The number of `samples` samples in which the declarer of `declarer_problem` wins.
pub fn estimate_declarer_wins(
    game: Game,
    keep: u32,
    discard: Option<u32>,
    remaining: u32,
    samples: u32,
) -> (r: Option<u32>)
    ensures
        r is Some <==> declarer_ok(game, keep, discard, remaining),
        r matches Some(w) ==> w <= samples,
{
    let problem = match declarer_problem(game, keep, discard, remaining) {
        Some(p) => p,
        None => {
            return None;
        },
    };
    let search = PimcSearch::new(problem, samples, None);
    let (wins, _) = search.estimate_win();
    Some(wins)
}

/// The win estimate of a grand played from hand with `my_hand`: the signature of the hand and
/// the number of `samples` samples the declarer wins.
pub fn analyze_hand(my_hand: u32, samples: u32) -> (r: Option<(HandSignature, u32)>)
    ensures
        r is Some <==> declarer_ok(Game::Grand, my_hand, None, ALLCARDS ^ my_hand),
        r matches Some((sig, w)) ==> sig == signature_spec(my_hand, 0, None) && w <= samples,
{
    let sig = HandSignature::from_hand(my_hand);
    let remaining = ALLCARDS ^ my_hand;
    match estimate_declarer_wins(Game::Grand, my_hand, None, remaining, samples) {
        Some(w) => Some((sig, w)),
        None => None,
    }
}

/// The cards of `cards` below bit index `k`, lowest first.
pub open spec fn low_cards(cards: u32, k: int) -> Seq<u32>
    decreases k,
{
    if k <= 0 {
        seq![]
    } else if has_card(cards, k - 1) {
        low_cards(cards, k - 1).push(bit(k - 1))
    } else {
        low_cards(cards, k - 1)
    }
}

/// The options that pair the card at `i` of `bits` with each card after it before `j`: the
/// cards kept and the two laid away.
pub open spec fn pairs_from(cards: u32, bits: Seq<u32>, i: int, j: int) -> Seq<(u32, u32)>
    decreases j - i,
{
    if j <= i + 1 {
        seq![]
    } else {
        pairs_from(cards, bits, i, j - 1).push(
            (cards ^ (bits[i] | bits[j - 1]), bits[i] | bits[j - 1]),
        )
    }
}

/// The options whose lower card is among the first `i` of `bits`.
pub open spec fn pairs_below(cards: u32, bits: Seq<u32>, i: int) -> Seq<(u32, u32)>
    decreases i,
{
    if i <= 0 {
        seq![]
    } else {
        pairs_below(cards, bits, i - 1) + pairs_from(cards, bits, i - 1, bits.len() as int)
    }
}

/// Every way to lay away two of `cards`, by the lower card and then the higher, lowest first.
pub open spec fn discard_list(cards: u32) -> Seq<(u32, u32)> {
    let b = low_cards(cards, 32);
    pairs_below(cards, b, b.len() as int)
}

/// The ways to lay away two of `cards`: each pair of cards, lower card first, with the cards
/// kept.
pub fn discard_options(cards: u32) -> (r: Vec<(u32, u32)>)
    ensures
        r@ == discard_list(cards),
        forall|i: int|
            0 <= i < r@.len() ==> two_cards_of((#[trigger] r@[i]).1, cards)
                && r@[i].0 == cards ^ r@[i].1,
{
    let mut bits: Vec<u32> = Vec::new();
    let mut k: u32 = 0;
    while k < 32
        invariant
            k <= 32,
            bits@.len() <= k,
            forall|q: int| 0 <= q < bits@.len() ==> is_card(#[trigger] bits@[q]) && subset(bits@[q], cards),
            forall|a: int, b: int| 0 <= a < b < bits@.len() ==> (#[trigger] bits@[a]) < (#[trigger] bits@[b]),
            k < 32 ==> forall|q: int| 0 <= q < bits@.len() ==> (#[trigger] bits@[q]) < (1u32 << k),
            bits@ == low_cards(cards, k as int),
        decreases 32 - k,
    {
        let c = 1u32 << k;
        if (cards & c) != 0 {
            proof {
                assert(crate::cards::has_card(cards, k as int));
                crate::cards::lemma_card_subset(cards, k as int);
                crate::cards::lemma_bit_facts(0, k, 0);
            }
            bits.push(c);
        }
        proof {
            if k + 1 < 32 {
                crate::cards::lemma_bit_facts(0, (k + 1) as u32, k);
            }
        }
        k = k + 1;
    }
    let mut out: Vec<(u32, u32)> = Vec::new();
    let mut i: usize = 0;
    proof {
        assert(out@ =~= pairs_below(cards, bits@, 0));
    }
    while i < bits.len()
        invariant
            i <= bits@.len(),
            forall|q: int| 0 <= q < bits@.len() ==> is_card(#[trigger] bits@[q]) && subset(bits@[q], cards),
            forall|a: int, b: int| 0 <= a < b < bits@.len() ==> (#[trigger] bits@[a]) < (#[trigger] bits@[b]),
            forall|q: int|
                0 <= q < out@.len() ==> two_cards_of((#[trigger] out@[q]).1, cards)
                    && out@[q].0 == cards ^ out@[q].1,
            out@ == pairs_below(cards, bits@, i as int),
        decreases bits@.len() - i,
    {
        let mut j: usize = i + 1;
        proof {
            assert(out@ =~= pairs_below(cards, bits@, i as int) + pairs_from(
                cards,
                bits@,
                i as int,
                j as int,
            ));
        }
        while j < bits.len()
            invariant
                i < j <= bits@.len(),
                i < bits@.len(),
                forall|q: int| 0 <= q < bits@.len() ==> is_card(#[trigger] bits@[q]) && subset(bits@[q], cards),
                forall|a: int, b: int| 0 <= a < b < bits@.len() ==> (#[trigger] bits@[a]) < (#[trigger] bits@[b]),
                forall|q: int|
                    0 <= q < out@.len() ==> two_cards_of((#[trigger] out@[q]).1, cards)
                        && out@[q].0 == cards ^ out@[q].1,
                out@ == pairs_below(cards, bits@, i as int) + pairs_from(
                    cards,
                    bits@,
                    i as int,
                    j as int,
                ),
            decreases bits@.len() - j,
        {
            let a = bits[i];
            let b = bits[j];
            proof {
                assert(a < b);
                assert(two_cards_of(a | b, cards));
            }
            out.push((cards ^ (a | b), a | b));
            proof {
                assert(out@ =~= pairs_below(cards, bits@, i as int) + pairs_from(
                    cards,
                    bits@,
                    i as int,
                    j + 1,
                ));
            }
            j = j + 1;
        }
        proof {
            assert(pairs_below(cards, bits@, i + 1) == pairs_below(cards, bits@, i as int)
                + pairs_from(cards, bits@, i as int, bits@.len() as int));
        }
        i = i + 1;
    }
    out
}

/// `d` is two different cards of `cards`.
pub open spec fn two_cards_of(d: u32, cards: u32) -> bool {
    exists|a: u32, b: u32|
        is_card(a) && is_card(b) && a != b && subset(a, cards) && subset(b, cards) && d == a | b
}

/// Estimates each way to lay away cards in parallel: `rayon`'s `into_par_iter`, `map` and
/// `collect`, which keep one result per option in its place. The contract claims that, and
/// that each result is one `estimate_declarer_wins` can give: at most `samples` wins, and an
/// estimate exactly when the declarer's problem for the option can be dealt.
#[verifier::external_body]
fn estimate_options_in_parallel(
    game: Game,
    options: &Vec<(u32, u32)>,
    remaining: u32,
    samples: u32,
) -> (r: Vec<Option<u32>>)
    ensures
        r@.len() == options@.len(),
        forall|i: int| 0 <= i < r@.len() ==> (#[trigger] r@[i] matches Some(w) ==> w <= samples),
        forall|i: int|
            0 <= i < r@.len() ==> ((#[trigger] r@[i]) is Some <==> declarer_ok(
                game,
                options@[i].0,
                Some(options@[i].1),
                remaining,
            )),
{
    options.clone().into_par_iter().map(
        |(keep, discard)| estimate_declarer_wins(game, keep, Some(discard), remaining, samples),
    ).collect()
}

/// The option to take: the last of those with the most wins; none when an option has no
/// estimate or there is no option.
pub fn best_option(estimates: &Vec<Option<u32>>) -> (r: Option<usize>)
    ensures
        r matches Some(i) ==> i < estimates@.len() && estimates@[i as int] is Some && forall|j: int|
            0 <= j < estimates@.len() ==> (#[trigger] estimates@[j]) is Some && (estimates@[j]->0
                <= estimates@[i as int]->0) && (j > i ==> estimates@[j]->0 < estimates@[i as int]->0),
        r is None ==> estimates@.len() == 0 || exists|j: int| 0 <= j < estimates@.len() && (#[trigger] estimates@[j]) is None,
{
    if estimates.len() == 0 {
        return None;
    }
    let mut best: usize = 0;
    let mut best_wins: u32 = match estimates[0] {
        Some(w) => w,
        None => {
            return None;
        },
    };
    let mut j: usize = 1;
    while j < estimates.len()
        invariant
            1 <= j <= estimates@.len(),
            best < j,
            estimates@[best as int] == Some(best_wins),
            forall|q: int|
                0 <= q < j ==> (#[trigger] estimates@[q]) is Some && estimates@[q]->0 <= best_wins && (q > best
                    ==> estimates@[q]->0 < best_wins),
        decreases estimates@.len() - j,
    {
        match estimates[j] {
            Some(w) => {
                if w >= best_wins {
                    best = j;
                    best_wins = w;
                }
            },
            None => {
                return None;
            },
        }
        j = j + 1;
    }
    Some(best)
}

/// There are ways to lay away two of `cards`, and the declarer's problem can be dealt for
/// each of them in a game of type `game`.
pub open spec fn discard_ok(game: Game, cards: u32) -> bool {
    let options = discard_list(cards);
    &&& options.len() > 0
    &&& forall|i: int|
        0 <= i < options.len() ==> declarer_ok(
            game,
            #[trigger] options[i].0,
            Some(options[i].1),
            ALLCARDS ^ cards,
        )
}

/// The best way for the declarer to lay away two of `cards` in a game of type `game`: the
/// option with the most wins over at most 20 samples, and its wins, now over `samples` samples
/// when there are more. None when some option cannot be estimated or there is none.
fn best_discard(game: Game, cards: u32, samples: u32) -> (r: Option<(u32, u32, u32)>)
    ensures
        r is Some <==> discard_ok(game, cards),
        r matches Some((w, keep, discard)) ==> w <= samples && two_cards_of(discard, cards) && keep == cards ^ discard
            && discard_list(cards).contains((keep, discard)),
{
    let options = discard_options(cards);
    let selection_samples: u32 = if samples > 20 {
        20
    } else {
        samples
    };
    let remaining = ALLCARDS ^ cards;
    let estimates = estimate_options_in_parallel(game, &options, remaining, selection_samples);
    let best = match best_option(&estimates) {
        Some(b) => b,
        None => {
            proof {
                if options@.len() > 0 {
                    let j = choose|j: int| 0 <= j < estimates@.len() && (#[trigger] estimates@[j]) is None;
                    assert(!declarer_ok(game, options@[j].0, Some(options@[j].1), remaining));
                }
            }
            return None;
        },
    };
    let (keep, discard) = options[best];
    proof {
        assert(options@.contains((keep, discard)));
        assert forall|i: int| 0 <= i < options@.len() implies declarer_ok(
            game,
            #[trigger] options@[i].0,
            Some(options@[i].1),
            remaining,
        ) by {
            assert(estimates@[i] is Some);
        }
    }
    let wins = match estimates[best] {
        Some(w) => w,
        None => {
            return None;
        },
    };
    if samples > selection_samples {
        match estimate_declarer_wins(game, keep, Some(discard), remaining, samples) {
            Some(w) => Some((w, keep, discard)),
            None => None,
        }
    } else {
        Some((wins, keep, discard))
    }
}

/// The win estimate of a grand after taking up the skat: the signature (after laying away when
/// `post_discard`, else of the hand), the wins over `samples` samples with the best cards laid
/// away, and those cards.
pub fn analyze_hand_with_pickup(my_hand: u32, skat: u32, samples: u32, post_discard: bool) -> (r:
    Option<(HandSignature, u32, u32)>)
    ensures
        r is Some <==> discard_ok(Game::Grand, my_hand | skat),
        r matches Some((sig, w, discard)) ==> w <= samples && two_cards_of(discard, my_hand | skat) && sig == if post_discard {
            signature_spec((my_hand | skat) ^ discard, discard, None)
        } else {
            signature_spec(my_hand, 0, None)
        },
{
    let cards_12 = my_hand | skat;
    match best_discard(Game::Grand, cards_12, samples) {
        Some((w, keep, discard)) => {
            let sig = if post_discard {
                HandSignature::from_hand_and_skat(keep, discard)
            } else {
                HandSignature::from_hand(my_hand)
            };
            Some((sig, w, discard))
        },
        None => None,
    }
}

/// The exchange of suits that turns a suit game of trump `suit` (0 clubs, 1 spades, 2 hearts,
/// 3 diamonds) into one of clubs.
pub open spec fn switch_for(suit: u8) -> Option<ProblemTransformation> {
    if suit == 1 {
        Some(ProblemTransformation::SpadesSwitch)
    } else if suit == 2 {
        Some(ProblemTransformation::HeartsSwitch)
    } else if suit == 3 {
        Some(ProblemTransformation::DiamondsSwitch)
    } else {
        None
    }
}

/// The cards after the exchange of suits for a suit game of trump `suit`.
pub open spec fn cards_for_suit(cards: u32, suit: u8) -> u32 {
    match switch_for(suit) {
        Some(t) => crate::context::switched(
            cards,
            crate::context::switch_shift(t),
            crate::context::switch_suit(t),
        ),
        None => cards,
    }
}

/// The cards after the exchange of suits for a suit game of trump `suit`.
fn switch_for_suit(cards: u32, suit: u8) -> (r: u32)
    ensures
        r == cards_for_suit(cards, suit),
{
    let t = if suit == 1 {
        Some(ProblemTransformation::SpadesSwitch)
    } else if suit == 2 {
        Some(ProblemTransformation::HeartsSwitch)
    } else if suit == 3 {
        Some(ProblemTransformation::DiamondsSwitch)
    } else {
        None
    };
    match t {
        Some(t) => GameContext::get_switched_cards(cards, t),
        None => cards,
    }
}

/// The win estimate of a suit game of trump `suit` played from hand: the signature and the
/// wins over `samples` samples.
pub fn analyze_suit(my_hand: u32, suit: u8, samples: u32) -> (r: Option<(HandSignature, u32)>)
    ensures
        r is Some <==> declarer_ok(
            Game::Suit,
            cards_for_suit(my_hand, suit),
            None,
            ALLCARDS ^ cards_for_suit(my_hand, suit),
        ),
        r matches Some((sig, w)) ==> sig == signature_spec(my_hand, 0, Some(suit)) && w <= samples,
{
    let sig = HandSignature::from_hand_and_skat_suit(my_hand, 0, Some(suit));
    let cards = switch_for_suit(my_hand, suit);
    let remaining = ALLCARDS ^ cards;
    match estimate_declarer_wins(Game::Suit, cards, None, remaining, samples) {
        Some(w) => Some((sig, w)),
        None => None,
    }
}

/// The win estimate of a suit game of trump `suit` after taking up the skat: the signatures
/// before and after laying away, the wins over `samples` samples, and the cards kept and laid
/// away (in the suits of the hand). The game is searched with the suits exchanged so that the
/// trump is clubs.
pub fn analyze_suit_with_pickup(my_hand: u32, skat: u32, suit: u8, samples: u32, post_discard: bool) -> (r:
    Option<(HandSignature, HandSignature, u32, u32, u32)>)
    ensures
        r is Some <==> discard_ok(Game::Suit, cards_for_suit(my_hand | skat, suit)),
        r matches Some((sig_initial, sig_post, w, keep, discard)) ==> sig_initial == signature_spec(
            my_hand,
            0,
            Some(suit),
        ) && sig_post == signature_spec(keep, discard, Some(suit)) && w <= samples,
{
    let sig_initial = HandSignature::from_hand_and_skat_suit(my_hand, 0, Some(suit));
    let cards_12 = switch_for_suit(my_hand | skat, suit);
    match best_discard(Game::Suit, cards_12, samples) {
        Some((w, keep_opt, discard_opt)) => {
            let keep = switch_for_suit(keep_opt, suit);
            let discard = switch_for_suit(discard_opt, suit);
            let sig_post = HandSignature::from_hand_and_skat_suit(keep, discard, Some(suit));
            Some((sig_initial, sig_post, w, keep, discard))
        },
        None => None,
    }
}

/// The win estimate of a null game after taking up the skat: the signatures before and after
/// laying away (with the skat when `post_discard`), the wins over `samples` samples, and the
/// cards kept and laid away.
pub fn analyze_null_with_pickup(my_hand: u32, skat: u32, samples: u32, post_discard: bool) -> (r:
    Option<(HandSignature, HandSignature, u32, u32, u32)>)
    ensures
        r is Some <==> discard_ok(Game::Null, my_hand | skat),
        r matches Some((sig_initial, sig_post, w, keep, discard)) ==> sig_initial == signature_spec(
            my_hand,
            0,
            None,
        ) && sig_post == (if post_discard {
            signature_spec(keep, discard, None)
        } else {
            signature_spec(keep, 0, None)
        }) && w <= samples && keep == (my_hand | skat) ^ discard,
{
    let sig_initial = HandSignature::from_hand(my_hand);
    let cards_12 = my_hand | skat;
    match best_discard(Game::Null, cards_12, samples) {
        Some((w, keep, discard)) => {
            let sig_post = if post_discard {
                HandSignature::from_hand_and_skat(keep, discard)
            } else {
                HandSignature::from_hand(keep)
            };
            Some((sig_initial, sig_post, w, keep, discard))
        },
        None => None,
    }
}

/// The variant that wins most often: the first of those with the most wins (0 grand, 1 to 4
/// the suit games of clubs, spades, hearts and diamonds, 5 null).
pub fn best_variant(wins: &[u32; 6]) -> (r: u8)
    ensures
        r < 6,
        forall|j: int| 0 <= j < 6 ==> wins@[j] <= wins@[r as int],
        forall|j: int| 0 <= j < r ==> wins@[j] < wins@[r as int],
{
    let mut best: usize = 0;
    let mut j: usize = 1;
    while j < 6
        invariant
            1 <= j <= 6,
            best < j,
            forall|q: int| 0 <= q < j ==> wins@[q] <= wins@[best as int],
            forall|q: int| 0 <= q < best ==> wins@[q] < wins@[best as int],
        decreases 6 - j,
    {
        if wins[j] > wins[best] {
            best = j;
        }
        j = j + 1;
    }
    best as u8
}

/// The union of the entries of `cards` at the positions named by `order` from `from` up to
/// (not including) `to`.
pub open spec fn joined_at(cards: Seq<u32>, order: Seq<usize>, from: int, to: int) -> u32
    decreases to - from,
{
    if to <= from {
        0
    } else {
        joined_at(cards, order, from, to - 1) | cards[order[to - 1] as int]
    }
}

/// The cards at positions `from` to `to` of `order` in `cards`, joined.
fn join_cards(cards: &Vec<u32>, order: &Vec<usize>, from: usize, to: usize) -> (r: u32)
    requires
        from <= to <= order@.len(),
        forall|i: int| 0 <= i < order@.len() ==> (#[trigger] order@[i]) < cards@.len(),
    ensures
        r == joined_at(cards@, order@, from as int, to as int),
{
    let mut acc: u32 = 0;
    let mut i: usize = from;
    while i < to
        invariant
            from <= i <= to,
            to <= order@.len(),
            forall|q: int| 0 <= q < order@.len() ==> (#[trigger] order@[q]) < cards@.len(),
            acc == joined_at(cards@, order@, from as int, i as int),
        decreases to - i,
    {
        acc = acc | cards[order[i]];
        i = i + 1;
    }
    acc
}

/// The deal that `variant_won` searches: the declarer leads with `my_hand` against `left` and
/// `right` in the game of `variant` (0 grand, 1 to 4 the suit games of clubs, spades, hearts
/// and diamonds with the suits exchanged to make clubs trump, 5 null).
pub open spec fn variant_context(my_hand: u32, left: u32, right: u32, variant: u8) -> GameContext {
    let game = if variant == 0 {
        Game::Grand
    } else if variant == 5 {
        Game::Null
    } else {
        Game::Suit
    };
    let suit: u8 = if 1 <= variant <= 4 {
        (variant - 1) as u8
    } else {
        0
    };
    GameContext::create_spec(
        cards_for_suit(my_hand, suit),
        cards_for_suit(left, suit),
        cards_for_suit(right, suit),
        game,
        Player::Declarer,
    )
}

/// Whether the declarer, leading with `my_hand` against `left` and `right`, wins the game
/// `variant` (see `best_variant`) with perfect play on both sides and the skat added: a null
/// game without a trick, else at least 61 points. None when the hands cannot be played.
pub fn variant_won(my_hand: u32, left: u32, right: u32, variant: u8) -> (r: Option<bool>)
    ensures
        r is Some <==> crate::context::deal_ok(variant_context(my_hand, left, right, variant)),
{
    let game = if variant == 0 {
        Game::Grand
    } else if variant == 5 {
        Game::Null
    } else {
        Game::Suit
    };
    let suit: u8 = if variant >= 1 && variant <= 4 {
        variant - 1
    } else {
        0
    };
    let ctx = GameContext::create(
        switch_for_suit(my_hand, suit),
        switch_for_suit(left, suit),
        switch_for_suit(right, suit),
        game,
        Player::Declarer,
    );
    if !deal_playable(&ctx) {
        return None;
    }
    let mut engine = SkatEngine::new(ctx, None);
    let result = solve_and_add_skat(&mut engine);
    if game == Game::Null {
        Some(result.best_value == 0)
    } else {
        Some(result.best_value >= 61)
    }
}

/// A card is in a joined set exactly when one of the joined entries holds it.
pub(crate) proof fn lemma_joined_has(cards: Seq<u32>, order: Seq<usize>, a: int, b: int, k: int)
    requires
        0 <= k < 32,
    ensures
        has_card(joined_at(cards, order, a, b), k) <==> exists|j: int|
            a <= j < b && #[trigger] has_card(cards[order[j] as int], k),
    decreases b - a,
{
    if b > a {
        lemma_joined_has(cards, order, a, b - 1, k);
        crate::cards::lemma_has_ops(joined_at(cards, order, a, b - 1), cards[order[b - 1] as int], k);
        if has_card(cards[order[b - 1] as int], k) {
            assert(has_card(cards[order[b - 1] as int], k));
        }
    } else {
        crate::cards::lemma_has_consts(k);
    }
}

/// Joining distinct single cards gives as many cards as were joined.
pub(crate) proof fn lemma_joined_count(cards: Seq<u32>, order: Seq<usize>, a: int, b: int)
    requires
        a <= b,
        forall|j: int| a <= j < b ==> is_card(#[trigger] cards[order[j] as int]),
        forall|i: int, j: int|
            a <= i < j < b ==> #[trigger] cards[order[i] as int] != #[trigger] cards[order[j] as int],
    ensures
        crate::cards::card_count(joined_at(cards, order, a, b)) == b - a,
    decreases b - a,
{
    if b == a {
        crate::cards::lemma_empty_set();
    } else {
        lemma_joined_count(cards, order, a, b - 1);
        let c = cards[order[b - 1] as int];
        let t = crate::cards::lemma_card_index(c);
        lemma_joined_has(cards, order, a, b - 1, t);
        if has_card(joined_at(cards, order, a, b - 1), t) {
            let j = choose|j: int| a <= j < b - 1 && #[trigger] has_card(cards[order[j] as int], t);
            let t2 = crate::cards::lemma_card_index(cards[order[j] as int]);
            crate::cards::lemma_has_bit(t2, t);
            assert(cards[order[j] as int] != c);
        }
        crate::cards::lemma_add_card(joined_at(cards, order, a, b - 1), t);
    }
}

/// Two joined sets are disjoint when no joined entry of one is a card of the other.
pub(crate) proof fn lemma_joined_disjoint(
    cards: Seq<u32>,
    order: Seq<usize>,
    a: int,
    b: int,
    cards2: Seq<u32>,
    order2: Seq<usize>,
    c: int,
    d: int,
)
    requires
        forall|j: int| a <= j < b ==> is_card(#[trigger] cards[order[j] as int]),
        forall|j: int| c <= j < d ==> is_card(#[trigger] cards2[order2[j] as int]),
        forall|i: int, j: int|
            a <= i < b && c <= j < d ==> #[trigger] cards[order[i] as int] != #[trigger] cards2[order2[j] as int],
    ensures
        joined_at(cards, order, a, b) & joined_at(cards2, order2, c, d) == 0,
{
    let x = joined_at(cards, order, a, b);
    let y = joined_at(cards2, order2, c, d);
    assert forall|k: int| 0 <= k < 32 implies has_card(x & y, k) == has_card(0u32, k) by {
        crate::cards::lemma_has_consts(k);
        crate::cards::lemma_has_ops(x, y, k);
        lemma_joined_has(cards, order, a, b, k);
        lemma_joined_has(cards2, order2, c, d, k);
        if has_card(x, k) && has_card(y, k) {
            let i = choose|i: int| a <= i < b && #[trigger] has_card(cards[order[i] as int], k);
            let j = choose|j: int| c <= j < d && #[trigger] has_card(cards2[order2[j] as int], k);
            let t1 = crate::cards::lemma_card_index(cards[order[i] as int]);
            let t2 = crate::cards::lemma_card_index(cards2[order2[j] as int]);
            crate::cards::lemma_has_bit(t1, k);
            crate::cards::lemma_has_bit(t2, k);
            assert(cards[order[i] as int] != cards2[order2[j] as int]);
        }
    }
    crate::cards::lemma_ext(x & y, 0);
}

/// Exchanging suits keeps disjoint sets disjoint.
pub(crate) proof fn lemma_suit_disjoint(a: u32, b: u32, suit: u8)
    requires
        a & b == 0,
    ensures
        cards_for_suit(a, suit) & cards_for_suit(b, suit) == 0,
{
    assert(crate::consts::CLUBS == 0x0FE0_0000u32);
    assert(crate::consts::SPADES == 0x001F_C000u32);
    assert(crate::consts::HEARTS == 0x0000_3F80u32);
    assert(crate::consts::DIAMONDS == 0x0000_007Fu32);
    if suit == 1 {
        assert(a & b == 0 ==> (((a & 0x0FE0_0000u32) >> 7u32) | ((a & 0x001F_C000u32) << 7u32) | (a
            & !(0x0FE0_0000u32 | 0x001F_C000u32))) & (((b & 0x0FE0_0000u32) >> 7u32) | ((b
            & 0x001F_C000u32) << 7u32) | (b & !(0x0FE0_0000u32 | 0x001F_C000u32))) == 0)
            by (bit_vector);
    } else if suit == 2 {
        assert(a & b == 0 ==> (((a & 0x0FE0_0000u32) >> 14u32) | ((a & 0x0000_3F80u32) << 14u32) | (a
            & !(0x0FE0_0000u32 | 0x0000_3F80u32))) & (((b & 0x0FE0_0000u32) >> 14u32) | ((b
            & 0x0000_3F80u32) << 14u32) | (b & !(0x0FE0_0000u32 | 0x0000_3F80u32))) == 0)
            by (bit_vector);
    } else if suit == 3 {
        assert(a & b == 0 ==> (((a & 0x0FE0_0000u32) >> 21u32) | ((a & 0x0000_007Fu32) << 21u32) | (a
            & !(0x0FE0_0000u32 | 0x0000_007Fu32))) & (((b & 0x0FE0_0000u32) >> 21u32) | ((b
            & 0x0000_007Fu32) << 21u32) | (b & !(0x0FE0_0000u32 | 0x0000_007Fu32))) == 0)
            by (bit_vector);
    }
}

/// Exchanging suits keeps the number of cards.
pub(crate) proof fn lemma_suit_count(a: u32, suit: u8)
    ensures
        crate::cards::card_count(cards_for_suit(a, suit)) == crate::cards::card_count(a),
{
    if let Some(t) = switch_for(suit) {
        crate::context::lemma_switch_count(a, t);
    }
}

/// Three disjoint hands of ten cards can be played in every variant.
proof fn lemma_variant_deal_ok(my_hand: u32, left: u32, right: u32, v: u8)
    requires
        my_hand & left == 0,
        my_hand & right == 0,
        left & right == 0,
        crate::cards::card_count(my_hand) == 10,
        crate::cards::card_count(left) == 10,
        crate::cards::card_count(right) == 10,
    ensures
        crate::context::deal_ok(variant_context(my_hand, left, right, v)),
{
    let suit: u8 = if 1 <= v <= 4 {
        (v - 1) as u8
    } else {
        0
    };
    lemma_suit_disjoint(my_hand, left, suit);
    lemma_suit_disjoint(my_hand, right, suit);
    lemma_suit_disjoint(left, right, suit);
    lemma_suit_count(my_hand, suit);
    lemma_suit_count(left, suit);
    lemma_suit_count(right, suit);
}

/// The hands dealt from a shuffled deck: ten cards to the declarer, and ten each from the
/// rest, shuffled again, to the others (the first two of the rest form the skat).
proof fn lemma_random_deal(all: Seq<u32>, deck: Seq<usize>, rest: Seq<u32>, order: Seq<usize>)
    requires
        all.len() == 32,
        forall|q: int| 0 <= q < 32 ==> #[trigger] all[q] == bit(q),
        deck.len() == 32,
        forall|q: int| 0 <= q < 32 ==> #[trigger] deck[q] < 32,
        forall|i: int, j: int| 0 <= i < j < 32 ==> #[trigger] deck[i] != #[trigger] deck[j],
        rest.len() == 22,
        forall|q: int| 0 <= q < 22 ==> #[trigger] rest[q] == all[deck[q + 10] as int],
        order.len() == 22,
        forall|q: int| 0 <= q < 22 ==> #[trigger] order[q] < 22,
        forall|i: int, j: int| 0 <= i < j < 22 ==> #[trigger] order[i] != #[trigger] order[j],
    ensures
        ({
            let my_hand = joined_at(all, deck, 0, 10);
            let left = joined_at(rest, order, 2, 12);
            let right = joined_at(rest, order, 12, 22);
            &&& my_hand & left == 0
            &&& my_hand & right == 0
            &&& left & right == 0
            &&& crate::cards::card_count(my_hand) == 10
            &&& crate::cards::card_count(left) == 10
            &&& crate::cards::card_count(right) == 10
        }),
{
    assert forall|q: int| 0 <= q < 32 implies is_card(#[trigger] all[deck[q] as int]) by {
        assert(all[deck[q] as int] == bit(deck[q] as int));
    }
    assert forall|i: int, j: int| 0 <= i < 32 && 0 <= j < 32 && i != j implies #[trigger] all[deck[i] as int]
        != #[trigger] all[deck[j] as int] by {
        if i < j {
            assert(deck[i] != deck[j]);
        } else {
            assert(deck[j] != deck[i]);
        }
        crate::cards::lemma_has_bit(deck[i] as int, deck[i] as int);
        crate::cards::lemma_has_bit(deck[j] as int, deck[i] as int);
    }
    assert forall|q: int| 0 <= q < 22 implies is_card(#[trigger] rest[order[q] as int]) by {
        assert(rest[order[q] as int] == all[deck[order[q] + 10] as int]);
    }
    lemma_joined_count(all, deck, 0, 10);
    assert forall|i: int, j: int| 0 <= i < j < 22 implies #[trigger] rest[order[i] as int]
        != #[trigger] rest[order[j] as int] by {
        assert(rest[order[i] as int] == all[deck[order[i] + 10] as int]);
        assert(rest[order[j] as int] == all[deck[order[j] + 10] as int]);
    }
    lemma_joined_count(rest, order, 2, 12);
    lemma_joined_count(rest, order, 12, 22);
    assert forall|i: int, j: int| 0 <= i < 10 && 2 <= j < 22 implies #[trigger] all[deck[i] as int]
        != #[trigger] rest[order[j] as int] by {
        assert(rest[order[j] as int] == all[deck[order[j] + 10] as int]);
    }
    lemma_joined_disjoint(all, deck, 0, 10, rest, order, 2, 12);
    lemma_joined_disjoint(all, deck, 0, 10, rest, order, 12, 22);
    lemma_joined_disjoint(rest, order, 2, 12, rest, order, 12, 22);
}

/// The analysis of one random hand: the hand, its signature, the wins of each variant over
/// the deals, and the variant that wins most often.
pub struct HandAnalysis {
    pub my_hand: u32,
    pub signature: HandSignature,
    pub wins: [u32; 6],
    pub best_variant: u8,
}

/// Deals ten random cards to the declarer and, `samples` times, the other cards at random to
/// the skat and the two other hands; counts for each variant the deals the declarer wins with
/// perfect play. Every such deal can be played, so there is always a result.
pub fn analyze_random_hand(samples: u32) -> (r: Option<HandAnalysis>)
    ensures
        r is Some,
        r matches Some(a) ==> crate::cards::card_count(a.my_hand) == 10,
        r matches Some(a) ==> a.signature == signature_spec(a.my_hand, 0, None) && (forall|j: int|
            0 <= j < 6 ==> #[trigger] a.wins@[j] <= samples) && a.best_variant < 6 && (forall|j: int|
            0 <= j < 6 ==> #[trigger] a.wins@[j] <= a.wins@[a.best_variant as int]) && (forall|j: int|
            0 <= j < a.best_variant ==> #[trigger] a.wins@[j] < a.wins@[a.best_variant as int]),
{
    let mut rng = thread_rng();
    let mut all: Vec<u32> = Vec::new();
    let mut k: u32 = 0;
    while k < 32
        invariant
            k <= 32,
            all@.len() == k,
            forall|q: int| 0 <= q < k ==> #[trigger] all@[q] == bit(q),
        decreases 32 - k,
    {
        all.push(1u32 << k);
        k = k + 1;
    }
    let deck_order = sample_indices(&mut rng, 32, 32);
    let my_hand = join_cards(&all, &deck_order, 0, 10);
    let mut rest: Vec<u32> = Vec::new();
    let mut i: usize = 10;
    while i < 32
        invariant
            10 <= i <= 32,
            deck_order@.len() == 32,
            all@.len() == 32,
            rest@.len() == i - 10,
            forall|q: int| 0 <= q < 32 ==> (#[trigger] deck_order@[q]) < 32,
            forall|q: int| 0 <= q < i - 10 ==> #[trigger] rest@[q] == all@[deck_order@[q + 10] as int],
        decreases 32 - i,
    {
        rest.push(all[deck_order[i]]);
        i = i + 1;
    }
    let mut wins: [u32; 6] = [0, 0, 0, 0, 0, 0];
    let mut s: u32 = 0;
    while s < samples
        invariant
            s <= samples,
            rest@.len() == 22,
            forall|j: int| 0 <= j < 6 ==> wins@[j] <= s,
            all@.len() == 32,
            forall|q: int| 0 <= q < 32 ==> #[trigger] all@[q] == bit(q),
            deck_order@.len() == 32,
            forall|q: int| 0 <= q < 32 ==> #[trigger] deck_order@[q] < 32,
            forall|a: int, b: int| 0 <= a < b < 32 ==> #[trigger] deck_order@[a] != #[trigger] deck_order@[b],
            forall|q: int| 0 <= q < 22 ==> #[trigger] rest@[q] == all@[deck_order@[q + 10] as int],
            my_hand == joined_at(all@, deck_order@, 0, 10),
        decreases samples - s,
    {
        let order = sample_indices(&mut rng, 22, 22);
        let left = join_cards(&rest, &order, 2, 12);
        let right = join_cards(&rest, &order, 12, 22);
        proof {
            lemma_random_deal(all@, deck_order@, rest@, order@);
        }
        let mut v: u8 = 0;
        while v < 6
            invariant
                v <= 6,
                s < samples,
                forall|j: int| 0 <= j < v ==> wins@[j] <= s + 1,
                forall|j: int| v <= j < 6 ==> wins@[j] <= s,
                my_hand & left == 0,
                my_hand & right == 0,
                left & right == 0,
                crate::cards::card_count(my_hand) == 10,
                crate::cards::card_count(left) == 10,
                crate::cards::card_count(right) == 10,
            decreases 6 - v,
        {
            proof {
                lemma_variant_deal_ok(my_hand, left, right, v);
            }
            match variant_won(my_hand, left, right, v) {
                Some(true) => {
                    let w = wins[v as usize];
                    wins[v as usize] = w + 1;
                },
                Some(false) => {},
                None => {
                    return None;
                },
            }
            v = v + 1;
        }
        s = s + 1;
    }
    let best = best_variant(&wins);
    proof {
        assert forall|q: int| 0 <= q < 32 implies is_card(#[trigger] all@[deck_order@[q] as int]) by {
            assert(all@[deck_order@[q] as int] == bit(deck_order@[q] as int));
        }
        assert forall|a: int, b: int| 0 <= a < b < 10 implies #[trigger] all@[deck_order@[a] as int]
            != #[trigger] all@[deck_order@[b] as int] by {
            crate::cards::lemma_has_bit(deck_order@[a] as int, deck_order@[a] as int);
            crate::cards::lemma_has_bit(deck_order@[b] as int, deck_order@[a] as int);
        }
        lemma_joined_count(all@, deck_order@, 0, 10);
    }
    let signature = HandSignature::from_hand_and_skat_suit(my_hand, 0, None);
    Some(HandAnalysis { my_hand, signature, wins, best_variant: best })
}

} // verus!

