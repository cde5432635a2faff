//! Playing a game out with the Monte Carlo search deciding each move: the choice of a card
//! among the estimates, what a card played tells of the player's hand, and the loop over the
//! moves of a game.
use vstd::prelude::*;
use crate::cards::{bit, count_cards, has_card, is_card, lemma_cards_of_members, subset, Bitboard};
use crate::consts::{ACES, CLUBS, DIAMONDS, EIGHTS, HEARTS, JACKS, KINGS, NINES, QUEENS, SPADES, TENS};
use crate::context::{deal_ok, GameContext};
use crate::pimc_problem_builder::PimcProblemBuilder;
use crate::pimc_search::PimcSearch;
use crate::defs::{Game, Player};
use crate::facts::Facts;
use crate::position::Position;
use crate::rules::{cards_for_player, get_cards_for_player, get_legal_moves, legal_moves};

verus! {

/// The points of a card: ace 11, ten 10, king 4, queen 3, jack 2, else 0.
pub open spec fn card_points(card: u32) -> u32 {
    if card & ACES != 0 {
        11
    } else if card & TENS != 0 {
        10
    } else if card & KINGS != 0 {
        4
    } else if card & QUEENS != 0 {
        3
    } else if card & JACKS != 0 {
        2
    } else {
        0
    }
}

/// The rank of a card in a null game: ace 7, king 6, queen 5, jack 4, ten 3, nine 2,
/// eight 1, seven 0.
pub open spec fn null_rank(card: u32) -> u32 {
    if card & ACES != 0 {
        7
    } else if card & KINGS != 0 {
        6
    } else if card & QUEENS != 0 {
        5
    } else if card & JACKS != 0 {
        4
    } else if card & TENS != 0 {
        3
    } else if card & NINES != 0 {
        2
    } else if card & EIGHTS != 0 {
        1
    } else {
        0
    }
}

/// The points of a card.
pub fn get_points(card: u32) -> (r: u32)
    ensures
        r == card_points(card),
{
    if (card & ACES) != 0 {
        return 11;
    }
    if (card & TENS) != 0 {
        return 10;
    }
    if (card & KINGS) != 0 {
        return 4;
    }
    if (card & QUEENS) != 0 {
        return 3;
    }
    if (card & JACKS) != 0 {
        return 2;
    }
    0
}

/// The rank of a card in a null game.
pub fn get_null_rank(card: u32) -> (r: u32)
    ensures
        r == null_rank(card),
        r <= 7,
{
    if (card & ACES) != 0 {
        return 7;
    }
    if (card & KINGS) != 0 {
        return 6;
    }
    if (card & QUEENS) != 0 {
        return 5;
    }
    if (card & JACKS) != 0 {
        return 4;
    }
    if (card & TENS) != 0 {
        return 3;
    }
    if (card & NINES) != 0 {
        return 2;
    }
    if (card & EIGHTS) != 0 {
        return 1;
    }
    0
}

/// What is known of a hand after its player did not follow `lead_suit`: the hand lacks the
/// suit led, checked in the order trump (when `trump` is given), clubs, spades, hearts,
/// diamonds; a card that follows suit tells nothing.
pub open spec fn void_facts(facts: Facts, lead_suit: u32, card: u32, trump: Option<u32>) -> Facts {
    if card & lead_suit != 0 {
        facts
    } else if trump matches Some(t) && lead_suit & t != 0 {
        Facts { no_trump: true, ..facts }
    } else if lead_suit & CLUBS != 0 {
        Facts { no_clubs: true, ..facts }
    } else if lead_suit & SPADES != 0 {
        Facts { no_spades: true, ..facts }
    } else if lead_suit & HEARTS != 0 {
        Facts { no_hearts: true, ..facts }
    } else if lead_suit & DIAMONDS != 0 {
        Facts { no_diamonds: true, ..facts }
    } else {
        facts
    }
}

/// Records what a card played to `lead_suit` tells of its player's hand.
pub fn infer_void(facts: Facts, lead_suit: u32, card: u32, trump: Option<u32>) -> (r: Facts)
    ensures
        r == void_facts(facts, lead_suit, card, trump),
{
    let mut f = facts;
    if (card & lead_suit) != 0 {
        return f;
    }
    let is_trump = match trump {
        Some(t) => (lead_suit & t) != 0,
        None => false,
    };
    if is_trump {
        f.no_trump = true;
    } else if (lead_suit & CLUBS) != 0 {
        f.no_clubs = true;
    } else if (lead_suit & SPADES) != 0 {
        f.no_spades = true;
    } else if (lead_suit & HEARTS) != 0 {
        f.no_hearts = true;
    } else if (lead_suit & DIAMONDS) != 0 {
        f.no_diamonds = true;
    }
    f
}

/// The card a player put into the current trick, if any: the last one recorded for it.
pub open spec fn card_of_player(trick: Seq<(Player, u32)>, p: Player) -> u32
    decreases trick.len(),
{
    if trick.len() == 0 {
        0
    } else if trick.last().0 == p {
        trick.last().1
    } else {
        card_of_player(trick.drop_last(), p)
    }
}

/// The cards the previous and the next player of `turn` put into the current trick (0 for
/// none).
pub fn table_cards(current_trick: &Vec<(Player, u32)>, turn: Player) -> (r: (u32, u32))
    ensures
        r.0 == card_of_player(current_trick@, crate::defs::prev_of(turn)),
        r.1 == card_of_player(current_trick@, crate::defs::next_of(turn)),
{
    let prev_player = match turn {
        Player::Declarer => Player::Right,
        Player::Left => Player::Declarer,
        Player::Right => Player::Left,
    };
    let next_player = match turn {
        Player::Declarer => Player::Left,
        Player::Left => Player::Right,
        Player::Right => Player::Declarer,
    };
    let mut prev_card: u32 = 0;
    let mut next_card: u32 = 0;
    let mut i: usize = 0;
    while i < current_trick.len()
        invariant
            i <= current_trick@.len(),
            prev_player == crate::defs::prev_of(turn),
            next_player == crate::defs::next_of(turn),
            prev_card == card_of_player(current_trick@.take(i as int), prev_player),
            next_card == card_of_player(current_trick@.take(i as int), next_player),
        decreases current_trick@.len() - i,
    {
        proof {
            assert(current_trick@.take(i + 1).drop_last() =~= current_trick@.take(i as int));
        }
        let (p, card) = current_trick[i];
        if p == prev_player {
            prev_card = card;
        } else if p == next_player {
            next_card = card;
        }
        i = i + 1;
    }
    proof {
        assert(current_trick@.take(current_trick@.len() as int) =~= current_trick@);
    }
    (prev_card, next_card)
}

/// `card` takes the trick so far in a null game: no card of the trick in the suit led ranks
/// above it, and if one is in the suit led, so is `card`.
pub open spec fn holds_trick(card: u32, trick: u32, lead: u32) -> bool {
    forall|k: int|
        #![trigger has_card(trick, k)]
        has_card(trick, k) && bit(k) & lead != 0 ==> card & lead != 0 && null_rank(bit(k))
            <= null_rank(card)
}

/// Every card in `legal` follows the suit led and ranks at least as high as `card`.
pub open spec fn must_overtake(legal: u32, lead: u32, card: u32) -> bool {
    forall|k: int|
        #![trigger has_card(legal, k)]
        has_card(legal, k) ==> bit(k) & lead != 0 && null_rank(bit(k)) >= null_rank(card)
}

/// A card is safe in a null game when the trick it ends goes to a defender; when the trick
/// goes on, a defender's card is always safe, and the declarer's when it does not hold the
/// trick or the next player, with the hand dealt at the start, must play above it.
pub open spec fn null_safe(pos: Position, ctx: GameContext, card: u32) -> bool {
    let sim = pos.after_move(card, ctx);
    if sim.trick_cards == 0 {
        sim.player != Player::Declarer
    } else if pos.player != Player::Declarer {
        true
    } else if !holds_trick(card, sim.trick_cards, sim.trick_suit) {
        true
    } else {
        must_overtake(
            legal_moves(
                sim.trick_suit,
                cards_for_player(ctx.declarer_cards, ctx.left_cards, ctx.right_cards, sim.player),
            ),
            sim.trick_suit,
            card,
        )
    }
}

/// Whether `card` takes the trick so far in a null game.
fn holds_trick_now(card: u32, trick: u32, lead: u32) -> (r: bool)
    ensures
        r == holds_trick(card, trick, lead),
{
    let rank = get_null_rank(card);
    let mut k: u32 = 0;
    while k < 32
        invariant
            k <= 32,
            rank == null_rank(card),
            forall|j: int|
                #![trigger has_card(trick, j)]
                0 <= j < k ==> (has_card(trick, j) && bit(j) & lead != 0 ==> card & lead != 0
                    && null_rank(bit(j)) <= null_rank(card)),
        decreases 32 - k,
    {
        let c = 1u32 << k;
        if (trick & c) != 0 && (c & lead) != 0 {
            if (card & lead) == 0 || get_null_rank(c) > rank {
                assert(has_card(trick, k as int));
                return false;
            }
        }
        k = k + 1;
    }
    true
}

/// Whether every card in `legal` follows the suit led and ranks at least as high as `card`.
fn overtakes(legal: u32, lead: u32, card: u32) -> (r: bool)
    ensures
        r == must_overtake(legal, lead, card),
{
    let rank = get_null_rank(card);
    let mut k: u32 = 0;
    while k < 32
        invariant
            k <= 32,
            rank == null_rank(card),
            forall|j: int|
                #![trigger has_card(legal, j)]
                0 <= j < k ==> (has_card(legal, j) ==> bit(j) & lead != 0 && null_rank(bit(j))
                    >= null_rank(card)),
        decreases 32 - k,
    {
        let c = 1u32 << k;
        if (legal & c) != 0 {
            if (c & lead) == 0 || get_null_rank(c) < rank {
                assert(has_card(legal, k as int));
                return false;
            }
        }
        k = k + 1;
    }
    true
}

/// Whether `card` is safe in a null game (see `null_safe`).
pub fn is_null_safe(pos: &Position, ctx: &GameContext, card: u32) -> (r: bool)
    requires
        pos.wf(*ctx),
        is_card(card),
        subset(card, pos.player_cards),
    ensures
        r == null_safe(*pos, *ctx, card),
{
    let sim = pos.make_move(card, ctx);
    if sim.trick_cards == 0 {
        return sim.player != Player::Declarer;
    }
    if pos.player != Player::Declarer {
        return true;
    }
    let lead_suit = sim.trick_suit;
    if !holds_trick_now(card, sim.trick_cards, lead_suit) {
        return true;
    }
    let next_hand = get_cards_for_player(
        ctx.declarer_cards,
        ctx.left_cards,
        ctx.right_cards,
        sim.player,
    );
    let legal = get_legal_moves(lead_suit, next_hand);
    overtakes(legal, lead_suit, card)
}

/// How a card ranks among cards of equal estimate, lower first: in a null game safe cards
/// first, then by rank (lowest first when leading; among safe cards that follow, highest
/// first); in other games the card with fewer points first.
pub open spec fn tie_key(pos: Position, ctx: GameContext, card: u32) -> (u32, u32) {
    if ctx.game_type == Game::Null {
        let safe = null_safe(pos, ctx, card);
        (
            if safe {
                0u32
            } else {
                1u32
            },
            if pos.trick_cards == 0 {
                null_rank(card)
            } else if safe {
                (7 - null_rank(card)) as u32
            } else {
                null_rank(card)
            },
        )
    } else {
        (0u32, card_points(card))
    }
}

/// The tie key of a card.
pub fn move_tie_key(pos: &Position, ctx: &GameContext, card: u32) -> (r: (u32, u32))
    requires
        pos.wf(*ctx),
        is_card(card),
        subset(card, pos.player_cards),
    ensures
        r == tie_key(*pos, *ctx, card),
{
    if ctx.game_type == Game::Null {
        let safe = is_null_safe(pos, ctx, card);
        let rank = get_null_rank(card);
        let first: u32 = if safe {
            0
        } else {
            1
        };
        let second: u32 = if pos.trick_cards == 0 {
            rank
        } else if safe {
            7 - rank
        } else {
            rank
        };
        (first, second)
    } else {
        (0, get_points(card))
    }
}

/// Entry `a` (card, wins, tie key) comes before entry `b`: more wins, or as many and a lower
/// tie key.
pub open spec fn ranks_before(a: (u32, u32, (u32, u32)), b: (u32, u32, (u32, u32))) -> bool {
    a.1 > b.1 || (a.1 == b.1 && (a.2.0 < b.2.0 || (a.2.0 == b.2.0 && a.2.1 < b.2.1)))
}

/// The index of the entry to play: none ranks before it, and it ranks before each entry
/// ahead of it; the first of the best.
pub fn pick_best(entries: &Vec<(u32, u32, (u32, u32))>) -> (r: usize)
    requires
        entries@.len() > 0,
    ensures
        r < entries@.len(),
        forall|j: int| 0 <= j < entries@.len() ==> !ranks_before(#[trigger] entries@[j], entries@[r as int]),
        forall|j: int| 0 <= j < r ==> ranks_before(entries@[r as int], #[trigger] entries@[j]),
{
    let mut best: usize = 0;
    let mut j: usize = 1;
    while j < entries.len()
        invariant
            1 <= j <= entries@.len(),
            best < j,
            forall|q: int| 0 <= q < j ==> !ranks_before(#[trigger] entries@[q], entries@[best as int]),
            forall|q: int| 0 <= q < best ==> ranks_before(entries@[best as int], #[trigger] entries@[q]),
        decreases entries@.len() - j,
    {
        let a = entries[j];
        let b = entries[best];
        if a.1 > b.1 || (a.1 == b.1 && (a.2.0 < b.2.0 || (a.2.0 == b.2.0 && a.2.1 < b.2.1))) {
            best = j;
        }
        j = j + 1;
    }
    best
}

/// The builder that `problem_for_turn` fills in.
pub open spec fn turn_builder(
    ctx: GameContext,
    pos: Position,
    trick: Seq<(Player, u32)>,
    facts_declarer: Facts,
    facts_left: Facts,
    facts_right: Facts,
    full_view: bool,
) -> PimcProblemBuilder {
    let turn = pos.player;
    let my_cards = pos.player_cards;
    let skat: u32 = if full_view {
        ctx.get_skat_spec()
    } else {
        0
    };
    let remaining = (pos.hands() | skat) & !my_cards;
    let b0 = PimcProblemBuilder {
        game_type: ctx.game_type,
        my_player: Some(turn),
        next_player: Some(turn),
        my_cards: Some(my_cards),
        declarer_start_points: pos.declarer_points,
        threshold: Some(ctx.threshold_upper),
        all_cards: Some(remaining | my_cards),
        ..crate::pimc_problem_builder::default_pimc_builder()
    };
    let prev_card = card_of_player(trick, crate::defs::prev_of(turn));
    let next_card = card_of_player(trick, crate::defs::next_of(turn));
    let b1 = if pos.trick_cards != 0 && prev_card != 0 {
        PimcProblemBuilder {
            previous_card: Some(prev_card),
            active_suit: Some(pos.trick_suit),
            ..b0
        }
    } else if pos.trick_cards != 0 && full_view {
        PimcProblemBuilder { active_suit: Some(pos.trick_suit), ..b0 }
    } else {
        b0
    };
    let b2 = if pos.trick_cards != 0 && next_card != 0 {
        PimcProblemBuilder { next_card: Some(next_card), ..b1 }
    } else {
        b1
    };
    PimcProblemBuilder {
        facts_declarer: Some(facts_declarer),
        facts_left: Some(facts_left),
        facts_right: Some(facts_right),
        ..b2
    }
}

/// The problem the player to move in `pos` searches: its own hand, the cards it cannot see,
/// the cards on the table, the declarer's points and what is known of the hands. With
/// `full_view` the skat counts among the cards it cannot see and the suit led is set even when
/// the previous player has no card on the table. There is none when the cards in play do not
/// fit three hands of its size or no game can be dealt for it.
pub fn problem_for_turn(
    ctx: &GameContext,
    pos: &Position,
    current_trick: &Vec<(Player, u32)>,
    facts_declarer: Facts,
    facts_left: Facts,
    facts_right: Facts,
    full_view: bool,
) -> (r: Option<crate::pimc_problem::PimcProblem>)
    ensures
        r matches Some(p) ==> crate::pimc_problem::concrete_feasible(p) && p.threshold
            == ctx.threshold_upper && p.my_player == pos.player && p.my_cards == pos.player_cards
            && p.game_type == ctx.game_type && p.declarer_start_points == pos.declarer_points,
        ({
            let b = turn_builder(
                *ctx,
                *pos,
                current_trick@,
                facts_declarer,
                facts_left,
                facts_right,
                full_view,
            );
            r == if b.complete() && crate::pimc_problem::concrete_feasible(b.build_spec()) {
                Some(b.build_spec())
            } else {
                None
            }
        }),
{
        let turn = pos.player;
        let my_cards = pos.player_cards;
        let all_unplayed = pos.get_all_unplayed_cards();
        let skat: u32 = if full_view {
            ctx.get_skat()
        } else {
            0
        };
        let remaining = (all_unplayed | skat) & !my_cards;
        let b0 = PimcProblemBuilder::new(ctx.game_type).my_player(turn).turn(turn).declarer_start_points(
            pos.declarer_points,
        ).threshold(ctx.threshold_upper);
        let mut builder = PimcProblemBuilder {
            my_player: Some(turn),
            next_player: Some(turn),
            my_cards: Some(my_cards),
            ..b0
        };
        builder = PimcProblemBuilder { all_cards: Some(remaining | my_cards), ..builder };
        if pos.trick_cards != 0 {
            let (prev_card, next_card) = table_cards(&current_trick, turn);
            if prev_card != 0 {
                builder = builder.trick_previous_player(pos.trick_suit, prev_card);
            } else if full_view {
                builder = builder.active_suit(pos.trick_suit);
            }
            if next_card != 0 {
                builder = builder.trick_next_player(next_card);
            }
        }
        builder = builder.facts(Player::Declarer, facts_declarer);
        builder = builder.facts(Player::Left, facts_left);
        builder = builder.facts(Player::Right, facts_right);
        if !builder.is_complete() {
            return None;
        }
        let problem = builder.build();
        if !problem.can_deal() {
            return None;
        }
        Some(problem)
}

/// The highest card of a set (the first of its card list), if it has one.
pub fn highest_card(x: u32) -> (r: Option<u32>)
    ensures
        r matches Some(c) ==> is_card(c) && subset(c, x) && exists|k: int|
            0 <= k < 32 && c == bit(k) && forall|j: int| k < j < 32 ==> !#[trigger] has_card(x, j),
        r is None ==> forall|j: int| 0 <= j < 32 ==> !#[trigger] has_card(x, j),
{
    let mut k: u32 = 32;
    while k > 0
        invariant
            k <= 32,
            forall|j: int| k <= j < 32 ==> !#[trigger] has_card(x, j),
        decreases k,
    {
        let c = 1u32 << (k - 1);
        if (x & c) != 0 {
            proof {
                assert(has_card(x, (k - 1) as int));
                crate::cards::lemma_card_subset(x, (k - 1) as int);
            }
            return Some(c);
        }
        k = k - 1;
    }
    None
}

/// A count of the search as `pick_best` ranks it: the card, its wins and its `tie_key`.
pub open spec fn entry_of(pos: Position, ctx: GameContext, x: (u32, u32)) -> (u32, u32, (u32, u32)) {
    (x.0, x.1, tie_key(pos, ctx, x.0))
}

/// The card to play from the search's counts: the best by wins and `tie_key` (see
/// `pick_best`), with its wins; the first legal card, without a count, when the search gave
/// none. There is none when the search names a card the player may not play.
pub fn choose_move(ctx: &GameContext, pos: &Position, result: &Vec<(u32, u32)>) -> (r: Option<(u32, Option<u32>)>)
    requires
        pos.wf(*ctx),
    ensures
        r matches Some((card, wins)) ==> is_card(card) && subset(card, pos.legal()) && (wins
            matches Some(w) ==> exists|i: int| 0 <= i < result@.len() && result@[i] == (card, w)),
        r is Some <==> (forall|i: int|
            0 <= i < result@.len() ==> is_card(#[trigger] result@[i].0) && subset(
                result@[i].0,
                pos.legal(),
            )) && (result@.len() > 0 || pos.legal() != 0),
        result@.len() > 0 ==> (r matches Some((card, wins)) ==> exists|b: int|
            #![trigger result@[b]]
            {
                &&& 0 <= b < result@.len()
                &&& result@[b] == (card, wins->0)
                &&& wins is Some
                &&& forall|j: int|
                    0 <= j < result@.len() ==> !ranks_before(
                        entry_of(*pos, *ctx, #[trigger] result@[j]),
                        entry_of(*pos, *ctx, result@[b]),
                    ) && (j < b ==> ranks_before(
                        entry_of(*pos, *ctx, result@[b]),
                        entry_of(*pos, *ctx, result@[j]),
                    ))
            }),
        result@.len() == 0 ==> (r matches Some((card, wins)) ==> wins is None && exists|k: int|
            0 <= k < 32 && card == bit(k) && forall|j: int|
                k < j < 32 ==> !#[trigger] has_card(pos.legal(), j)),
{
        let legal = pos.get_legal_moves();
        let mut best_move_card: u32 = 0;
        let mut win_count: Option<u32> = None;
        if result.len() > 0 {
            let mut entries: Vec<(u32, u32, (u32, u32))> = Vec::new();
            let mut i: usize = 0;
            while i < result.len()
                invariant
                    pos.wf(*ctx),
                    legal == pos.legal(),
                    subset(legal, pos.player_cards),
                    i <= result@.len(),
                    entries@.len() == i,
                    forall|q: int| 0 <= q < i ==> (#[trigger] entries@[q]).0 == result@[q].0 && entries@[q].1 == result@[q].1
                        && is_card(entries@[q].0) && subset(entries@[q].0, legal),
                    forall|q: int| 0 <= q < i ==> #[trigger] entries@[q] == entry_of(*pos, *ctx, result@[q]),
                decreases result@.len() - i,
            {
                let (card, wins) = result[i];
                if !(crate::cards::single_card(card) && (card & legal) == card) {
                    proof {
                        assert(!(is_card(result@[i as int].0) && subset(result@[i as int].0, pos.legal())));
                    }
                    return None;
                }
                proof {
                    crate::cards::lemma_set_algebra(card, legal, pos.player_cards);
                }
                let key = move_tie_key(pos, ctx, card);
                entries.push((card, wins, key));
                i = i + 1;
            }
            let b = pick_best(&entries);
            best_move_card = entries[b].0;
            win_count = Some(entries[b].1);
            proof {
                assert(result@[b as int] == (best_move_card, win_count->0));
                assert forall|j: int| 0 <= j < result@.len() implies !ranks_before(
                    entry_of(*pos, *ctx, #[trigger] result@[j]),
                    entry_of(*pos, *ctx, result@[b as int]),
                ) && (j < b ==> ranks_before(
                    entry_of(*pos, *ctx, result@[b as int]),
                    entry_of(*pos, *ctx, result@[j]),
                )) by {
                    assert(entries@[j] == entry_of(*pos, *ctx, result@[j]));
                    assert(entries@[b as int] == entry_of(*pos, *ctx, result@[b as int]));
                }
                assert forall|q: int| 0 <= q < result@.len() implies is_card(#[trigger] result@[q].0)
                    && subset(result@[q].0, pos.legal()) by {
                    assert(entries@[q].0 == result@[q].0);
                }
                assert(entries@[b as int].0 == result@[b as int].0);
                assert(result@[b as int] == (best_move_card, entries@[b as int].1));
                assert(is_card(best_move_card) && subset(best_move_card, legal));
            }
        } else {
            best_move_card = match highest_card(legal) {
                Some(c) => c,
                None => {
                    proof {
                        assert forall|k: int| 0 <= k < 32 implies has_card(legal, k) == has_card(
                            0u32,
                            k,
                        ) by {
                            crate::cards::lemma_has_consts(k);
                        }
                        crate::cards::lemma_ext(legal, 0);
                    }
                    return None;
                },
            };
        }
        proof {
            crate::cards::lemma_set_algebra(best_move_card, legal, pos.player_cards);
            if result@.len() == 0 {
                let k = choose|k: int| 0 <= k < 32 && best_move_card == bit(k);
                crate::cards::lemma_has_bit(k, k);
                crate::cards::lemma_has_ops(best_move_card, legal, k);
                crate::cards::lemma_has_consts(k);
            }
        }
        Some((best_move_card, win_count))
}

/// The position after playing `moves` from `pos`.
#[verifier::opaque]
pub open spec fn replay(pos: Position, ctx: GameContext, moves: Seq<u32>) -> Position
    decreases moves.len(),
{
    if moves.len() == 0 {
        pos
    } else {
        replay(pos, ctx, moves.drop_last()).after_move(moves.last(), ctx)
    }
}

/// Each of `moves` is a single card the player to move may play at its turn.
pub open spec fn legal_play(pos: Position, ctx: GameContext, moves: Seq<u32>) -> bool {
    forall|i: int|
        0 <= i < moves.len() ==> is_card(#[trigger] moves[i]) && subset(
            moves[i],
            replay(pos, ctx, moves.take(i)).legal(),
        )
}

/// The record of a game played out: the cards played, for each the number of samples in
/// which the card chosen won (none when the search gave no estimate), the sample size,
/// whether the declarer won and the declarer's points.
pub struct GameTrace {
    pub moves: Vec<u32>,
    pub win_counts: Vec<Option<u32>>,
    pub sample_size: u32,
    pub declarer_won: bool,
    pub declarer_points: u8,
}

/// The card the player to move in `pos` plays: the search of `problem_for_turn` with
/// `n_samples` samples, and `choose_move` among its counts.
pub fn decide_move(
    ctx: &GameContext,
    pos: &Position,
    current_trick: &Vec<(Player, u32)>,
    facts: (Facts, Facts, Facts),
    n_samples: u32,
) -> (r: Option<(u32, Option<u32>)>)
    requires
        pos.wf(*ctx),
        ctx.threshold_upper >= 1,
        n_samples < 0x0800_0000,
    ensures
        r matches Some((card, wins)) ==> is_card(card) && subset(card, pos.legal()) && (wins
            matches Some(w) ==> w <= n_samples),
        ({
            let b = turn_builder(*ctx, *pos, current_trick@, facts.0, facts.1, facts.2, true);
            r is Some ==> b.complete() && crate::pimc_problem::concrete_feasible(b.build_spec())
        }),
{
    let problem = match problem_for_turn(ctx, pos, current_trick, facts.0, facts.1, facts.2, true) {
        Some(p) => p,
        None => {
            return None;
        },
    };
    let search = PimcSearch::new(problem, n_samples, None);
    let result = search.estimate_probability_of_all_cards();
    let chosen = choose_move(ctx, pos, &result);
    proof {
        if let Some((card, Some(w))) = chosen {
            let i = choose|i: int| 0 <= i < result@.len() && result@[i] == (card, w);
            assert(result@[i].1 <= n_samples);
        }
    }
    chosen
}

/// Playing one more legal card extends a legal play, and the position after it follows the
/// position before.
pub(crate) proof fn lemma_extend_play(
    init: Position,
    ctx: GameContext,
    moves: Seq<u32>,
    card: u32,
)
    requires
        legal_play(init, ctx, moves),
        is_card(card),
        subset(card, replay(init, ctx, moves).legal()),
    ensures
        legal_play(init, ctx, moves.push(card)),
        replay(init, ctx, moves.push(card)) == replay(init, ctx, moves).after_move(card, ctx),
{
    let m = moves.push(card);
    assert(m.drop_last() =~= moves);
    assert(replay(init, ctx, m) == replay(init, ctx, moves).after_move(card, ctx)) by {
        reveal(replay);
    }
    assert forall|i: int| 0 <= i < m.len() implies is_card(#[trigger] m[i]) && subset(
        m[i],
        replay(init, ctx, m.take(i)).legal(),
    ) by {
        if i < moves.len() {
            assert(m.take(i) =~= moves.take(i));
            assert(m[i] == moves[i]);
        } else {
            assert(m.take(i) =~= moves);
        }
    }
}

/// Records in the facts of `turn`'s hand (declarer, left, right) what its card played to
/// `lead_suit` tells.
pub fn infer_void_of(
    turn: Player,
    facts: (Facts, Facts, Facts),
    lead_suit: u32,
    card: u32,
    trump: Option<u32>,
) -> (r: (Facts, Facts, Facts))
    ensures
        r == match turn {
            Player::Declarer => (void_facts(facts.0, lead_suit, card, trump), facts.1, facts.2),
            Player::Left => (facts.0, void_facts(facts.1, lead_suit, card, trump), facts.2),
            Player::Right => (facts.0, facts.1, void_facts(facts.2, lead_suit, card, trump)),
        },
{
    let (d, l, r) = facts;
    match turn {
        Player::Declarer => (infer_void(d, lead_suit, card, trump), l, r),
        Player::Left => (d, infer_void(l, lead_suit, card, trump), r),
        Player::Right => (d, l, infer_void(r, lead_suit, card, trump)),
    }
}

/// Plays a game out from its start, each card chosen by the Monte Carlo search of the player
/// to move over the hands it cannot see (the skat counted among them): the card with the most
/// winning samples, ties broken by `tie_key`; the first legal card when the search gives no
/// estimate. What a card that does not follow suit tells is recorded for later searches. The
/// game ends when all cards are played, after the declarer's first trick in a null game, or
/// after 41 moves. There is none when a search cannot be set up for the position or names a
/// card the player may not play.
pub fn playout_with_history(true_context: GameContext, n_samples: u32) -> (r: Option<GameTrace>)
    requires
        deal_ok(true_context),
        true_context.threshold_upper >= 1,
        n_samples < 0x0800_0000,
    ensures
        r matches Some(t) ==> {
            &&& t.moves@.len() == t.win_counts@.len()
            &&& t.moves@.len() <= 41
            &&& t.sample_size == n_samples
            &&& legal_play(Position::initial_spec(true_context), true_context, t.moves@)
            &&& t.declarer_points == replay(
                Position::initial_spec(true_context),
                true_context,
                t.moves@,
            ).declarer_points
            &&& true_context.game_type != Game::Null ==> t.declarer_won == (t.declarer_points >= 61)
            &&& true_context.game_type == Game::Null ==> t.declarer_won == (t.declarer_points == 0)
            &&& true_context.game_type == Game::Null ==> forall|k: int|
                0 <= k < t.moves@.len() ==> #[trigger] replay(
                    Position::initial_spec(true_context),
                    true_context,
                    t.moves@.take(k),
                ).declarer_points == 0
            &&& forall|i: int| 0 <= i < t.win_counts@.len() ==> (#[trigger] t.win_counts@[i] matches Some(w) ==> w <= n_samples)
        },
        ({
            let init = Position::initial_spec(true_context);
            let nf = crate::pimc_problem_builder::no_facts();
            let b = turn_builder(true_context, init, seq![], nf, nf, nf, true);
            let over = init.declarer_cards == 0 && init.left_cards == 0 && init.right_cards == 0;
            &&& over ==> (r matches Some(t) && t.moves@.len() == 0)
            &&& !over && !(b.complete() && crate::pimc_problem::concrete_feasible(b.build_spec()))
                ==> r is None
        }),
{
    let ctx = true_context;
    let init = Position::create_initial_position(&ctx);
    let mut pos = init;
    let mut facts_declarer = Facts::zero_fact();
    let mut facts_left = Facts::zero_fact();
    let mut facts_right = Facts::zero_fact();
    let mut current_trick: Vec<(Player, u32)> = Vec::new();
    let mut moves_history: Vec<u32> = Vec::new();
    let mut probs_history: Vec<Option<u32>> = Vec::new();
    let mut declarer_tricks: u32 = 0;
    let mut round: u32 = 0;
    let is_null = ctx.game_type == Game::Null;
    proof {
        assert(moves_history@ =~= Seq::<u32>::empty());
        assert(replay(init, ctx, moves_history@) == init) by {
            reveal(replay);
        }
    }
    loop
        invariant_except_break
            is_null ==> pos.declarer_points == 0,
        invariant
            ctx == true_context,
            deal_ok(ctx),
            ctx.threshold_upper >= 1,
            n_samples < 0x0800_0000,
            is_null == (ctx.game_type == Game::Null),
            init == Position::initial_spec(ctx),
            pos.wf(ctx),
            pos == replay(init, ctx, moves_history@),
            legal_play(init, ctx, moves_history@),
            moves_history@.len() == probs_history@.len(),
            moves_history@.len() == round,
            round <= 41,
            declarer_tricks <= round,
            is_null ==> declarer_tricks == pos.declarer_points,
            is_null ==> forall|k: int|
                0 <= k < moves_history@.len() ==> #[trigger] replay(init, ctx, moves_history@.take(k)).declarer_points
                    == 0,
            forall|i: int| 0 <= i < probs_history@.len() ==> (#[trigger] probs_history@[i] matches Some(w) ==> w <= n_samples),
            round > 0 ==> !(init.declarer_cards == 0 && init.left_cards == 0 && init.right_cards == 0),
            round > 0 ==> ({
                let nf = crate::pimc_problem_builder::no_facts();
                let b = turn_builder(ctx, init, seq![], nf, nf, nf, true);
                b.complete() && crate::pimc_problem::concrete_feasible(b.build_spec())
            }),
            init.trick_cards == 0,
            round == 0 ==> pos == init && current_trick@ == Seq::<(Player, u32)>::empty()
                && facts_declarer == crate::pimc_problem_builder::no_facts() && facts_left
                == crate::pimc_problem_builder::no_facts() && facts_right
                == crate::pimc_problem_builder::no_facts(),
        ensures
            round > 0,
            is_null ==> declarer_tricks == pos.declarer_points,
            is_null ==> forall|k: int|
                0 <= k < moves_history@.len() ==> #[trigger] replay(init, ctx, moves_history@.take(k)).declarer_points
                    == 0,
            ctx == true_context,
            init == Position::initial_spec(ctx),
            pos == replay(init, ctx, moves_history@),
            legal_play(init, ctx, moves_history@),
            moves_history@.len() == probs_history@.len(),
            moves_history@.len() == round,
            round <= 41,
            is_null == (ctx.game_type == Game::Null),
            forall|i: int| 0 <= i < probs_history@.len() ==> (#[trigger] probs_history@[i] matches Some(w) ==> w <= n_samples),
            !(init.declarer_cards == 0 && init.left_cards == 0 && init.right_cards == 0),
            ({
                let nf = crate::pimc_problem_builder::no_facts();
                let b = turn_builder(ctx, init, seq![], nf, nf, nf, true);
                b.complete() && crate::pimc_problem::concrete_feasible(b.build_spec())
            }),
        decreases 42 - round,
    {
        if round > 40 {
            break;
        }
        if pos.declarer_cards == 0 && pos.left_cards == 0 && pos.right_cards == 0 && pos.trick_cards == 0 {
            let won = if is_null {
                declarer_tricks == 0
            } else {
                pos.declarer_points >= 61
            };
            return Some(
                GameTrace {
                    moves: moves_history,
                    win_counts: probs_history,
                    sample_size: n_samples,
                    declarer_won: won,
                    declarer_points: pos.declarer_points,
                },
            );
        }
        let turn = pos.player;
        let (best_move_card, win_count) = match decide_move(
            &ctx,
            &pos,
            &current_trick,
            (facts_declarer, facts_left, facts_right),
            n_samples,
        ) {
            Some(c) => c,
            None => {
                return None;
            },
        };
        let legal = pos.get_legal_moves();
        proof {
            crate::cards::lemma_set_algebra(best_move_card, legal, pos.player_cards);
        }
        let ghost before_moves = moves_history@;
        moves_history.push(best_move_card);
        probs_history.push(win_count);
        if pos.trick_cards != 0 {
            let lead_suit = pos.trick_suit;
            let (d, l, r) = infer_void_of(turn, (facts_declarer, facts_left, facts_right), lead_suit, best_move_card, None);
            facts_declarer = d;
            facts_left = l;
            facts_right = r;
        }
        current_trick.push((turn, best_move_card));
        let trick_finished = count_cards(pos.trick_cards) == 2;
        let next = pos.make_move(best_move_card, &ctx);
        proof {
            lemma_extend_play(init, ctx, before_moves, best_move_card);
            assert(moves_history@ == before_moves.push(best_move_card));
            assert(moves_history@.take(before_moves.len() as int) =~= before_moves);
            assert forall|k: int| 0 <= k < before_moves.len() implies moves_history@.take(k)
                =~= before_moves.take(k) by {}
            if is_null {
                assert forall|k: int| 0 <= k < moves_history@.len() implies #[trigger] replay(
                    init,
                    ctx,
                    moves_history@.take(k),
                ).declarer_points == 0 by {
                    if k < before_moves.len() {
                        assert(moves_history@.take(k) =~= before_moves.take(k));
                    }
                }
            }
        }
        pos = next;
        round = round + 1;
        if trick_finished {
            current_trick = Vec::new();
            if pos.player == Player::Declarer {
                declarer_tricks = declarer_tricks + 1;
                if is_null {
                    break;
                }
            }
        }
    }
    let won = if is_null {
        declarer_tricks == 0
    } else {
        pos.declarer_points >= 61
    };
    Some(
        GameTrace {
            moves: moves_history,
            win_counts: probs_history,
            sample_size: n_samples,
            declarer_won: won,
            declarer_points: pos.declarer_points,
        },
    )
}

/// Why a played-out game ended.
#[derive(Debug, Clone, Copy, PartialEq, Eq, Structural)]
pub enum PlayoutEnd {
    /// All cards are played.
    GameOver,
    /// The exact solver found no card for a player with full information.
    NoSolvedMove,
    /// The search gave no estimate.
    NoEstimate,
    /// The limit of moves was reached.
    MoveLimit,
    /// The search could not be set up for the position, or named a card the player may not
    /// play.
    Unsearchable,
}

/// One move of a game played out: who moved holding which cards, the points so far, what was
/// known of the right player's hand, whether the player saw all hands, the analysis (each
/// card with its value when it saw all hands, else with its number of winning samples), the
/// card played, and whether it showed a missing suit.
pub struct PlayoutStep {
    pub turn: Player,
    pub my_cards: u32,
    pub declarer_points: u8,
    pub team_points: u8,
    pub facts_right: Facts,
    pub god_mode: bool,
    pub analysis: Vec<(u32, u32)>,
    pub card: u32,
    pub inferred_void: bool,
}

/// A game played out: the card first on the table when the game started within a trick, with
/// its player; the moves; how it ended; and the points at the end.
pub struct PlayoutRecord {
    pub reconstructed: Option<(Player, u32)>,
    pub steps: Vec<PlayoutStep>,
    pub end: PlayoutEnd,
    pub declarer_points: u8,
    pub team_points: u8,
}

/// The cards played in a record's moves.
pub open spec fn step_cards(steps: Seq<PlayoutStep>) -> Seq<u32> {
    steps.map_values(|s: PlayoutStep| s.card)
}

/// The first card among the results of the highest value (`maximize`) or of the lowest.
pub fn extreme_result(results: &Vec<(u32, u32, u8)>, maximize: bool) -> (r: usize)
    requires
        results@.len() > 0,
    ensures
        r < results@.len(),
        forall|j: int|
            0 <= j < results@.len() ==> if maximize {
                (#[trigger] results@[j]).2 <= results@[r as int].2
            } else {
                results@[j].2 >= results@[r as int].2
            },
        forall|j: int|
            0 <= j < r ==> (#[trigger] results@[j]).2 != results@[r as int].2,
{
    let mut best: usize = 0;
    let mut j: usize = 1;
    while j < results.len()
        invariant
            1 <= j <= results@.len(),
            best < j,
            forall|q: int|
                0 <= q < j ==> if maximize {
                    (#[trigger] results@[q]).2 <= results@[best as int].2
                } else {
                    results@[q].2 >= results@[best as int].2
                },
            forall|q: int| 0 <= q < best ==> (#[trigger] results@[q]).2 != results@[best as int].2,
        decreases results@.len() - j,
    {
        if (maximize && results[j].2 > results[best].2) || (!maximize && results[j].2
            < results[best].2) {
            best = j;
        }
        j = j + 1;
    }
    best
}

/// Whether `p` is among `players`.
fn is_among(players: &Vec<Player>, p: Player) -> (r: bool)
    ensures
        r == players@.contains(p),
{
    let mut i: usize = 0;
    while i < players.len()
        invariant
            i <= players@.len(),
            forall|q: int| 0 <= q < i ==> players@[q] != p,
        decreases players@.len() - i,
    {
        if players[i] == p {
            proof {
                assert(players@[i as int] == p);
            }
            return true;
        }
        i = i + 1;
    }
    false
}

/// `card` is the first card among `results` of the highest value (`maximize`) or of the
/// lowest.
pub open spec fn best_of(results: Seq<(u32, u32, u8)>, card: u32, maximize: bool) -> bool {
    exists|b: int|
        0 <= b < results.len() && (#[trigger] results[b]).0 == card && (forall|j: int|
            0 <= j < results.len() ==> if maximize {
                (#[trigger] results[j]).2 <= results[b].2
            } else {
                results[j].2 >= results[b].2
            }) && (forall|j: int| 0 <= j < b ==> (#[trigger] results[j]).2 != results[b].2)
}

/// The card a player to move plays in a played-out game, with the analysis: with full
/// information the exact value of each card, and the first card of the best value for the
/// player (the most points for the declarer, the fewest for a defender); else the search's
/// winning samples per card, and the card with the most. `Err` tells how the game ends here.
fn playout_move(
    ctx: &GameContext,
    pos: &Position,
    current_trick: &Vec<(Player, u32)>,
    facts: (Facts, Facts, Facts),
    n_samples: u32,
    god: bool,
) -> (r: Result<(u32, Vec<(u32, u32)>), PlayoutEnd>)
    requires
        deal_ok(*ctx),
        pos.wf(*ctx),
        ctx.threshold_upper >= 1,
        n_samples < 0x0800_0000,
    ensures
        r matches Ok((card, _)) ==> is_card(card) && subset(card, pos.legal()),
        r matches Err(e) ==> e != PlayoutEnd::GameOver,
        god ==> (r is Err <==> pos.player_cards == 0),
        god ==> (r matches Err(e) ==> e == PlayoutEnd::NoSolvedMove),
        god ==> (r matches Ok((card, _)) ==> exists|res: Seq<(u32, u32, u8)>|
            #![trigger crate::solver::all_cards_ok(res, *pos, *ctx, 0, 120)]
            crate::solver::all_cards_ok(res, *pos, *ctx, 0, 120) && best_of(
                res,
                card,
                pos.player == Player::Declarer,
            )),
        !god ==> (r matches Err(e) ==> e == PlayoutEnd::Unsearchable || e
            == PlayoutEnd::NoEstimate),
        !god && !({
            let b = turn_builder(*ctx, *pos, current_trick@, facts.0, facts.1, facts.2, false);
            b.complete() && crate::pimc_problem::concrete_feasible(b.build_spec())
        }) ==> r == Err::<(u32, Vec<(u32, u32)>), PlayoutEnd>(PlayoutEnd::Unsearchable),
{
    let legal = pos.get_legal_moves();
    if god {
        let mut engine = crate::engine::SkatEngine::new(*ctx, None);
        let solved = crate::solver::solve_all_cards_from_position(&mut engine, pos, 0, 120);
        proof {
            if pos.player_cards == 0 {
                crate::cards::lemma_set_algebra(pos.trick_suit, 0, 0);
                assert(pos.legal() == 0);
                crate::cards::lemma_empty_set();
            } else {
                assert(pos.legal() != 0);
                if crate::cards::card_count(pos.legal()) == 0 {
                    crate::cards::lemma_count_zero(pos.legal());
                }
            }
        }
        if solved.results.len() == 0 {
            return Err(PlayoutEnd::NoSolvedMove);
        }
        let b = extreme_result(&solved.results, pos.player == Player::Declarer);
        let card = solved.results[b].0;
        let value = solved.results[b].2;
        proof {
            assert(solved.results@[b as int].0 == card);
            assert(best_of(solved.results@, card, pos.player == Player::Declarer));
        }
        Ok((card, vec![(card, value as u32)]))
    } else {
        let problem = match problem_for_turn(ctx, pos, current_trick, facts.0, facts.1, facts.2, false) {
            Some(p) => p,
            None => {
                return Err(PlayoutEnd::Unsearchable);
            },
        };
        let search = PimcSearch::new(problem, n_samples, None);
        let result = search.estimate_probability_of_all_cards();
        if result.len() == 0 {
            return Err(PlayoutEnd::NoEstimate);
        }
        let card = result[0].0;
        if !(crate::cards::single_card(card) && (card & legal) == card) {
            return Err(PlayoutEnd::Unsearchable);
        }
        Ok((card, result))
    }
}

/// A move made with full information plays a card of the best exact value among all cards
/// of the position it was made in.
pub open spec fn god_step_ok(init: Position, ctx: GameContext, steps: Seq<PlayoutStep>, i: int) -> bool {
    let p = replay(init, ctx, step_cards(steps).take(i));
    steps[i].god_mode ==> exists|res: Seq<(u32, u32, u8)>|
        #![trigger crate::solver::all_cards_ok(res, p, ctx, 0, 120)]
        crate::solver::all_cards_ok(res, p, ctx, 0, 120) && best_of(
            res,
            steps[i].card,
            p.player == Player::Declarer,
        )
}

/// The moves made with full information stay best when a move is added.
proof fn lemma_extend_god_steps(
    init: Position,
    ctx: GameContext,
    before: Seq<PlayoutStep>,
    after: Seq<PlayoutStep>,
)
    requires
        after.len() == before.len() + 1,
        forall|i: int| 0 <= i < before.len() ==> after[i] == before[i],
        forall|i: int| 0 <= i < before.len() ==> #[trigger] god_step_ok(init, ctx, before, i),
        god_step_ok(init, ctx, after, before.len() as int),
    ensures
        forall|i: int| 0 <= i < after.len() ==> #[trigger] god_step_ok(init, ctx, after, i),
{
    assert forall|i: int| 0 <= i < after.len() implies #[trigger] god_step_ok(init, ctx, after, i) by {
        if i < before.len() {
            assert(step_cards(after).take(i) =~= step_cards(before).take(i));
            assert(after[i] == before[i]);
            assert(god_step_ok(init, ctx, before, i));
        }
    }
}

/// What each recorded move says of the position it was made in stays true when a move is
/// added.
proof fn lemma_extend_steps(
    init: Position,
    ctx: GameContext,
    before: Seq<PlayoutStep>,
    after: Seq<PlayoutStep>,
    gods: Seq<Player>,
)
    requires
        after.len() == before.len() + 1,
        forall|i: int| 0 <= i < before.len() ==> after[i] == before[i],
        after.last().turn == replay(init, ctx, step_cards(before)).player,
        after.last().my_cards == replay(init, ctx, step_cards(before)).player_cards,
        after.last().god_mode == gods.contains(replay(init, ctx, step_cards(before)).player),
        forall|i: int|
            0 <= i < before.len() ==> {
                let p = replay(init, ctx, step_cards(before).take(i));
                &&& (#[trigger] before[i]).turn == p.player
                &&& before[i].my_cards == p.player_cards
                &&& before[i].god_mode == gods.contains(p.player)
            },
    ensures
        forall|i: int|
            0 <= i < after.len() ==> {
                let p = replay(init, ctx, step_cards(after).take(i));
                &&& (#[trigger] after[i]).turn == p.player
                &&& after[i].my_cards == p.player_cards
                &&& after[i].god_mode == gods.contains(p.player)
            },
{
    assert forall|i: int| 0 <= i < after.len() implies {
        let p = replay(init, ctx, step_cards(after).take(i));
        &&& (#[trigger] after[i]).turn == p.player
        &&& after[i].my_cards == p.player_cards
        &&& after[i].god_mode == gods.contains(p.player)
    } by {
        if i < before.len() {
            assert(step_cards(after).take(i) =~= step_cards(before).take(i));
            assert(after[i] == before[i]);
        } else {
            assert(step_cards(after).take(i) =~= step_cards(before));
        }
    }
}

/// Plays a game out from its start and records each move for showing: the players in
/// `god_players` see all hands and play the card of the best exact value; the others play the
/// card with the most winning samples of their Monte Carlo search over the hands they cannot
/// see. What a card that does not follow suit tells (trump first) is recorded for later
/// searches. When the game starts with one card on the table, it is taken as the previous
/// player's. The game ends when all cards are played, when no card is found, or after 36
/// moves.
pub fn playout(true_context: GameContext, n_samples: u32, god_players: &Vec<Player>) -> (r: PlayoutRecord)
    requires
        deal_ok(true_context),
        true_context.threshold_upper >= 1,
        n_samples < 0x0800_0000,
    ensures
        r.steps@.len() <= 36,
        legal_play(Position::initial_spec(true_context), true_context, step_cards(r.steps@)),
        forall|i: int|
            0 <= i < r.steps@.len() ==> {
                let p = replay(
                    Position::initial_spec(true_context),
                    true_context,
                    step_cards(r.steps@).take(i),
                );
                &&& (#[trigger] r.steps@[i]).turn == p.player
                &&& r.steps@[i].my_cards == p.player_cards
                &&& r.steps@[i].god_mode == god_players@.contains(p.player)
            },
        r.declarer_points == replay(
            Position::initial_spec(true_context),
            true_context,
            step_cards(r.steps@),
        ).declarer_points,
        r.end == PlayoutEnd::GameOver ==> replay(
            Position::initial_spec(true_context),
            true_context,
            step_cards(r.steps@),
        ).remaining() == 0,
        forall|i: int|
            0 <= i < r.steps@.len() ==> #[trigger] god_step_ok(
                Position::initial_spec(true_context),
                true_context,
                r.steps@,
                i,
            ),
        ({
            let last = replay(Position::initial_spec(true_context), true_context, step_cards(r.steps@));
            &&& r.end == PlayoutEnd::NoSolvedMove ==> last.player_cards == 0
                && god_players@.contains(last.player)
            &&& (r.end == PlayoutEnd::Unsearchable || r.end == PlayoutEnd::NoEstimate)
                ==> !god_players@.contains(last.player)
        }),
{
    let ctx = true_context;
    let init = Position::create_initial_position(&ctx);
    let mut pos = init;
    let mut facts_declarer = Facts::zero_fact();
    let mut facts_left = Facts::zero_fact();
    let mut facts_right = Facts::zero_fact();
    let mut current_trick: Vec<(Player, u32)> = Vec::new();
    let mut reconstructed: Option<(Player, u32)> = None;
    if pos.trick_cards != 0 && count_cards(pos.trick_cards) == 1 {
        let prev_player = match pos.player {
            Player::Declarer => Player::Right,
            Player::Left => Player::Declarer,
            Player::Right => Player::Left,
        };
        let (cards, _) = pos.trick_cards.__decompose();
        let card = cards[0];
        current_trick.push((prev_player, card));
        reconstructed = Some((prev_player, card));
    }
    let trump = ctx.game_type.get_trump();
    let mut steps: Vec<PlayoutStep> = Vec::new();
    let mut end = PlayoutEnd::MoveLimit;
    let mut round: u32 = 1;
    proof {
        assert(step_cards(steps@) =~= Seq::<u32>::empty());
        assert(replay(init, ctx, step_cards(steps@)) == init) by {
            reveal(replay);
        }
    }
    loop
        invariant_except_break
            end == PlayoutEnd::MoveLimit,
        invariant
            ctx == true_context,
            deal_ok(ctx),
            ctx.threshold_upper >= 1,
            n_samples < 0x0800_0000,
            init == Position::initial_spec(ctx),
            pos.wf(ctx),
            pos == replay(init, ctx, step_cards(steps@)),
            legal_play(init, ctx, step_cards(steps@)),
            steps@.len() + 1 == round,
            round <= 37,
            forall|i: int|
                0 <= i < steps@.len() ==> {
                    let p = replay(init, ctx, step_cards(steps@).take(i));
                    &&& (#[trigger] steps@[i]).turn == p.player
                    &&& steps@[i].my_cards == p.player_cards
                    &&& steps@[i].god_mode == god_players@.contains(p.player)
                },
            end == PlayoutEnd::GameOver ==> pos.remaining() == 0,
            forall|i: int| 0 <= i < steps@.len() ==> #[trigger] god_step_ok(init, ctx, steps@, i),
            end == PlayoutEnd::NoSolvedMove ==> pos.player_cards == 0 && god_players@.contains(
                pos.player,
            ),
            (end == PlayoutEnd::Unsearchable || end == PlayoutEnd::NoEstimate)
                ==> !god_players@.contains(pos.player),
        decreases 37 - round,
    {
        if round > 36 {
            break;
        }
        if pos.declarer_cards == 0 && pos.left_cards == 0 && pos.right_cards == 0 && pos.trick_cards == 0 {
            end = PlayoutEnd::GameOver;
            proof {
                crate::cards::lemma_set_algebra(0, 0, 0);
            }
            break;
        }
        let turn = pos.player;
        let god = is_among(god_players, turn);
        let (card, analysis) = match playout_move(
            &ctx,
            &pos,
            &current_trick,
            (facts_declarer, facts_left, facts_right),
            n_samples,
            god,
        ) {
            Ok(m) => m,
            Err(e) => {
                end = e;
                break;
            },
        };
        let mut inferred_void = false;
        if pos.trick_cards != 0 {
            let lead_suit = pos.trick_suit;
            inferred_void = (card & lead_suit) == 0;
            let (d, l, r) = infer_void_of(
                turn,
                (facts_declarer, facts_left, facts_right),
                lead_suit,
                card,
                Some(trump),
            );
            facts_declarer = d;
            facts_left = l;
            facts_right = r;
        }
        let step = PlayoutStep {
            turn,
            my_cards: pos.player_cards,
            declarer_points: pos.declarer_points,
            team_points: pos.team_points,
            facts_right,
            god_mode: god,
            analysis,
            card,
            inferred_void,
        };
        let ghost before = steps@;
        steps.push(step);
        current_trick.push((turn, card));
        if pos.trick_cards_count == 2 {
            current_trick = Vec::new();
        }
        let legal = pos.get_legal_moves();
        proof {
            crate::cards::lemma_set_algebra(card, legal, pos.player_cards);
        }
        let next = pos.make_move(card, &ctx);
        proof {
            assert(step_cards(steps@) =~= step_cards(before).push(card));
            lemma_extend_play(init, ctx, step_cards(before), card);
            lemma_extend_steps(init, ctx, before, steps@, god_players@);
            assert(step_cards(steps@).take(before.len() as int) =~= step_cards(before));
            assert(steps@[before.len() as int] == step);
            lemma_extend_god_steps(init, ctx, before, steps@);
        }
        pos = next;
        round = round + 1;
    }
    PlayoutRecord {
        reconstructed,
        steps,
        end,
        declarer_points: pos.declarer_points,
        team_points: pos.team_points,
    }
}

} // verus!


