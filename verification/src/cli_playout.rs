//! Helpers of the playouts that compare the Monte Carlo player with perfect play: the perfect
//! line of play itself, what a card off suit tells of a hand, and whether a card would take
//! the trick.
use vstd::prelude::*;
use crate::cards::{bit, card_count, has_card, is_card, subset};
use crate::consts::{CLUBS, DIAMONDS, EIGHTS, HEARTS, JACKS, KINGS, NINES, NULL_CLUBS, NULL_DIAMONDS, NULL_HEARTS, NULL_SPADES, QUEENS, SEVENS, SPADES, TENS};
use crate::context::{deal_ok, GameContext};
use crate::defs::{trump_of, Game, Player};
use crate::engine::SkatEngine;
use crate::facts::Facts;
use crate::position::Position;
use crate::rules::{get_suit_for_card, suit_for_card};
use crate::solver::{solve_optimum_from_position, OptimumMode};
use crate::pimc_playout::{legal_play, replay};

verus! {

/// The highest card of `x` among the bit indices up to `k`, or 0.
pub open spec fn top_from(x: u32, k: int) -> u32
    decreases k + 1,
{
    if k < 0 {
        0
    } else if has_card(x, k) {
        bit(k)
    } else {
        top_from(x, k - 1)
    }
}

/// The highest card of `x` as a one-card set (0 for no card).
pub fn highest_bit(x: u32) -> (r: u32)
    ensures
        r == top_from(x, 31),
{
    let mut k: u32 = 32;
    while k > 0
        invariant
            k <= 32,
            top_from(x, 31) == top_from(x, k - 1),
        decreases k,
    {
        let c = 1u32 << (k - 1);
        if (x & c) != 0 {
            proof {
                assert(has_card(x, k - 1));
            }
            return c;
        }
        proof {
            assert(!has_card(x, k - 1));
        }
        k = k - 1;
    }
    0
}

/// Whether `candidate` would take the trick as its third card, after the two cards `trick`
/// to the suit led `suit`: over a trump in the trick only a higher trump; else any trump;
/// else a card of the suit led above the highest one in the trick (or the only one of it).
pub open spec fn wins_as_third(candidate: u32, trick: u32, suit: u32, game: Game) -> bool {
    let trump = trump_of(game);
    if trick == 0 {
        false
    } else if trick & trump != 0 {
        candidate & trump != 0 && candidate > top_from(trick & trump, 31)
    } else if candidate & trump != 0 {
        true
    } else if candidate & suit == 0 {
        false
    } else if trick & suit == 0 {
        true
    } else {
        candidate > top_from(trick & suit, 31)
    }
}

/// Whether `candidate_card` would take the trick as its third card (see `wins_as_third`).
pub fn would_win_trick_regular(
    candidate_card: u32,
    trick_cards_so_far: u32,
    trick_suit: u32,
    game_type: Game,
) -> (r: bool)
    ensures
        r == wins_as_third(candidate_card, trick_cards_so_far, trick_suit, game_type),
{
    if trick_cards_so_far == 0 {
        return false;
    }
    let trump = game_type.get_trump();
    let is_trump_played = (trick_cards_so_far & trump) != 0;
    let candidate_is_trump = (candidate_card & trump) != 0;
    if is_trump_played {
        if !candidate_is_trump {
            return false;
        }
        let trump_in_trick = trick_cards_so_far & trump;
        return candidate_card > highest_bit(trump_in_trick);
    }
    if candidate_is_trump {
        return true;
    }
    let candidate_in_lead = (candidate_card & trick_suit) != 0;
    if !candidate_in_lead {
        return false;
    }
    let lead_in_trick = trick_cards_so_far & trick_suit;
    if lead_in_trick == 0 {
        return true;
    }
    candidate_card > highest_bit(lead_in_trick)
}

/// The rank of a card in a null game, from 1 for a seven to 8 for an ace: seven, eight, nine,
/// jack, queen, king, ten, ace as the masks are checked in that order.
pub open spec fn null_order(card: u32) -> u8 {
    if card & SEVENS != 0 {
        1
    } else if card & EIGHTS != 0 {
        2
    } else if card & NINES != 0 {
        3
    } else if card & JACKS != 0 {
        4
    } else if card & QUEENS != 0 {
        5
    } else if card & KINGS != 0 {
        6
    } else if card & TENS != 0 {
        7
    } else {
        8
    }
}

/// The rank of a card in a null game (see `null_order`).
pub fn null_rank(card: u32) -> (r: u8)
    ensures
        r == null_order(card),
{
    if (card & SEVENS) != 0 {
        1
    } else if (card & EIGHTS) != 0 {
        2
    } else if (card & NINES) != 0 {
        3
    } else if (card & JACKS) != 0 {
        4
    } else if (card & QUEENS) != 0 {
        5
    } else if (card & KINGS) != 0 {
        6
    } else if (card & TENS) != 0 {
        7
    } else {
        8
    }
}

/// The null-game suit of a card, with its jack: none for no card of the four suits.
pub open spec fn null_suit_of(card: u32) -> u32 {
    if card & NULL_CLUBS != 0 {
        NULL_CLUBS
    } else if card & NULL_SPADES != 0 {
        NULL_SPADES
    } else if card & NULL_HEARTS != 0 {
        NULL_HEARTS
    } else if card & NULL_DIAMONDS != 0 {
        NULL_DIAMONDS
    } else {
        0
    }
}

/// Whether `card` would take the trick from `trick_best_card` in a null game: it follows the
/// suit of the best card and ranks above it; never for the leading player.
pub open spec fn wins_null(card: u32, trick_lead_suit: u32, trick_best_card: u32) -> bool {
    if trick_lead_suit == 0 || trick_best_card == 0 {
        false
    } else if null_suit_of(trick_best_card) == 0 {
        false
    } else {
        card & null_suit_of(trick_best_card) != 0 && null_order(card) > null_order(trick_best_card)
    }
}

/// Whether `card` would take the trick in a null game (see `wins_null`).
pub fn would_win_trick_null(card: u32, trick_lead_suit: u32, trick_best_card: u32) -> (r: bool)
    ensures
        r == wins_null(card, trick_lead_suit, trick_best_card),
{
    if trick_lead_suit == 0 || trick_best_card == 0 {
        return false;
    }
    let lead_suit_mask = if (trick_best_card & NULL_CLUBS) != 0 {
        NULL_CLUBS
    } else if (trick_best_card & NULL_SPADES) != 0 {
        NULL_SPADES
    } else if (trick_best_card & NULL_HEARTS) != 0 {
        NULL_HEARTS
    } else if (trick_best_card & NULL_DIAMONDS) != 0 {
        NULL_DIAMONDS
    } else {
        return false;
    };
    if (card & lead_suit_mask) == 0 {
        return false;
    }
    null_rank(card) > null_rank(trick_best_card)
}

/// What is known of the three hands in a playout.
pub struct FactsTracker {
    pub declarer: Facts,
    pub left: Facts,
    pub right: Facts,
}

/// What a card of another suit than the one led tells of its player's hand: it lacks the
/// trump when trump was led, else the plain suit led (checked in the order clubs, spades,
/// hearts, diamonds).
pub open spec fn facts_after(facts: Facts, card: u32, trick_suit: u32, game: Game) -> Facts {
    if trick_suit == 0 || suit_for_card(card, game) == trick_suit {
        facts
    } else if trick_suit == trump_of(game) {
        Facts { no_trump: true, ..facts }
    } else if trick_suit & CLUBS != 0 {
        Facts { no_clubs: true, ..facts }
    } else if trick_suit & SPADES != 0 {
        Facts { no_spades: true, ..facts }
    } else if trick_suit & HEARTS != 0 {
        Facts { no_hearts: true, ..facts }
    } else if trick_suit & DIAMONDS != 0 {
        Facts { no_diamonds: true, ..facts }
    } else {
        facts
    }
}

impl FactsTracker {
    /// Nothing known of any hand.
    pub fn new() -> (r: FactsTracker)
        ensures
            r.declarer == crate::pimc_problem_builder::no_facts() && r.left
                == crate::pimc_problem_builder::no_facts() && r.right
                == crate::pimc_problem_builder::no_facts(),
    {
        FactsTracker { declarer: Facts::zero_fact(), left: Facts::zero_fact(), right: Facts::zero_fact() }
    }

    /// Records what `played_card` of `player` to `trick_suit` tells (see `facts_after`).
    pub fn update_voids(&mut self, played_card: u32, player: Player, trick_suit: u32, game_type: Game)
        ensures
            final(self).declarer == if player == Player::Declarer {
                facts_after(old(self).declarer, played_card, trick_suit, game_type)
            } else {
                old(self).declarer
            },
            final(self).left == if player == Player::Left {
                facts_after(old(self).left, played_card, trick_suit, game_type)
            } else {
                old(self).left
            },
            final(self).right == if player == Player::Right {
                facts_after(old(self).right, played_card, trick_suit, game_type)
            } else {
                old(self).right
            },
    {
        if trick_suit == 0 {
            return;
        }
        let card_suit = get_suit_for_card(played_card, game_type);
        if card_suit != trick_suit {
            let mut facts = match player {
                Player::Declarer => self.declarer,
                Player::Left => self.left,
                Player::Right => self.right,
            };
            let trump = game_type.get_trump();
            if trick_suit == trump {
                facts.no_trump = true;
            } else if (trick_suit & CLUBS) != 0 {
                facts.no_clubs = true;
            } else if (trick_suit & SPADES) != 0 {
                facts.no_spades = true;
            } else if (trick_suit & HEARTS) != 0 {
                facts.no_hearts = true;
            } else if (trick_suit & DIAMONDS) != 0 {
                facts.no_diamonds = true;
            }
            match player {
                Player::Declarer => self.declarer = facts,
                Player::Left => self.left = facts,
                Player::Right => self.right = facts,
            }
        }
    }
}

/// The plays of the tricks, one after the other.
pub open spec fn flat_plays(tricks: Seq<Vec<(Player, u32)>>) -> Seq<(Player, u32)>
    decreases tricks.len(),
{
    if tricks.len() == 0 {
        seq![]
    } else {
        flat_plays(tricks.drop_last()) + tricks.last()@
    }
}

/// The cards of the plays.
pub open spec fn played_cards(plays: Seq<(Player, u32)>) -> Seq<u32> {
    plays.map_values(|e: (Player, u32)| e.1)
}

/// The plays, from `init` on, are cards that their players may play, each by the player to
/// move at its turn.
pub open spec fn plays_legal(init: Position, ctx: GameContext, plays: Seq<(Player, u32)>) -> bool {
    &&& legal_play(init, ctx, played_cards(plays))
    &&& forall|i: int|
        0 <= i < plays.len() ==> (#[trigger] plays[i]).0 == replay(
            init,
            ctx,
            played_cards(plays).take(i),
        ).player
}

/// The result of a game at `pos`: in a null game 1 when the declarer took a trick, else 0;
/// in other games the declarer's points.
pub open spec fn game_result(ctx: GameContext, pos: Position) -> int {
    if ctx.game_type == Game::Null {
        if pos.declarer_points > 0 {
            1
        } else {
            0
        }
    } else {
        pos.declarer_points as int
    }
}

/// The game played out with all hands known, each player playing the first card of the best
/// value: the tricks in order, and the result (the declarer's points; in a null game 1 when
/// the declarer took a trick, which ends the game, else 0).
pub struct PerfectPlay {
    pub tricks: Vec<Vec<(Player, u32)>>,
    pub result: i16,
}

/// Plays the game of `ctx` out with perfect play on all sides (see `PerfectPlay`); each card
/// played is one the player to move may play, by that player, and the result is that of the
/// position after the plays (with the cards of an unfinished last trick, if any).
pub fn run_perfect_play(ctx: &GameContext) -> (r: PerfectPlay)
    requires
        deal_ok(*ctx),
    ensures
        r.result >= 0,
        ctx.game_type == Game::Null ==> r.result <= 1,
        r.tricks@.len() <= 11,
        forall|k: int| 0 <= k < r.tricks@.len() ==> (#[trigger] r.tricks@[k])@.len() == 3,
        exists|rest: Seq<(Player, u32)>|
            #![trigger flat_plays(r.tricks@) + rest]
            {
                &&& rest.len() < 3
                &&& plays_legal(Position::initial_spec(*ctx), *ctx, flat_plays(r.tricks@) + rest)
                &&& r.result == game_result(
                    *ctx,
                    replay(
                        Position::initial_spec(*ctx),
                        *ctx,
                        played_cards(flat_plays(r.tricks@) + rest),
                    ),
                )
            },
{
    let mut engine = SkatEngine::new(*ctx, None);
    let mut position = engine.create_initial_position();
    let mut trick_buf: Vec<(Player, u32)> = Vec::new();
    let mut tricks: Vec<Vec<(Player, u32)>> = Vec::new();
    let ghost init = position;
    let ghost mut plays: Seq<(Player, u32)> = seq![];
    let ghost n0 = card_count(position.hands());
    proof {
        crate::cards::lemma_bounds(position.hands());
        assert(played_cards(plays) =~= seq![]);
        assert(replay(init, *ctx, seq![]) == init) by {
            reveal(replay);
        }
    }
    while position.get_legal_moves() != 0
        invariant
            engine.wf(),
            engine.context == *ctx,
            position.wf(*ctx),
            trick_buf@.len() < 3,
            n0 <= 32,
            tricks@.len() * 3 + trick_buf@.len() + card_count(position.hands()) == n0,
            init == Position::initial_spec(*ctx),
            forall|k: int| 0 <= k < tricks@.len() ==> (#[trigger] tricks@[k])@.len() == 3,
            plays == flat_plays(tricks@) + trick_buf@,
            plays_legal(init, *ctx, plays),
            position == replay(init, *ctx, played_cards(plays)),
        decreases card_count(position.hands()),
    {
        let best_card = match solve_optimum_from_position(&mut engine, &position, OptimumMode::BestValue) {
            Ok((card, _, _)) => card,
            Err(_) => {
                break;
            },
        };
        proof {
            crate::cards::lemma_set_algebra(best_card, position.legal(), position.player_cards);
            let cards = played_cards(plays);
            let e = (position.player, best_card);
            let np = plays.push(e);
            assert(played_cards(np) =~= cards.push(best_card));
            crate::pimc_playout::lemma_extend_play(init, *ctx, cards, best_card);
            assert forall|i: int| 0 <= i < np.len() implies (#[trigger] np[i]).0 == replay(
                init,
                *ctx,
                played_cards(np).take(i),
            ).player by {
                if i < plays.len() {
                    assert(played_cards(np).take(i) =~= cards.take(i));
                    assert(np[i] == plays[i]);
                } else {
                    assert(played_cards(np).take(i) =~= cards);
                }
            }
            plays = np;
        }
        trick_buf.push((position.player, best_card));
        position = position.make_move(best_card, ctx);
        if trick_buf.len() == 3 {
            let ghost buf = trick_buf;
            let ghost old_tricks = tricks@;
            tricks.push(trick_buf);
            trick_buf = Vec::new();
            proof {
                assert(tricks@.drop_last() =~= old_tricks);
                assert(flat_plays(tricks@) == flat_plays(old_tricks) + buf@);
                assert(plays =~= flat_plays(tricks@) + trick_buf@);
            }
            if ctx.game_type == Game::Null && position.declarer_points > 0 {
                break;
            }
        }
    }
    proof {
        crate::cards::lemma_bounds(position.hands());
    }
    let result: i16 = if ctx.game_type == Game::Null {
        if position.declarer_points > 0 {
            1
        } else {
            0
        }
    } else {
        position.declarer_points as i16
    };
    let r = PerfectPlay { tricks, result };
    proof {
        let rest = trick_buf@;
        assert(flat_plays(r.tricks@) + rest == plays);
        assert(rest.len() < 3);
        assert(plays_legal(init, *ctx, flat_plays(r.tricks@) + rest));
        assert(r.result == game_result(
            *ctx,
            replay(init, *ctx, played_cards(flat_plays(r.tricks@) + rest)),
        ));
    }
    r
}

} // verus!
