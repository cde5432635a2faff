//! A game seen by one player: the own hand, the cards on the table, the cards still in play,
//! and what is known of the other hands; and the dealing of one concrete game from it.
use vstd::prelude::*;
use crate::builder::{
    cancel_cards_with_facts, cancel_spec, deal_feasible, hand_target, next_candidates, others_pool, prev_candidates,
    GameContextBuilder,
};
use crate::cards::{card_count, count_cards, is_card, lemma_set_algebra, single_card, subset};
use crate::consts::{CLUBS, DIAMONDS, HEARTS, SPADES};
use crate::context::GameContext;
use crate::convert::{text_cards, BitConverter};
use crate::defs::{Game, Player, next_of, prev_of, trump_of};
use crate::facts::Facts;
use crate::rules::{cards_for_player, suit_for_card};

verus! {

/// A game seen by `my_player`, who is to play: the own hand, the card the previous player and
/// the card the next player put on the table, all cards still in play, the threshold, what
/// is known of the two other hands, the declarer's points so far, and the skat if known.
#[derive(Clone, Copy)]
pub struct PimcProblem {
    pub game_type: Game,
    pub my_player: Player,
    pub my_cards: u32,
    pub previous_card: u32,
    pub next_card: u32,
    pub all_cards: u32,
    pub threshold: u8,
    pub facts_previous_player: Facts,
    pub facts_next_player: Facts,
    pub declarer_start_points: u8,
    pub skat_cards: Option<u32>,
}

/// The suit a card belongs to in the game: the trump cards, or the card's suit without trump.
pub open spec fn suit_mask(game: Game, card: u32) -> u32 {
    let trump = trump_of(game);
    if card & trump != 0 {
        trump
    } else if card & CLUBS != 0 {
        CLUBS & !trump
    } else if card & SPADES != 0 {
        SPADES & !trump
    } else if card & HEARTS != 0 {
        HEARTS & !trump
    } else if card & DIAMONDS != 0 {
        DIAMONDS & !trump
    } else {
        0
    }
}

/// The facts after a player did not follow the suit `lead_mask`: void in trump, or in the
/// first suit the mask meets.
pub open spec fn void_in(facts: Facts, lead_mask: u32, game: Game) -> Facts {
    if lead_mask & trump_of(game) != 0 {
        Facts { no_trump: true, ..facts }
    } else if lead_mask & CLUBS != 0 {
        Facts { no_clubs: true, ..facts }
    } else if lead_mask & SPADES != 0 {
        Facts { no_spades: true, ..facts }
    } else if lead_mask & HEARTS != 0 {
        Facts { no_hearts: true, ..facts }
    } else if lead_mask & DIAMONDS != 0 {
        Facts { no_diamonds: true, ..facts }
    } else {
        facts
    }
}

/// The problem after `player` played `played` that did not follow the card led: that
/// player's facts record the void. Nothing is learnt when no card was led before, or when
/// the card followed suit.
#[verifier::opaque]
pub open spec fn infer_spec(p: PimcProblem, played: u32, player: Player) -> PimcProblem {
    let lead = if p.next_card != 0 {
        p.next_card
    } else {
        p.previous_card
    };
    let mask = suit_mask(p.game_type, lead);
    if lead == 0 || played & mask != 0 {
        p
    } else if player == prev_of(p.my_player) {
        PimcProblem {
            facts_previous_player: void_in(p.facts_previous_player, mask, p.game_type),
            ..p
        }
    } else {
        PimcProblem { facts_next_player: void_in(p.facts_next_player, mask, p.game_type), ..p }
    }
}

/// The cards the other players' hands are dealt from: all cards in play, without the skat
/// when I am the declarer and know it.
pub open spec fn pool_spec(p: PimcProblem) -> u32 {
    if p.my_player == Player::Declarer && p.skat_cards is Some {
        p.all_cards & !p.skat_cards->0
    } else {
        p.all_cards
    }
}

/// A concrete game can be dealt: the cards on the table are single cards of different
/// players, none in my hand, and the known facts leave enough cards for both other hands.
pub open spec fn concrete_feasible(p: PimcProblem) -> bool {
    &&& (p.previous_card == 0 || is_card(p.previous_card))
    &&& (p.next_card == 0 || is_card(p.next_card))
    &&& p.previous_card & p.next_card == 0
    &&& p.my_cards & (p.previous_card | p.next_card) == 0
    &&& deal_feasible(
        pool_spec(p),
        p.previous_card,
        p.next_card,
        p.my_cards,
        p.facts_next_player,
        p.facts_previous_player,
        p.game_type,
    )
}

/// Why `validate_all_cards` rejects a problem.
#[verifier::external_body]
fn card_count_message(count: u32) -> String {
    format!("Invalid card count: {}. Must be 32 or divisible by 3 (or 3k+2 for Skat).", count)
}

/// Makes an owned string of a string literal.
fn owned(s: &str) -> (r: String)
    ensures
        r@ == s@,
{
    s.to_owned()
}

/// The problem after `player` played `played`: the card leaves the cards in play; a defender
/// who did not follow suit is known to be void in it; the card lands on the table or leaves my
/// hand; and the turn passes on.
pub open spec fn advance_spec(p: PimcProblem, played: u32, player: Player) -> PimcProblem {
    let a = PimcProblem { all_cards: p.all_cards & !played, ..p };
    let b = if player != p.my_player {
        infer_spec(a, played, player)
    } else {
        a
    };
    let c = place_spec(p.my_player, b, played, player);
    PimcProblem { my_player: next_of(c.my_player), ..c }
}

/// The played card lands on the table in the slot of the player who played it, or leaves my
/// hand.
pub open spec fn place_spec(me: Player, b: PimcProblem, played: u32, player: Player) -> PimcProblem {
    if player == prev_of(me) {
        PimcProblem { previous_card: played, ..b }
    } else if player == next_of(me) {
        PimcProblem { next_card: played, ..b }
    } else if b.my_cards & played != 0 {
        PimcProblem { my_cards: b.my_cards & !played, ..b }
    } else {
        b
    }
}

/// The set of the cards named in a text.
fn card_of_text(s: &String) -> (r: u32)
    ensures
        r == text_cards(vstd::utf8::encode_utf8(s@)),
{
    s.as_str().__bit()
}

impl PimcProblem {
    /// The problem after `player` played the card named in `played_card_str`: the card leaves
    /// the cards in play; a defender who did not follow suit is known to be void in it; the card
    /// lands on the table or leaves my hand; and the turn passes on.
    pub fn advance(&self, played_card_str: String, player: Player) -> (r: PimcProblem)
        ensures
            r == advance_spec(*self, text_cards(vstd::utf8::encode_utf8(played_card_str@)), player),
    {
        let played_card = card_of_text(&played_card_str);
        self.advance_card(played_card, player)
    }

    /// The problem after `player` played `played_card`.
    fn advance_card(&self, played_card: u32, player: Player) -> (r: PimcProblem)
        ensures
            r == advance_spec(*self, played_card, player),
    {
        let mut ret = *self;
        ret.all_cards = ret.all_cards & !played_card;
        let ghost a = ret;
        if player != self.my_player {
            ret.infer_facts(played_card, player);
        }
        let ghost b = ret;
        let prev = self.my_player.dec();
        let next = self.my_player.inc();
        let c = self.place_card(ret, played_card, player, prev, next);
        let mut d = c;
        d.my_player = c.my_player.inc();
        proof {
            assert(a == PimcProblem { all_cards: self.all_cards & !played_card, ..*self });
            assert(b == if player != self.my_player {
                infer_spec(a, played_card, player)
            } else {
                a
            });
        }
        d
    }

    /// Puts the played card on the table, or takes it from my hand.
    fn place_card(&self, b: PimcProblem, played: u32, player: Player, prev: Player, next: Player)
        -> (c: PimcProblem)
        requires
            prev == prev_of(self.my_player),
            next == next_of(self.my_player),
            b.my_player == self.my_player,
        ensures
            c == place_spec(self.my_player, b, played, player),
    {
        let mut ret = b;
        if player == prev {
            ret.previous_card = played;
        } else if player == next {
            ret.next_card = played;
        } else {
            if (ret.my_cards & played) != 0 {
                ret.my_cards = ret.my_cards & !played;
            }
        }
        ret
    }

    /// Records what a card that did not follow suit shows of the player's hand.
    fn infer_facts(&mut self, played_card: u32, player: Player)
        ensures
            *final(self) == infer_spec(*old(self), played_card, player),
            *final(self) == (PimcProblem {
                facts_previous_player: final(self).facts_previous_player,
                facts_next_player: final(self).facts_next_player,
                ..*old(self)
            }),
    {
        proof {
            reveal(infer_spec);
        }
        let lead_card = if self.next_card != 0 {
            self.next_card
        } else {
            self.previous_card
        };
        if lead_card == 0 {
            return;
        }
        let lead_mask = self.get_suit_mask(lead_card);
        if (played_card & lead_mask) != 0 {
            return;
        }
        let mut facts = if player == self.my_player.dec() {
            self.facts_previous_player
        } else {
            self.facts_next_player
        };
        let trump = self.game_type.get_trump();
        if (lead_mask & trump) != 0 {
            facts.no_trump = true;
        } else {
            if (lead_mask & CLUBS) != 0 {
                facts.no_clubs = true;
            } else if (lead_mask & SPADES) != 0 {
                facts.no_spades = true;
            } else if (lead_mask & HEARTS) != 0 {
                facts.no_hearts = true;
            } else if (lead_mask & DIAMONDS) != 0 {
                facts.no_diamonds = true;
            }
        }
        if player == self.my_player.dec() {
            self.facts_previous_player = facts;
        } else {
            self.facts_next_player = facts;
        }
    }

    /// The suit of a card in this game.
    fn get_suit_mask(&self, card: u32) -> (r: u32)
        ensures
            r == suit_mask(self.game_type, card),
    {
        let trump = self.game_type.get_trump();
        if (card & trump) != 0 {
            return trump;
        }
        let suits: [u32; 4] = [CLUBS, SPADES, HEARTS, DIAMONDS];
        let mut i: usize = 0;
        while i < 4
            invariant
                i <= 4,
                suits@ == seq![CLUBS, SPADES, HEARTS, DIAMONDS],
                card & trump == 0,
                trump == trump_of(self.game_type),
                forall|j: int| 0 <= j < i ==> card & #[trigger] suits@[j] == 0,
            decreases 4 - i,
        {
            let s = suits[i];
            if (card & s) != 0 {
                return s & !trump;
            }
            i = i + 1;
        }
        0
    }

    pub fn game_type(&self) -> (r: Game)
        ensures
            r == self.game_type,
    {
        self.game_type
    }

    pub fn my_player(&self) -> (r: Player)
        ensures
            r == self.my_player,
    {
        self.my_player
    }

    pub fn my_cards(&self) -> (r: u32)
        ensures
            r == self.my_cards,
    {
        self.my_cards
    }

    pub fn previous_card(&self) -> (r: u32)
        ensures
            r == self.previous_card,
    {
        self.previous_card
    }

    pub fn next_card(&self) -> (r: u32)
        ensures
            r == self.next_card,
    {
        self.next_card
    }

    /// The cards on the table.
    pub fn cards_on_table(&self) -> (r: u32)
        ensures
            r == self.previous_card | self.next_card,
    {
        self.previous_card | self.next_card
    }

    pub fn all_cards(&self) -> (r: u32)
        ensures
            r == self.all_cards,
    {
        self.all_cards
    }

    pub fn threshold(&self) -> (r: u8)
        ensures
            r == self.threshold,
    {
        self.threshold
    }

    pub fn facts_previous_player(&self) -> (r: Facts)
        ensures
            r == self.facts_previous_player,
    {
        self.facts_previous_player
    }

    pub fn facts_next_player(&self) -> (r: Facts)
        ensures
            r == self.facts_next_player,
    {
        self.facts_next_player
    }

    pub fn set_game_type(&mut self, game_type: Game)
        ensures
            *final(self) == (PimcProblem { game_type, ..*old(self) }),
    {
        self.game_type = game_type;
    }

    pub fn set_my_player(&mut self, my_player: Player)
        ensures
            *final(self) == (PimcProblem { my_player, ..*old(self) }),
    {
        self.my_player = my_player;
    }

    pub fn set_my_cards(&mut self, my_cards: u32)
        ensures
            *final(self) == (PimcProblem { my_cards, ..*old(self) }),
    {
        self.my_cards = my_cards;
    }

    pub fn set_previous_card(&mut self, previous_card: u32)
        ensures
            *final(self) == (PimcProblem { previous_card, ..*old(self) }),
    {
        self.previous_card = previous_card;
    }

    pub fn set_next_card(&mut self, next_card: u32)
        ensures
            *final(self) == (PimcProblem { next_card, ..*old(self) }),
    {
        self.next_card = next_card;
    }

    pub fn set_all_cards(&mut self, all_cards: u32)
        ensures
            *final(self) == (PimcProblem { all_cards, ..*old(self) }),
    {
        self.all_cards = all_cards;
    }

    pub fn set_threshold(&mut self, threshold: u8)
        ensures
            *final(self) == (PimcProblem { threshold, ..*old(self) }),
    {
        self.threshold = threshold;
    }

    /// Sets the facts of the left player, who plays after the declarer.
    pub fn set_facts_left(&mut self, facts_left: Facts)
        ensures
            *final(self) == (PimcProblem { facts_next_player: facts_left, ..*old(self) }),
    {
        self.facts_next_player = facts_left;
    }

    /// Sets the facts of the right player, who plays before the declarer.
    pub fn set_facts_right(&mut self, facts_right: Facts)
        ensures
            *final(self) == (PimcProblem { facts_previous_player: facts_right, ..*old(self) }),
    {
        self.facts_previous_player = facts_right;
    }

    pub fn set_facts_previous_player(&mut self, facts: Facts)
        ensures
            *final(self) == (PimcProblem { facts_previous_player: facts, ..*old(self) }),
    {
        self.facts_previous_player = facts;
    }

    pub fn set_facts_next_player(&mut self, facts: Facts)
        ensures
            *final(self) == (PimcProblem { facts_next_player: facts, ..*old(self) }),
    {
        self.facts_next_player = facts;
    }

    pub fn set_declarer_start_points(&mut self, points: u8)
        ensures
            *final(self) == (PimcProblem { declarer_start_points: points, ..*old(self) }),
    {
        self.declarer_start_points = points;
    }

    /// An empty suit game seen by the declarer, with threshold 1 and nothing known.
    pub fn new() -> (r: Self)
        ensures
            r == (PimcProblem {
                game_type: Game::Suit,
                my_cards: 0u32,
                my_player: Player::Declarer,
                all_cards: 0u32,
                previous_card: 0u32,
                next_card: 0u32,
                threshold: 1u8,
                facts_previous_player: Facts {
                    no_trump: false,
                    no_clubs: false,
                    no_spades: false,
                    no_hearts: false,
                    no_diamonds: false,
                },
                facts_next_player: Facts {
                    no_trump: false,
                    no_clubs: false,
                    no_spades: false,
                    no_hearts: false,
                    no_diamonds: false,
                },
                declarer_start_points: 0,
                skat_cards: None,
            }),
    {
        PimcProblem {
            game_type: Game::Suit,
            my_cards: 0u32,
            my_player: Player::Declarer,
            all_cards: 0u32,
            previous_card: 0u32,
            next_card: 0u32,
            threshold: 1u8,
            facts_previous_player: Facts::zero_fact(),
            facts_next_player: Facts::zero_fact(),
            declarer_start_points: 0,
            skat_cards: None,
        }
    }

    /// Records the skat.
    pub fn set_skat_cards(&mut self, skat_cards: u32)
        ensures
            *final(self) == (PimcProblem { skat_cards: Some(skat_cards), ..*old(self) }),
    {
        self.skat_cards = Some(skat_cards);
    }

    pub fn skat_cards(&self) -> (r: Option<u32>)
        ensures
            r == self.skat_cards,
    {
        self.skat_cards
    }

    /// A concrete game consistent with what I see: my hand is mine, the cards on the table
    /// lie there and belong to who played them, and the unseen cards are dealt at random to
    /// the two other players, each getting only cards of suits not known to be missing from the
    /// hand. No card is in two hands.
    pub fn generate_concrete_problem(&self) -> (r: GameContext)
        requires
            concrete_feasible(*self),
        ensures
            r.game_type == self.game_type,
            r.start_player == self.my_player,
            r.trick_cards == self.previous_card | self.next_card,
            r.declarer_start_points == self.declarer_start_points,
            r.threshold_upper == 61,
            hands_disjoint(r),
            cards_for_player(r.declarer_cards, r.left_cards, r.right_cards, self.my_player)
                == self.my_cards,
            ({
                let pool = others_pool(
                    pool_spec(*self),
                    self.previous_card,
                    self.next_card,
                    self.my_cards,
                );
                let hn = cards_for_player(
                    r.declarer_cards,
                    r.left_cards,
                    r.right_cards,
                    next_of(self.my_player),
                );
                let hp = cards_for_player(
                    r.declarer_cards,
                    r.left_cards,
                    r.right_cards,
                    prev_of(self.my_player),
                );
                &&& subset(hn & !self.next_card, cancel_spec(pool, self.facts_next_player, self.game_type))
                &&& subset(hp & !self.previous_card, cancel_spec(pool, self.facts_previous_player, self.game_type))
                &&& subset(self.next_card, hn)
                &&& subset(self.previous_card, hp)
            }),
    {
        let _ = self.validate();
        let distribution_pool = self.calculate_distribution_pool();
        let b0 = GameContextBuilder::new(self.game_type).cards(Player::Declarer, "").cards(
            Player::Left,
            "",
        ).cards(Player::Right, "").turn(self.my_player).trick_from_uproblem(
            self.previous_card,
            self.next_card,
        ).threshold(self.threshold).set_cards_for_problem(self.my_cards, self.my_player);
        let b1 = b0.set_cards_for_other_players(
            distribution_pool,
            self.previous_card,
            self.next_card,
            self.my_cards,
            self.my_player,
            self.next_player_facts(),
            self.previous_player_facts(),
        );
        let b2 = b1.declarer_start_points(self.declarer_start_points);
        proof {
            lemma_concrete_deal(*self, b0, b1, b2);
        }
        let problem = b2.build();
        let ok = verify_card_distribution(&problem);
        if !ok {
            proof {
                assert(false);
            }
        }
        problem
    }

    /// The cards the other hands are dealt from.
    /// Whether a concrete game can be dealt for the problem.
    pub fn can_deal(&self) -> (r: bool)
        ensures
            r == concrete_feasible(*self),
    {
        let prev = self.previous_card;
        let next = self.next_card;
        if !((prev == 0 || single_card(prev)) && (next == 0 || single_card(next))) {
            return false;
        }
        if prev & next != 0 || self.my_cards & (prev | next) != 0 {
            return false;
        }
        let my_count = count_cards(self.my_cards);
        if !(my_count >= 1 || (prev == 0 && next == 0)) {
            return false;
        }
        let pool = (self.calculate_distribution_pool() & !self.my_cards) & !prev & !next;
        let t_next: u32 = if next != 0 {
            my_count - 1
        } else {
            my_count
        };
        let t_prev: u32 = if prev != 0 {
            my_count - 1
        } else {
            my_count
        };
        let nc: u32 = if t_next == 0 {
            0
        } else {
            cancel_cards_with_facts(pool, self.facts_next_player, self.game_type)
        };
        let pc: u32 = if t_prev == 0 {
            0
        } else {
            cancel_cards_with_facts(pool, self.facts_previous_player, self.game_type) & !next
        };
        let only_next = count_cards(nc & !pc);
        let only_prev = count_cards(pc & !nc);
        let shared = count_cards(nc & pc);
        let need_next: u32 = if t_next > only_next {
            t_next - only_next
        } else {
            0
        };
        let need_prev: u32 = if t_prev > only_prev {
            t_prev - only_prev
        } else {
            0
        };
        need_next + need_prev <= shared
    }

    fn calculate_distribution_pool(&self) -> (r: u32)
        ensures
            r == pool_spec(*self),
    {
        let mut pool = self.all_cards;
        if self.my_player == Player::Declarer {
            if let Some(skat) = self.skat_cards {
                pool = pool & !skat;
            }
        }
        pool
    }

    fn next_player_facts(&self) -> (r: Facts)
        ensures
            r == self.facts_next_player,
    {
        self.facts_next_player
    }

    fn previous_player_facts(&self) -> (r: Facts)
        ensures
            r == self.facts_previous_player,
    {
        self.facts_previous_player
    }

    /// Checks the cards of the problem.
    pub fn validate(&self) -> (r: Result<(), String>)
        ensures
            r is Ok <==> cards_valid(*self),
    {
        self.validate_all_cards()
    }

    /// The cards in play hold my hand and the table, and their number fits a game between
    /// tricks, or a game with the skat.
    fn validate_all_cards(&self) -> (r: Result<(), String>)
        ensures
            r is Ok <==> cards_valid(*self),
    {
        proof {
            lemma_set_algebra(self.all_cards, self.my_cards, 0);
            lemma_set_algebra(self.all_cards, self.previous_card | self.next_card, 0);
        }
        if self.all_cards & self.my_cards != self.my_cards {
            return Err(owned("all_cards must contain my_cards"));
        }
        if self.all_cards & self.cards_on_table() != self.cards_on_table() {
            return Err(owned("all_cards must contain cards_on_table"));
        }
        let count = crate::cards::count_cards(self.all_cards);
        if count != 32 && count % 3 != 0 && count % 3 != 2 {
            return Err(card_count_message(count));
        }
        Ok(())
    }
}

/// The conditions `validate` checks: the cards in play hold my hand and the table, and their
/// number is 32 or not one more than a multiple of three.
pub open spec fn cards_valid(p: PimcProblem) -> bool {
    &&& subset(p.my_cards, p.all_cards)
    &&& subset(p.previous_card | p.next_card, p.all_cards)
    &&& (card_count(p.all_cards) == 32 || card_count(p.all_cards) % 3 != 1)
}

/// No card is in two hands of the game.
pub open spec fn hands_disjoint(g: GameContext) -> bool {
    &&& g.declarer_cards & g.left_cards == 0
    &&& g.declarer_cards & g.right_cards == 0
    &&& g.left_cards & g.right_cards == 0
}

/// Whether no card of the game is in two hands.
fn verify_card_distribution(problem: &GameContext) -> (r: bool)
    ensures
        r == hands_disjoint(*problem),
{
    problem.declarer_cards() & problem.left_cards() == 0 && problem.declarer_cards()
        & problem.right_cards() == 0 && problem.left_cards() & problem.right_cards() == 0
}

/// The builder of `generate_concrete_problem` is complete and deals consistent hands.
proof fn lemma_concrete_deal(
    p: PimcProblem,
    b0: GameContextBuilder,
    b1: GameContextBuilder,
    b2: GameContextBuilder,
)
    requires
        concrete_feasible(p),
        b0.game_type == Some(p.game_type),
        b0.start_player == Some(p.my_player),
        b0.trick_cards == Some(p.previous_card | p.next_card),
        b0.hand(p.my_player) == Some(p.my_cards),
        b0.declarer_cards is Some,
        b0.left_cards is Some,
        b0.right_cards is Some,
        ({
            let pool = others_pool(pool_spec(p), p.previous_card, p.next_card, p.my_cards);
            let nc = next_candidates(pool, p.next_card, p.my_cards, p.facts_next_player, p.game_type);
            let pc = prev_candidates(
                pool,
                p.previous_card,
                p.next_card,
                p.my_cards,
                p.facts_previous_player,
                p.game_type,
            );
            exists|dn: u32, dp: u32|
                {
                    &&& subset(dn, nc)
                    &&& subset(dp, pc)
                    &&& dn & dp == 0
                    &&& b1 == b0.with_hand(
                        crate::defs::player_at(p.my_player, 1),
                        Some(dn | p.next_card),
                    ).with_hand(crate::defs::player_at(p.my_player, 2), Some(dp | p.previous_card))
                }
        }),
        b2 == (GameContextBuilder { declarer_start_points: Some(p.declarer_start_points), ..b1 }),
    ensures
        b2.valid(),
        hands_disjoint(b2.build_spec()),
        b2.game_type == Some(p.game_type),
        b2.start_player == Some(p.my_player),
        b2.trick_cards == Some(p.previous_card | p.next_card),
        b2.declarer_start_points == Some(p.declarer_start_points),
        cards_for_player(
            b2.build_spec().declarer_cards,
            b2.build_spec().left_cards,
            b2.build_spec().right_cards,
            p.my_player,
        ) == p.my_cards,
        ({
            let pool = others_pool(pool_spec(p), p.previous_card, p.next_card, p.my_cards);
            let g = b2.build_spec();
            let hn = cards_for_player(g.declarer_cards, g.left_cards, g.right_cards, next_of(p.my_player));
            let hp = cards_for_player(g.declarer_cards, g.left_cards, g.right_cards, prev_of(p.my_player));
            &&& subset(hn & !p.next_card, cancel_spec(pool, p.facts_next_player, p.game_type))
            &&& subset(hp & !p.previous_card, cancel_spec(pool, p.facts_previous_player, p.game_type))
            &&& subset(p.next_card, hn)
            &&& subset(p.previous_card, hp)
        }),
{
    let pool = others_pool(pool_spec(p), p.previous_card, p.next_card, p.my_cards);
    let nc = next_candidates(pool, p.next_card, p.my_cards, p.facts_next_player, p.game_type);
    let pc = prev_candidates(
        pool,
        p.previous_card,
        p.next_card,
        p.my_cards,
        p.facts_previous_player,
        p.game_type,
    );
    let (dn, dp) = choose|dn: u32, dp: u32|
        {
            &&& subset(dn, nc)
            &&& subset(dp, pc)
            &&& dn & dp == 0
            &&& b1 == b0.with_hand(
                crate::defs::player_at(p.my_player, 1),
                Some(dn | p.next_card),
            ).with_hand(crate::defs::player_at(p.my_player, 2), Some(dp | p.previous_card))
        };
    crate::defs::lemma_neighbours(p.my_player);
    crate::builder::lemma_cancel_subset(pool, p.facts_next_player, p.game_type);
    crate::builder::lemma_cancel_subset(pool, p.facts_previous_player, p.game_type);
    let cn = cancel_spec(pool, p.facts_next_player, p.game_type);
    let cp = cancel_spec(pool, p.facts_previous_player, p.game_type);
    lemma_set_algebra(cp, p.next_card, 0);
    lemma_set_algebra(dn, 0, 0);
    lemma_set_algebra(dp, 0, 0);
    lemma_set_algebra(cn, 0, 0);
    crate::position::lemma_subset_trans(dn, nc, cn);
    crate::position::lemma_subset_trans(dn, cn, pool);
    crate::position::lemma_subset_trans(cp & !p.next_card, cp, pool);
    crate::position::lemma_subset_trans(dp, pc, cp);
    crate::position::lemma_subset_trans(dp, pc, pool);
    lemma_set_algebra(pool, 0, 0);
    lemma_set_algebra(cp, 0, 0);
    crate::position::lemma_subset_trans(dp, pc, cp);
    crate::position::lemma_subset_trans(dp, pc, pool);
    crate::position::lemma_subset_trans(dn, nc, pool);
    lemma_deal_sets(pool_spec(p), p.my_cards, p.previous_card, p.next_card, dn, dp, cn, cp);
    lemma_table_count(p.previous_card, p.next_card);
    lemma_set_algebra(p.my_cards, dn | p.next_card, 0);
    lemma_set_algebra(p.my_cards, dp | p.previous_card, 0);
    lemma_set_algebra(dn | p.next_card, dp | p.previous_card, 0);
}

/// The sets of a concrete deal: my hand, the two dealt hands and the table do not overlap,
/// and each dealt hand is its draw plus its card on the table.
proof fn lemma_deal_sets(all: u32, my: u32, prev: u32, next: u32, dn: u32, dp: u32, cn: u32, cp: u32)
    by (bit_vector)
    requires
        dn & (((all & !my) & !prev) & !next) == dn,
        dp & (((all & !my) & !prev) & !next) == dp,
        dn & dp == 0,
        my & (prev | next) == 0,
        prev & next == 0,
        dn & cn == dn,
        dp & cp == dp,
    ensures
        my & (dn | next) == 0,
        my & (dp | prev) == 0,
        (dn | next) & (dp | prev) == 0,
        ((dn | next) & !next) & cn == (dn | next) & !next,
        ((dp | prev) & !prev) & cp == (dp | prev) & !prev,
        next & (dn | next) == next,
        prev & (dp | prev) == prev,
{
}

/// At most two cards lie on the table.
proof fn lemma_table_count(prev: u32, next: u32)
    requires
        prev == 0 || is_card(prev),
        next == 0 || is_card(next),
        prev & next == 0,
    ensures
        card_count(prev | next) <= 2,
{
    crate::cards::lemma_empty_set();
    if prev != 0 {
        let k = crate::cards::lemma_card_index(prev);
        crate::cards::lemma_single(k);
    }
    if next != 0 {
        let k = crate::cards::lemma_card_index(next);
        crate::cards::lemma_single(k);
    }
    crate::cards::lemma_union(prev, next);
}

} // verus!
