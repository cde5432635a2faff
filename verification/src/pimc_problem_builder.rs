//! Building the game seen by one player from its parts.
use vstd::prelude::*;
use crate::augen::Augen;
use crate::cards::{card_count, count_cards, points};
use crate::consts::ALLCARDS;
use crate::convert::{text_cards, BitConverter};
use crate::defs::{Game, Player};
use crate::facts::Facts;
use crate::pimc_problem::PimcProblem;

verus! {

/// A builder of the game seen by one player: each part may be set or still missing.
pub struct PimcProblemBuilder {
    pub game_type: Game,
    pub my_player: Option<Player>,
    pub my_cards: Option<u32>,
    pub next_player: Option<Player>,
    pub previous_card: Option<u32>,
    pub next_card: Option<u32>,
    pub all_cards: Option<u32>,
    pub active_suit: Option<u32>,
    pub threshold: Option<u8>,
    pub facts_declarer: Option<Facts>,
    pub facts_left: Option<Facts>,
    pub facts_right: Option<Facts>,
    pub skat_cards: Option<u32>,
    pub declarer_start_points: u8,
}

/// Nothing known of a player's hand.
pub open spec fn no_facts() -> Facts {
    Facts {
        no_trump: false,
        no_clubs: false,
        no_spades: false,
        no_hearts: false,
        no_diamonds: false,
    }
}

/// The empty builder for a suit game: no cards on the table, no facts, the rest missing.
pub open spec fn default_pimc_builder() -> PimcProblemBuilder {
    PimcProblemBuilder {
        game_type: Game::Suit,
        my_player: None,
        my_cards: None,
        next_player: None,
        next_card: Some(0u32),
        previous_card: Some(0u32),
        all_cards: None,
        active_suit: Some(0),
        threshold: None,
        facts_declarer: Some(no_facts()),
        facts_left: Some(no_facts()),
        facts_right: Some(no_facts()),
        skat_cards: None,
        declarer_start_points: 0,
    }
}

impl Default for PimcProblemBuilder {
    fn default() -> (r: Self)
        ensures
            r == default_pimc_builder(),
    {
        PimcProblemBuilder {
            game_type: Game::Suit,
            my_player: None,
            my_cards: None,
            next_player: None,
            next_card: Some(0u32),
            previous_card: Some(0u32),
            all_cards: None,
            active_suit: Some(0),
            threshold: None,
            facts_declarer: Some(Facts::zero_fact()),
            facts_left: Some(Facts::zero_fact()),
            facts_right: Some(Facts::zero_fact()),
            skat_cards: None,
            declarer_start_points: 0,
        }
    }
}

impl PimcProblemBuilder {
    /// The cards on the table.
    pub open spec fn table_spec(self) -> u32 {
        (match self.next_card {
            Some(c) => c,
            None => 0u32,
        }) | (match self.previous_card {
            Some(c) => c,
            None => 0u32,
        })
    }

    /// The problem that `build` makes of the parts.
    pub open spec fn build_spec(self) -> PimcProblem {
        PimcProblem {
            game_type: self.game_type,
            my_player: self.my_player->0,
            my_cards: self.my_cards->0,
            previous_card: self.previous_card->0,
            next_card: self.next_card->0,
            all_cards: self.table_spec() | self.all_cards->0,
            threshold: self.threshold->0,
            facts_previous_player: self.facts_right->0,
            facts_next_player: self.facts_left->0,
            declarer_start_points: self.declarer_start_points,
            skat_cards: self.skat_cards,
        }
    }

    /// The skat is known and its cards are among the cards in play.
    pub open spec fn skat_in_play(self) -> bool {
        self.skat_cards matches Some(k) && self.all_cards matches Some(a) && k & a == k
    }

    /// Every part is set, and the number of cards in play is three times my hand, plus two
    /// when the known skat is among them.
    pub open spec fn complete(self) -> bool {
        &&& self.my_player is Some
        &&& self.my_cards is Some
        &&& self.next_player is Some
        &&& self.next_card is Some
        &&& self.previous_card is Some
        &&& self.all_cards is Some
        &&& self.active_suit is Some
        &&& self.threshold is Some
        &&& self.facts_declarer is Some
        &&& self.facts_left is Some
        &&& self.facts_right is Some
        &&& card_count(self.all_cards->0) == 3 * card_count(self.my_cards->0) + if self.skat_in_play() {
            2int
        } else {
            0int
        }
    }

    /// An empty builder for a game of the given type.
    pub fn new(game_type: Game) -> (r: PimcProblemBuilder)
        ensures
            r == (PimcProblemBuilder { game_type, ..default_pimc_builder() }),
    {
        let mut b = PimcProblemBuilder::default();
        b.game_type = game_type;
        b
    }

    /// An empty builder for a suit game.
    pub fn new_farbspiel() -> (r: PimcProblemBuilder)
        ensures
            r == (PimcProblemBuilder { game_type: Game::Suit, ..default_pimc_builder() }),
    {
        PimcProblemBuilder::new(Game::Suit)
    }

    /// An empty builder for a grand game.
    pub fn new_grand() -> (r: PimcProblemBuilder)
        ensures
            r == (PimcProblemBuilder { game_type: Game::Grand, ..default_pimc_builder() }),
    {
        PimcProblemBuilder::new(Game::Grand)
    }

    /// An empty builder for a null game, whose threshold is one trick.
    pub fn new_null() -> (r: PimcProblemBuilder)
        ensures
            r == (PimcProblemBuilder {
                game_type: Game::Null,
                threshold: Some(1),
                ..default_pimc_builder()
            }),
    {
        PimcProblemBuilder::new(Game::Null).threshold(1)
    }

    /// I am `player`, to move, and hold the cards named in the text.
    pub fn cards(self, player: Player, cards: &str) -> (r: PimcProblemBuilder)
        ensures
            r == (PimcProblemBuilder {
                my_player: Some(player),
                next_player: Some(player),
                my_cards: Some(text_cards(cards.text_bytes())),
                ..self
            }),
    {
        let mut s = self;
        s.my_player = Some(player);
        s.next_player = Some(player);
        s.my_cards = Some(cards.__bit());
        s
    }

    /// Sets who I am.
    pub fn my_player(self, player: Player) -> (r: PimcProblemBuilder)
        ensures
            r == (PimcProblemBuilder { my_player: Some(player), ..self }),
    {
        let mut s = self;
        s.my_player = Some(player);
        s
    }

    /// Sets who is to move.
    pub fn turn(self, player: Player) -> (r: PimcProblemBuilder)
        ensures
            r == (PimcProblemBuilder { next_player: Some(player), ..self }),
    {
        let mut s = self;
        s.next_player = Some(player);
        s
    }

    /// Sets the threshold.
    pub fn threshold(self, threshold: u8) -> (r: PimcProblemBuilder)
        ensures
            r == (PimcProblemBuilder { threshold: Some(threshold), ..self }),
    {
        let mut s = self;
        s.threshold = Some(threshold);
        s
    }

    /// Sets the threshold to one more than half the points in play.
    pub fn threshold_half(self) -> (r: PimcProblemBuilder)
        requires
            self.all_cards is Some,
        ensures
            r == (PimcProblemBuilder {
                threshold: Some((points(self.all_cards->0) / 2 + 1) as u8),
                ..self
            }),
    {
        let mut s = self;
        let all_cards = match s.all_cards {
            Some(a) => a,
            None => 0,
        };
        proof {
            crate::cards::lemma_bounds(all_cards);
        }
        s.threshold = Some(all_cards.__get_value() / 2 + 1);
        s
    }

    /// Puts the previous player's card on the table, with the suit led.
    pub fn trick_previous_player(self, active_suit: u32, trick_previous_player: u32) -> (r:
        PimcProblemBuilder)
        ensures
            r == (PimcProblemBuilder {
                previous_card: Some(trick_previous_player),
                active_suit: Some(active_suit),
                ..self
            }),
    {
        let mut s = self;
        s.previous_card = Some(trick_previous_player);
        s.active_suit = Some(active_suit);
        s
    }

    /// Sets the points the declarer has taken so far.
    pub fn declarer_start_points(self, points: u8) -> (r: PimcProblemBuilder)
        ensures
            r == (PimcProblemBuilder { declarer_start_points: points, ..self }),
    {
        let mut s = self;
        s.declarer_start_points = points;
        s
    }

    /// Sets the suit led in the current trick.
    pub fn active_suit(self, active_suit: u32) -> (r: PimcProblemBuilder)
        ensures
            r == (PimcProblemBuilder { active_suit: Some(active_suit), ..self }),
    {
        let mut s = self;
        s.active_suit = Some(active_suit);
        s
    }

    /// Puts the next player's card on the table.
    pub fn trick_next_player(self, trick_next_player: u32) -> (r: PimcProblemBuilder)
        ensures
            r == (PimcProblemBuilder { next_card: Some(trick_next_player), ..self }),
    {
        let mut s = self;
        s.next_card = Some(trick_next_player);
        s
    }

    /// Records what is known of a player's hand.
    pub fn facts(self, player: Player, facts: Facts) -> (r: PimcProblemBuilder)
        ensures
            r == match player {
                Player::Declarer => PimcProblemBuilder { facts_declarer: Some(facts), ..self },
                Player::Left => PimcProblemBuilder { facts_left: Some(facts), ..self },
                Player::Right => PimcProblemBuilder { facts_right: Some(facts), ..self },
            },
    {
        let mut s = self;
        match player {
            Player::Declarer => s.facts_declarer = Some(facts),
            Player::Left => s.facts_left = Some(facts),
            Player::Right => s.facts_right = Some(facts),
        }
        s
    }

    /// The cards in play are the cards named in the text, my hand and the table; the named
    /// cards, my hand and the table must not overlap.
    pub fn remaining_cards(self, cards: &str) -> (r: PimcProblemBuilder)
        requires
            self.my_cards is Some,
            text_cards(cards.text_bytes()) & self.my_cards->0 == 0,
            text_cards(cards.text_bytes()) & self.table_spec() == 0,
            self.my_cards->0 & self.table_spec() == 0,
        ensures
            r == (PimcProblemBuilder {
                all_cards: Some(text_cards(cards.text_bytes()) | self.my_cards->0 | self.table_spec()),
                ..self
            }),
    {
        self.remaining_cards_val(cards.__bit())
    }

    /// The cards in play are the cards `remaining`, my hand and the table.
    pub fn remaining_cards_val(self, remaining: u32) -> (r: PimcProblemBuilder)
        requires
            self.my_cards is Some,
        ensures
            r == (PimcProblemBuilder {
                all_cards: Some(remaining | self.my_cards->0 | self.table_spec()),
                ..self
            }),
    {
        let mut s = self;
        let my_cards_bit = match s.my_cards {
            Some(c) => c,
            None => 0,
        };
        let cards_on_table = s.cards_on_table();
        s.all_cards = Some(remaining | my_cards_bit | cards_on_table);
        s
    }

    /// Sets my hand.
    pub fn my_cards_val(self, cards: u32) -> (r: PimcProblemBuilder)
        ensures
            r == (PimcProblemBuilder { my_cards: Some(cards), ..self }),
    {
        let mut s = self;
        s.my_cards = Some(cards);
        s
    }

    /// Records the skat cards `skat`, which I know, and adds them to the cards in play.
    pub fn skat_cards_val(self, skat: u32) -> (r: PimcProblemBuilder)
        ensures
            r == (PimcProblemBuilder {
                skat_cards: Some(skat),
                all_cards: Some(
                    (match self.all_cards {
                        Some(a) => a,
                        None => 0u32,
                    }) | skat,
                ),
                ..self
            }),
    {
        let mut s = self;
        let all = match s.all_cards {
            Some(a) => a,
            None => 0,
        };
        s.all_cards = Some(all | skat);
        s.skat_cards = Some(skat);
        s
    }

    /// The cards in play are all cards but those named in the text, with my hand and the
    /// table; the named cards, my hand and the table must not overlap.
    pub fn missing_cards(self, missing_cards: &str) -> (r: PimcProblemBuilder)
        requires
            self.my_cards is Some,
            text_cards(missing_cards.text_bytes()) & self.my_cards->0 == 0,
            text_cards(missing_cards.text_bytes()) & self.table_spec() == 0,
            self.my_cards->0 & self.table_spec() == 0,
        ensures
            r == (PimcProblemBuilder {
                all_cards: Some(
                    (ALLCARDS & !text_cards(missing_cards.text_bytes())) | self.my_cards->0
                        | self.table_spec(),
                ),
                ..self
            }),
    {
        let mut s = self;
        let missing_cards_bit = missing_cards.__bit();
        let my_cards_bit = match s.my_cards {
            Some(c) => c,
            None => 0,
        };
        let cards_on_table = s.cards_on_table();
        s.all_cards = Some((ALLCARDS & !missing_cards_bit) | my_cards_bit | cards_on_table);
        s
    }

    /// Records the two cards of the skat, which I know, and adds them to the cards in play.
    pub fn skat_cards(self, skat_cards: &str) -> (r: PimcProblemBuilder)
        requires
            card_count(text_cards(skat_cards.text_bytes())) == 2,
        ensures
            r == (PimcProblemBuilder {
                skat_cards: Some(text_cards(skat_cards.text_bytes())),
                all_cards: Some(
                    (match self.all_cards {
                        Some(a) => a,
                        None => 0u32,
                    }) | text_cards(skat_cards.text_bytes()),
                ),
                ..self
            }),
    {
        let mut s = self;
        let skat_cards_bit = skat_cards.__bit();
        let all = match s.all_cards {
            Some(a) => a,
            None => 0,
        };
        s.all_cards = Some(all | skat_cards_bit);
        s.skat_cards = Some(skat_cards_bit);
        s
    }

    /// The game seen by me, from the parts set.
    pub fn build(self) -> (r: PimcProblem)
        requires
            self.complete(),
        ensures
            r == self.build_spec(),
            r == (PimcProblem {
                game_type: self.game_type,
                my_player: self.my_player->0,
                my_cards: self.my_cards->0,
                previous_card: self.previous_card->0,
                next_card: self.next_card->0,
                all_cards: self.table_spec() | self.all_cards->0,
                threshold: self.threshold->0,
                facts_previous_player: self.facts_right->0,
                facts_next_player: self.facts_left->0,
                declarer_start_points: self.declarer_start_points,
                skat_cards: self.skat_cards,
            }),
    {
        self.validate();
        let mut uproblem = PimcProblem::new();
        uproblem.set_game_type(self.game_type);
        if let Some(my_player) = self.my_player {
            uproblem.set_my_player(my_player);
        }
        if let Some(my_cards) = self.my_cards {
            uproblem.set_my_cards(my_cards);
        }
        if let Some(previous_card) = self.previous_card {
            uproblem.set_previous_card(previous_card);
        }
        if let Some(next_card) = self.next_card {
            uproblem.set_next_card(next_card);
        }
        if let Some(all_cards) = self.all_cards {
            uproblem.set_all_cards(self.cards_on_table() | all_cards);
        }
        if let Some(upper_bound_of_null_window) = self.threshold {
            uproblem.set_threshold(upper_bound_of_null_window);
        }
        if let Some(facts) = self.facts_left {
            uproblem.set_facts_left(facts);
        }
        if let Some(facts) = self.facts_right {
            uproblem.set_facts_right(facts);
        }
        if let Some(skat) = self.skat_cards {
            uproblem.set_skat_cards(skat);
        }
        uproblem.set_declarer_start_points(self.declarer_start_points);
        uproblem
    }

    /// Whether every part is set and the number of cards in play fits my hand, so that the
    /// builder can build.
    pub fn is_complete(&self) -> (r: bool)
        ensures
            r == self.complete(),
    {
        if !self.validate_nothing_none() {
            return false;
        }
        self.validate_number_of_cards()
    }

    fn validate(&self)
        requires
            self.complete(),
    {
        let complete = self.validate_nothing_none();
        let counts_fit = self.validate_number_of_cards();
        assert(complete && counts_fit);
    }

    /// Every part is set.
    fn validate_nothing_none(&self) -> (r: bool)
        ensures
            r == (self.my_player is Some && self.my_cards is Some && self.next_player is Some
                && self.next_card is Some && self.previous_card is Some && self.all_cards is Some
                && self.active_suit is Some && self.threshold is Some && self.facts_declarer is Some
                && self.facts_left is Some && self.facts_right is Some),
    {
        !(self.my_player.is_none() || self.my_cards.is_none() || self.next_player.is_none()
            || self.next_card.is_none() || self.previous_card.is_none() || self.all_cards.is_none()
            || self.active_suit.is_none() || self.threshold.is_none()
            || self.facts_declarer.is_none() || self.facts_left.is_none()
            || self.facts_right.is_none())
    }

    /// The number of cards in play is three times my hand, plus the known skat if it is
    /// among them.
    fn validate_number_of_cards(&self) -> (r: bool)
        requires
            self.my_cards is Some,
            self.all_cards is Some,
        ensures
            r == (card_count(self.all_cards->0) == 3 * card_count(self.my_cards->0) + if self.skat_in_play() {
                2int
            } else {
                0int
            }),
    {
        let nr_own_cards = count_cards(match self.my_cards {
            Some(c) => c,
            None => 0,
        });
        let nr_all_cards = count_cards(match self.all_cards {
            Some(c) => c,
            None => 0,
        });
        proof {
            crate::cards::lemma_bounds(self.my_cards->0);
        }
        let all = match self.all_cards {
            Some(c) => c,
            None => 0,
        };
        let skat: u32 = match self.skat_cards {
            Some(k) => if k & all == k {
                2
            } else {
                0
            },
            None => 0,
        };
        nr_all_cards == 3 * nr_own_cards + skat
    }

    /// The cards on the table.
    fn cards_on_table(&self) -> (r: u32)
        ensures
            r == self.table_spec(),
    {
        (match self.next_card {
            Some(c) => c,
            None => 0u32,
        }) | (match self.previous_card {
            Some(c) => c,
            None => 0u32,
        })
    }
}

} // verus!
