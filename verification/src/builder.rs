//! Building a game from its parts, and dealing the cards a player cannot see to the other two
//! players at random, within what is known of their hands.
use vstd::prelude::*;
use rand::rngs::ThreadRng;
use crate::augen::Augen;
use crate::cards::{
    bit, card_count, cards_of, is_card, lemma_set_algebra, points, subset, Bitboard,
};
use crate::consts::{
    CLUBS, DIAMONDS, HEARTS, NULL_CLUBS, NULL_DIAMONDS, NULL_HEARTS, NULL_SPADES, SPADES,
    TRUMP_GRAND, TRUMP_NULL, TRUMP_SUIT,
};
use crate::context::GameContext;
use crate::convert::{text_cards, BitConverter};
use crate::defs::{Game, Player, player_at};
use crate::facts::Facts;
use crate::rules::{get_all_unplayed_cards, get_suit_for_card, suit_for_card};

verus! {

#[verifier::external_type_specification]
#[verifier::external_body]
pub struct ExThreadRng(ThreadRng);

/// The thread's random generator: `rand::thread_rng`.
#[verifier::external_body]
pub(crate) fn thread_rng() -> ThreadRng {
    rand::thread_rng()
}

/// `rand::seq::index::sample`, as a vector (`IndexVec::into_vec`): exactly `amount` distinct
/// indices below `length`, in random order. The contract claims what its documentation says;
/// which indices come is left open.
#[verifier::external_body]
pub(crate) fn sample_indices(rng: &mut ThreadRng, length: usize, amount: usize) -> (r: Vec<usize>)
    requires
        amount <= length,
    ensures
        r@.len() == amount,
        forall|i: int| 0 <= i < r@.len() ==> #[trigger] r@[i] < length,
        forall|i: int, j: int| 0 <= i < j < r@.len() ==> #[trigger] r@[i] != #[trigger] r@[j],
{
    rand::seq::index::sample(rng, length, amount).into_vec()
}

/// `nr` cards of `cards` chosen at random.
pub fn random_cards(cards: u32, nr: u32) -> (r: u32)
    requires
        nr <= card_count(cards),
    ensures
        subset(r, cards),
        card_count(r) == nr,
{
    let mut rng = thread_rng();
    let (arr, n) = cards.__decompose();
    let ghost s = cards_of(cards);
    proof {
        crate::cards::lemma_high_cards_len(cards, 0);
        crate::cards::lemma_bounds(cards);
        crate::cards::lemma_empty_set();
        lemma_set_algebra(cards, 0, 0);
    }
    let indices = sample_indices(&mut rng, n, nr as usize);
    let mut ret: u32 = 0;
    let mut k: usize = 0;
    proof {
        assert forall|t: int| 0 <= t < n implies #[trigger] s[t] & 0u32 == 0 by {
            lemma_set_algebra(s[t], 0, 0);
        }
    }
    while k < indices.len()
        invariant
            s == cards_of(cards),
            n == s.len(),
            n <= 32,
            arr@.subrange(0, n as int) == s,
            indices@.len() == nr,
            forall|i: int| 0 <= i < indices@.len() ==> #[trigger] indices@[i] < n,
            forall|i: int, j: int|
                0 <= i < j < indices@.len() ==> #[trigger] indices@[i] != #[trigger] indices@[j],
            k <= indices@.len(),
            subset(ret, cards),
            card_count(ret) == k,
            forall|t: int|
                0 <= t < n && !indices@.subrange(0, k as int).contains(t as usize) ==> #[trigger] s[t]
                    & ret == 0,
        decreases indices@.len() - k,
    {
        let i = indices[k];
        proof {
            crate::cards::lemma_cards_of_members(cards);
            crate::cards::lemma_cards_of_descending(cards);
            assert(!indices@.subrange(0, k as int).contains(i)) by {
                if indices@.subrange(0, k as int).contains(i) {
                    let m = choose|m: int| 0 <= m < k && indices@.subrange(0, k as int)[m] == i;
                    assert(indices@[m] == indices@[k as int]);
                }
            }
            assert(arr@[i as int] == s[i as int]);
        }
        let c = arr[i];
        proof {
            assert(is_card(cards_of(cards)[i as int]));
            let ki = crate::cards::lemma_card_index(c);
            crate::cards::lemma_single(ki);
            assert(s[i as int] & ret == 0);
            assert(subset(c, cards));
            lemma_set_algebra(c, ret, 0);
            crate::cards::lemma_union(ret, c);
            lemma_set_algebra(ret, c, cards);
            assert forall|t: int|
                0 <= t < n && !indices@.subrange(0, k + 1).contains(t as usize) implies #[trigger] s[t]
                & (ret | c) == 0 by {
                assert(indices@.subrange(0, k + 1)[k as int] == i);
                if indices@.subrange(0, k as int).contains(t as usize) {
                    let m = choose|m: int|
                        0 <= m < k && indices@.subrange(0, k as int)[m] == t as usize;
                    assert(indices@.subrange(0, k + 1)[m] == t as usize);
                }
                assert(t != i);
                let kt = crate::cards::lemma_card_index(s[t]);
                if t < i {
                    assert(s[t] > s[i as int]);
                } else {
                    assert(s[i as int] > s[t]);
                }
                crate::cards::lemma_cards_disjoint(kt, ki);
                lemma_set_algebra(s[t], ret, c);
            }
        }
        ret = ret | c;
        k = k + 1;
    }
    ret
}

/// The cards left after striking those of the suits a player is known to lack. A missing
/// trump strikes the trump cards; in a suit game a missing clubs strikes all trump too.
pub open spec fn cancel_spec(cards: u32, facts: Facts, game: Game) -> u32 {
    let a = if facts.no_trump {
        match game {
            Game::Suit => cards & !TRUMP_SUIT,
            Game::Grand => cards & !TRUMP_GRAND,
            Game::Null => cards & !TRUMP_NULL,
        }
    } else {
        cards
    };
    let b = if facts.no_clubs {
        match game {
            Game::Suit => a & !TRUMP_SUIT,
            Game::Grand => a & !CLUBS,
            Game::Null => a & !NULL_CLUBS,
        }
    } else {
        a
    };
    let c = if facts.no_spades {
        match game {
            Game::Null => b & !NULL_SPADES,
            _ => b & !SPADES,
        }
    } else {
        b
    };
    let d = if facts.no_hearts {
        match game {
            Game::Null => c & !NULL_HEARTS,
            _ => c & !HEARTS,
        }
    } else {
        c
    };
    if facts.no_diamonds {
        match game {
            Game::Null => d & !NULL_DIAMONDS,
            _ => d & !DIAMONDS,
        }
    } else {
        d
    }
}

/// Striking cards leaves a subset.
pub proof fn lemma_cancel_subset(cards: u32, facts: Facts, game: Game)
    ensures
        subset(cancel_spec(cards, facts, game), cards),
{
    lemma_set_algebra(cards, 0, 0);
    let a = if facts.no_trump {
        match game {
            Game::Suit => cards & !TRUMP_SUIT,
            Game::Grand => cards & !TRUMP_GRAND,
            Game::Null => cards & !TRUMP_NULL,
        }
    } else {
        cards
    };
    lemma_set_algebra(cards, TRUMP_SUIT, 0);
    lemma_set_algebra(cards, TRUMP_GRAND, 0);
    lemma_set_algebra(cards, TRUMP_NULL, 0);
    let b = if facts.no_clubs {
        match game {
            Game::Suit => a & !TRUMP_SUIT,
            Game::Grand => a & !CLUBS,
            Game::Null => a & !NULL_CLUBS,
        }
    } else {
        a
    };
    lemma_set_algebra(a, TRUMP_SUIT, 0);
    lemma_set_algebra(a, CLUBS, 0);
    lemma_set_algebra(a, NULL_CLUBS, 0);
    crate::position::lemma_subset_trans(b, a, cards);
    let c = if facts.no_spades {
        match game {
            Game::Null => b & !NULL_SPADES,
            _ => b & !SPADES,
        }
    } else {
        b
    };
    lemma_set_algebra(b, NULL_SPADES, 0);
    lemma_set_algebra(b, SPADES, 0);
    crate::position::lemma_subset_trans(c, b, cards);
    let d = if facts.no_hearts {
        match game {
            Game::Null => c & !NULL_HEARTS,
            _ => c & !HEARTS,
        }
    } else {
        c
    };
    lemma_set_algebra(c, NULL_HEARTS, 0);
    lemma_set_algebra(c, HEARTS, 0);
    crate::position::lemma_subset_trans(d, c, cards);
    lemma_set_algebra(d, NULL_DIAMONDS, 0);
    lemma_set_algebra(d, DIAMONDS, 0);
    crate::position::lemma_subset_trans(cancel_spec(cards, facts, game), d, cards);
}

/// Strikes the cards of the suits a player is known to lack.
pub fn cancel_cards_with_facts(cards: u32, facts: Facts, game: Game) -> (r: u32)
    ensures
        r == cancel_spec(cards, facts, game),
        subset(r, cards),
{
    let mut ret_cards = cards;
    proof {
        lemma_set_algebra(cards, 0, 0);
    }
    if facts.no_trump {
        let mask = match game {
            Game::Suit => TRUMP_SUIT,
            Game::Grand => TRUMP_GRAND,
            Game::Null => TRUMP_NULL,
        };
        proof {
            lemma_set_algebra(ret_cards, mask, 0);
            crate::position::lemma_subset_trans(ret_cards & !mask, ret_cards, cards);
        }
        ret_cards = ret_cards & !mask;
    }
    if facts.no_clubs {
        let mask = match game {
            Game::Suit => TRUMP_SUIT,
            Game::Grand => CLUBS,
            Game::Null => NULL_CLUBS,
        };
        proof {
            lemma_set_algebra(ret_cards, mask, 0);
            crate::position::lemma_subset_trans(ret_cards & !mask, ret_cards, cards);
        }
        ret_cards = ret_cards & !mask;
    }
    if facts.no_spades {
        let mask = match game {
            Game::Null => NULL_SPADES,
            _ => SPADES,
        };
        proof {
            lemma_set_algebra(ret_cards, mask, 0);
            crate::position::lemma_subset_trans(ret_cards & !mask, ret_cards, cards);
        }
        ret_cards = ret_cards & !mask;
    }
    if facts.no_hearts {
        let mask = match game {
            Game::Null => NULL_HEARTS,
            _ => HEARTS,
        };
        proof {
            lemma_set_algebra(ret_cards, mask, 0);
            crate::position::lemma_subset_trans(ret_cards & !mask, ret_cards, cards);
        }
        ret_cards = ret_cards & !mask;
    }
    if facts.no_diamonds {
        let mask = match game {
            Game::Null => NULL_DIAMONDS,
            _ => DIAMONDS,
        };
        proof {
            lemma_set_algebra(ret_cards, mask, 0);
            crate::position::lemma_subset_trans(ret_cards & !mask, ret_cards, cards);
        }
        ret_cards = ret_cards & !mask;
    }
    ret_cards
}

/// The cards each of two players gets when both may get `c1` and `c2` respectively: the cards
/// only one may get go to that player, and the cards both may get fill up their hands.
pub open spec fn needed(target: u32, definite: u32) -> nat {
    if target > card_count(definite) {
        (target - card_count(definite)) as nat
    } else {
        0
    }
}

/// There are enough cards that both players may get to fill up both hands.
pub open spec fn draw_feasible(c1: u32, c2: u32, t1: u32, t2: u32) -> bool {
    needed(t1, c1 & !c2) + needed(t2, c2 & !c1) <= card_count(c1 & c2)
}

/// The sets of a draw: the first player's draw from the shared cards, then the second's from
/// what is left.
proof fn lemma_draw_sets(c1: u32, c2: u32, d1: u32, d2: u32)
    by (bit_vector)
    requires
        d1 & (c1 & c2) == d1,
        d2 & ((c1 & c2) & !d1) == d2,
    ensures
        (c1 & !c2) & d1 == 0,
        (c2 & !c1) & d2 == 0,
        ((c1 & !c2) | d1) & c1 == (c1 & !c2) | d1,
        ((c2 & !c1) | d2) & c2 == (c2 & !c1) | d2,
        ((c1 & !c2) | d1) & ((c2 & !c1) | d2) == 0,
        ((c1 & c2) & !d1) & d1 == 0,
        (((c1 & c2) & !d1) | d1) == c1 & c2,
{
}

/// A builder of a game: each part may be set or still missing.
pub struct GameContextBuilder {
    pub declarer_cards: Option<u32>,
    pub left_cards: Option<u32>,
    pub right_cards: Option<u32>,
    pub game_type: Option<Game>,
    pub start_player: Option<Player>,
    pub threshold_upper: Option<u8>,
    pub trick_cards: Option<u32>,
    pub trick_suit: Option<u32>,
    pub declarer_start_points: Option<u8>,
}

/// The empty builder: only the threshold 1, no trick and no start points are set.
pub open spec fn default_builder() -> GameContextBuilder {
    GameContextBuilder {
        declarer_cards: None,
        left_cards: None,
        right_cards: None,
        game_type: None,
        start_player: None,
        threshold_upper: Some(1),
        trick_cards: Some(0),
        trick_suit: Some(0),
        declarer_start_points: Some(0),
    }
}

impl Default for GameContextBuilder {
    fn default() -> (r: GameContextBuilder)
        ensures
            r == default_builder(),
    {
        GameContextBuilder {
            declarer_cards: None,
            left_cards: None,
            right_cards: None,
            game_type: None,
            start_player: None,
            threshold_upper: Some(1),
            trick_cards: Some(0),
            trick_suit: Some(0),
            declarer_start_points: Some(0),
        }
    }
}

impl GameContextBuilder {
    /// The builder with the hand of `player` set to `cards`.
    pub open spec fn with_hand(self, player: Player, cards: Option<u32>) -> GameContextBuilder {
        match player {
            Player::Declarer => GameContextBuilder { declarer_cards: cards, ..self },
            Player::Left => GameContextBuilder { left_cards: cards, ..self },
            Player::Right => GameContextBuilder { right_cards: cards, ..self },
        }
    }

    /// The hand set for `player`.
    pub open spec fn hand(self, player: Player) -> Option<u32> {
        match player {
            Player::Declarer => self.declarer_cards,
            Player::Left => self.left_cards,
            Player::Right => self.right_cards,
        }
    }

    /// The builder is complete and consistent: hands, leading player and trick are set, no
    /// card is in two hands, and at most two cards lie on the table.
    pub open spec fn valid(self) -> bool {
        &&& self.declarer_cards is Some
        &&& self.left_cards is Some
        &&& self.right_cards is Some
        &&& self.start_player is Some
        &&& self.trick_cards is Some
        &&& self.declarer_cards->0 & self.left_cards->0 == 0
        &&& self.left_cards->0 & self.right_cards->0 == 0
        &&& self.declarer_cards->0 & self.right_cards->0 == 0
        &&& card_count(self.trick_cards->0) <= 2
    }

    /// The game the builder makes.
    pub open spec fn build_spec(self) -> GameContext {
        GameContext {
            declarer_cards: match self.declarer_cards {
                Some(c) => c,
                None => 0,
            },
            left_cards: match self.left_cards {
                Some(c) => c,
                None => 0,
            },
            right_cards: match self.right_cards {
                Some(c) => c,
                None => 0,
            },
            game_type: match self.game_type {
                Some(g) => g,
                None => Game::Grand,
            },
            start_player: match self.start_player {
                Some(p) => p,
                None => Player::Declarer,
            },
            threshold_upper: 61,
            trick_cards: match self.trick_cards {
                Some(t) => t,
                None => 0,
            },
            trick_suit: match self.trick_suit {
                Some(t) => t,
                None => 0,
            },
            declarer_start_points: match self.declarer_start_points {
                Some(p) => p,
                None => 0,
            },
        }
    }

    /// An empty builder for a game of the given type.
    pub fn new(game: Game) -> (r: GameContextBuilder)
        ensures
            r == (GameContextBuilder { game_type: Some(game), ..default_builder() }),
    {
        let mut builder = GameContextBuilder::default();
        builder.game_type = Some(game);
        builder
    }

    /// An empty builder for a suit game.
    pub fn new_farbspiel() -> (r: GameContextBuilder)
        ensures
            r == (GameContextBuilder { game_type: Some(Game::Suit), ..default_builder() }),
    {
        GameContextBuilder::new(Game::Suit)
    }

    /// An empty builder for a grand game.
    pub fn new_grand() -> (r: GameContextBuilder)
        ensures
            r == (GameContextBuilder { game_type: Some(Game::Grand), ..default_builder() }),
    {
        GameContextBuilder::new(Game::Grand)
    }

    /// An empty builder for a null game, whose threshold is one trick.
    pub fn new_null() -> (r: GameContextBuilder)
        ensures
            r == (GameContextBuilder {
                game_type: Some(Game::Null),
                threshold_upper: Some(1),
                ..default_builder()
            }),
    {
        let builder = GameContextBuilder::new(Game::Null);
        builder.threshold(1)
    }

    /// Gives `player` the cards named in the text.
    pub fn cards(self, player: Player, cards: &str) -> (r: GameContextBuilder)
        ensures
            r == self.with_hand(player, Some(text_cards(cards.text_bytes()))),
    {
        let mut s = self;
        let cards_bit = cards.__bit();
        match player {
            Player::Declarer => s.declarer_cards = Some(cards_bit),
            Player::Left => s.left_cards = Some(cards_bit),
            Player::Right => s.right_cards = Some(cards_bit),
        }
        s
    }

    /// Gives the three players the cards named in the texts.
    pub fn cards_all(self, declarer_cards: &str, left_cards: &str, right_cards: &str) -> (r:
        GameContextBuilder)
        ensures
            r == (GameContextBuilder {
                declarer_cards: Some(text_cards(declarer_cards.text_bytes())),
                left_cards: Some(text_cards(left_cards.text_bytes())),
                right_cards: Some(text_cards(right_cards.text_bytes())),
                ..self
            }),
    {
        let mut s = self;
        s.declarer_cards = Some(declarer_cards.__bit());
        s.left_cards = Some(left_cards.__bit());
        s.right_cards = Some(right_cards.__bit());
        s
    }

    /// Sets the player who plays first.
    pub fn turn(self, player: Player) -> (r: GameContextBuilder)
        ensures
            r == (GameContextBuilder { start_player: Some(player), ..self }),
    {
        let mut s = self;
        s.start_player = Some(player);
        s
    }

    /// Sets the threshold.
    pub fn threshold(self, threshold_upper: u8) -> (r: GameContextBuilder)
        ensures
            r == (GameContextBuilder { threshold_upper: Some(threshold_upper), ..self }),
    {
        let mut s = self;
        s.threshold_upper = Some(threshold_upper);
        s
    }

    /// Sets the points the declarer starts with.
    pub fn declarer_start_points(self, points: u8) -> (r: GameContextBuilder)
        ensures
            r == (GameContextBuilder { declarer_start_points: Some(points), ..self }),
    {
        let mut s = self;
        s.declarer_start_points = Some(points);
        s
    }

    /// Sets the threshold to one more than half the points in the hands.
    pub fn threshold_half(self) -> (r: GameContextBuilder)
        requires
            self.declarer_cards is Some,
            self.left_cards is Some,
            self.right_cards is Some,
        ensures
            r == (GameContextBuilder {
                threshold_upper: Some(
                    (points(
                        self.declarer_cards->0 | self.left_cards->0 | self.right_cards->0,
                    ) / 2 + 1) as u8,
                ),
                ..self
            }),
    {
        let mut s = self;
        let declarer_cards = match s.declarer_cards {
            Some(c) => c,
            None => 0,
        };
        let left_cards = match s.left_cards {
            Some(c) => c,
            None => 0,
        };
        let right_cards = match s.right_cards {
            Some(c) => c,
            None => 0,
        };
        let all_cards = get_all_unplayed_cards(declarer_cards, left_cards, right_cards);
        proof {
            crate::cards::lemma_bounds(all_cards);
        }
        s.threshold_upper = Some((all_cards.__get_value() / 2) + 1);
        s
    }

    /// Puts on the table the card of the previous player and that of the next player; the
    /// suit is that of the card led: the next player's if there is one, else the previous
    /// player's.
    pub fn trick_from_uproblem(self, trick_card_previous_player: u32, trick_card_next_player: u32)
        -> (r: GameContextBuilder)
        ensures
            ({
                let lead = if trick_card_next_player > 0 {
                    trick_card_next_player
                } else {
                    trick_card_previous_player
                };
                let game = match self.game_type {
                    Some(g) => g,
                    None => Game::Grand,
                };
                r == GameContextBuilder {
                    trick_cards: Some(trick_card_previous_player | trick_card_next_player),
                    trick_suit: Some(
                        if lead != 0 {
                            suit_for_card(lead, game)
                        } else {
                            0
                        },
                    ),
                    ..self
                }
            }),
    {
        let mut s = self;
        let trick_cards = trick_card_previous_player | trick_card_next_player;
        let leading_card = if trick_card_next_player > 0 {
            trick_card_next_player
        } else {
            trick_card_previous_player
        };
        let game_type = match s.game_type {
            Some(g) => g,
            None => Game::Grand,
        };
        let trick_suit = if leading_card != 0 {
            get_suit_for_card(leading_card, game_type)
        } else {
            0
        };
        s.trick_cards = Some(trick_cards);
        s.trick_suit = Some(trick_suit);
        s
    }

    /// Puts the cards named in the text on the table, with the given suit.
    pub fn trick(self, trick_suit: u32, trick_cards: &str) -> (r: GameContextBuilder)
        ensures
            r == (GameContextBuilder {
                trick_cards: Some(text_cards(trick_cards.text_bytes())),
                trick_suit: Some(trick_suit),
                ..self
            }),
    {
        let mut s = self;
        s.trick_cards = Some(trick_cards.__bit());
        s.trick_suit = Some(trick_suit);
        s
    }

    /// The game; parts not set take their defaults (a grand game led by the declarer).
    pub fn build(self) -> (r: GameContext)
        requires
            self.valid(),
        ensures
            r == self.build_spec(),
    {
        let game_type = match self.game_type {
            Some(g) => g,
            None => Game::Grand,
        };
        let mut context = GameContext::create(
            match self.declarer_cards {
                Some(c) => c,
                None => 0,
            },
            match self.left_cards {
                Some(c) => c,
                None => 0,
            },
            match self.right_cards {
                Some(c) => c,
                None => 0,
            },
            game_type,
            match self.start_player {
                Some(p) => p,
                None => Player::Declarer,
            },
        );
        context.set_declarer_start_points(
            match self.declarer_start_points {
                Some(p) => p,
                None => 0,
            },
        );
        if let Some(trick_cards) = self.trick_cards {
            context.set_trick_cards(trick_cards);
        }
        if let Some(trick_suit) = self.trick_suit {
            context.set_trick_suit(trick_suit);
        }
        context
    }

    /// Gives `my_player` the cards `my_cards`.
    pub fn set_cards_for_problem(self, my_cards: u32, my_player: Player) -> (r: GameContextBuilder)
        ensures
            r == self.with_hand(my_player, Some(my_cards)),
    {
        let mut s = self;
        s.set_cards_for_problem_core(my_cards, my_player);
        s
    }

    fn set_cards_for_problem_core(&mut self, my_cards: u32, my_player: Player)
        ensures
            *final(self) == old(self).with_hand(my_player, Some(my_cards)),
    {
        match my_player {
            Player::Declarer => self.declarer_cards = Some(my_cards),
            Player::Left => self.left_cards = Some(my_cards),
            Player::Right => self.right_cards = Some(my_cards),
        }
    }

    /// Splits the cards two players may hold: the cards only one of them may hold go to that
    /// one, and the cards both may hold are drawn at random to fill up their hands to the
    /// targets, the first player first.
    fn draw_cards(
        &mut self,
        cards_player_1: u32,
        cards_player_2: u32,
        _my_cards: u32,
        target_p1: u32,
        target_p2: u32,
    ) -> (r: (u32, u32))
        requires
            draw_feasible(cards_player_1, cards_player_2, target_p1, target_p2),
        ensures
            *final(self) == *old(self),
            subset(r.0, cards_player_1),
            subset(r.1, cards_player_2),
            r.0 & r.1 == 0,
            card_count(r.0) == card_count(cards_player_1 & !cards_player_2) + needed(
                target_p1,
                cards_player_1 & !cards_player_2,
            ),
            card_count(r.1) == card_count(cards_player_2 & !cards_player_1) + needed(
                target_p2,
                cards_player_2 & !cards_player_1,
            ),
    {
        let definite_cards_player_1 = cards_player_1 & !cards_player_2;
        let definite_cards_player_2 = cards_player_2 & !cards_player_1;
        let ambiguous_cards = cards_player_1 & cards_player_2;
        let nr_definite_cards_player_1 = crate::cards::count_cards(definite_cards_player_1);
        let nr_definite_cards_player_2 = crate::cards::count_cards(definite_cards_player_2);
        let needed_for_p1 = if target_p1 > nr_definite_cards_player_1 {
            target_p1 - nr_definite_cards_player_1
        } else {
            0
        };
        let needed_for_p2 = if target_p2 > nr_definite_cards_player_2 {
            target_p2 - nr_definite_cards_player_2
        } else {
            0
        };
        let draw_player_1 = random_cards(ambiguous_cards, needed_for_p1);
        let proposed_player_1 = definite_cards_player_1 | draw_player_1;
        let remaining_ambiguous = ambiguous_cards & !draw_player_1;
        proof {
            lemma_set_algebra(ambiguous_cards, draw_player_1, 0);
            crate::cards::lemma_union(remaining_ambiguous, draw_player_1);
        }
        let draw_player_2 = random_cards(remaining_ambiguous, needed_for_p2);
        let proposed_player_2 = definite_cards_player_2 | draw_player_2;
        proof {
            crate::position::lemma_subset_trans(
                draw_player_2,
                remaining_ambiguous,
                ambiguous_cards,
            );
            lemma_draw_sets(cards_player_1, cards_player_2, draw_player_1, draw_player_2);
            crate::cards::lemma_union(definite_cards_player_1, draw_player_1);
            crate::cards::lemma_union(definite_cards_player_2, draw_player_2);
        }
        (proposed_player_1, proposed_player_2)
    }
}

/// The cards the two other players may hold: all cards but mine and those on the table.
pub open spec fn others_pool(all_cards: u32, prev_table: u32, next_table: u32, my_cards: u32) -> u32 {
    (all_cards & !my_cards) & !prev_table & !next_table
}

/// How many cards a player still holds who has `table` on the table, when I hold `my_cards`.
pub open spec fn hand_target(my_cards: u32, table: u32) -> int {
    card_count(my_cards) - if table != 0 {
        1int
    } else {
        0int
    }
}

/// The cards the next player may get: the pool without the suits the player lacks.
pub open spec fn next_candidates(
    pool: u32,
    next_table: u32,
    my_cards: u32,
    facts: Facts,
    game: Game,
) -> u32 {
    if hand_target(my_cards, next_table) == 0 {
        0
    } else {
        cancel_spec(pool, facts, game)
    }
}

/// The cards the previous player may get: the pool without the suits the player lacks and
/// without the next player's card on the table.
pub open spec fn prev_candidates(
    pool: u32,
    prev_table: u32,
    next_table: u32,
    my_cards: u32,
    facts: Facts,
    game: Game,
) -> u32 {
    if hand_target(my_cards, prev_table) == 0 {
        0
    } else {
        cancel_spec(pool, facts, game) & !next_table
    }
}

/// Dealing the other players' cards cannot fail: I hold a card if one lies on the table, and
/// the cards both players may hold suffice to fill up their hands.
pub open spec fn deal_feasible(
    all_cards: u32,
    prev_table: u32,
    next_table: u32,
    my_cards: u32,
    next_facts: Facts,
    prev_facts: Facts,
    game: Game,
) -> bool {
    let pool = others_pool(all_cards, prev_table, next_table, my_cards);
    let nc = next_candidates(pool, next_table, my_cards, next_facts, game);
    let pc = prev_candidates(pool, prev_table, next_table, my_cards, prev_facts, game);
    &&& (card_count(my_cards) >= 1 || (prev_table == 0 && next_table == 0))
    &&& draw_feasible(
        nc,
        pc,
        hand_target(my_cards, next_table) as u32,
        hand_target(my_cards, prev_table) as u32,
    )
}

impl GameContextBuilder {
    /// Deals the cards I cannot see to the next and the previous player: each gets only cards
    /// of suits not known to be missing from the hand, the cards on the table stay with who
    /// played them, and the hands are filled up at random.
    pub fn set_cards_for_other_players(
        self,
        all_cards: u32,
        card_on_table_previous_player: u32,
        card_on_table_next_player: u32,
        my_cards: u32,
        my_player: Player,
        next_player_facts: Facts,
        previous_player_facts: Facts,
    ) -> (r: GameContextBuilder)
        requires
            self.game_type is Some,
            deal_feasible(
                all_cards,
                card_on_table_previous_player,
                card_on_table_next_player,
                my_cards,
                next_player_facts,
                previous_player_facts,
                self.game_type->0,
            ),
        ensures
            ({
                let pool = others_pool(
                    all_cards,
                    card_on_table_previous_player,
                    card_on_table_next_player,
                    my_cards,
                );
                let nc = next_candidates(
                    pool,
                    card_on_table_next_player,
                    my_cards,
                    next_player_facts,
                    self.game_type->0,
                );
                let pc = prev_candidates(
                    pool,
                    card_on_table_previous_player,
                    card_on_table_next_player,
                    my_cards,
                    previous_player_facts,
                    self.game_type->0,
                );
                exists|dn: u32, dp: u32|
                    {
                        &&& subset(dn, nc)
                        &&& subset(dp, pc)
                        &&& dn & dp == 0
                        &&& card_count(dn) == card_count(nc & !pc) + needed(
                            hand_target(my_cards, card_on_table_next_player) as u32,
                            nc & !pc,
                        )
                        &&& card_count(dp) == card_count(pc & !nc) + needed(
                            hand_target(my_cards, card_on_table_previous_player) as u32,
                            pc & !nc,
                        )
                        &&& r == self.with_hand(
                            player_at(my_player, 1),
                            Some(dn | card_on_table_next_player),
                        ).with_hand(
                            player_at(my_player, 2),
                            Some(dp | card_on_table_previous_player),
                        )
                    }
            }),
    {
        let mut s = self;
        let cards_on_hands_of_both_other_players = (all_cards & !my_cards)
            & !card_on_table_previous_player & !card_on_table_next_player;
        let game_type = match s.game_type {
            Some(g) => g,
            None => Game::Grand,
        };
        let mut cards_next_player = cancel_cards_with_facts(
            cards_on_hands_of_both_other_players,
            next_player_facts,
            game_type,
        );
        let mut cards_previous_player = cancel_cards_with_facts(
            cards_on_hands_of_both_other_players,
            previous_player_facts,
            game_type,
        );
        cards_previous_player = cards_previous_player & !card_on_table_next_player;
        let my_cards_count = crate::cards::count_cards(my_cards);
        let target_next = my_cards_count - if card_on_table_next_player != 0 {
            1
        } else {
            0
        };
        let target_prev = my_cards_count - if card_on_table_previous_player != 0 {
            1
        } else {
            0
        };
        if target_next == 0 {
            cards_next_player = 0;
        }
        if target_prev == 0 {
            cards_previous_player = 0;
        }
        let proposed_draw = s.draw_cards(
            cards_next_player,
            cards_previous_player,
            my_cards,
            target_next,
            target_prev,
        );
        let next_cards = proposed_draw.0 | card_on_table_next_player;
        let previous_cards = proposed_draw.1 | card_on_table_previous_player;
        let ghost before = s;
        s.set_cards_for_problem_core(next_cards, my_player.inc());
        s.set_cards_for_problem_core(previous_cards, my_player.dec());
        proof {
            assert(s == before.with_hand(player_at(my_player, 1), Some(next_cards)).with_hand(
                player_at(my_player, 2),
                Some(previous_cards),
            ));
            assert(before == self);
        }
        s
    }
}

} // verus!
