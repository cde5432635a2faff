//! The static parameters of a game: the hands, the game type, who leads, the winning threshold.
use vstd::prelude::*;
use crate::cards::{card_count, subset};
use crate::consts::{ALLCARDS, CLUBS, DIAMONDS, HEARTS, JACKOFCLUBS, SPADES};
use crate::defs::{Game, Player};
use crate::position::Position;
use crate::rules::{get_suit_for_card, suit_for_card};

verus! {

/// A suit game for another trump suit is solved as a clubs game with that suit's cards
/// exchanged with the clubs.
#[derive(Clone, Copy, Debug, PartialEq, Eq, Structural)]
pub enum ProblemTransformation {
    SpadesSwitch,
    HeartsSwitch,
    DiamondsSwitch,
}

/// How far the cards of the exchanged suit lie below the clubs.
pub open spec fn switch_shift(switch: ProblemTransformation) -> u32 {
    match switch {
        ProblemTransformation::SpadesSwitch => 7,
        ProblemTransformation::HeartsSwitch => 14,
        ProblemTransformation::DiamondsSwitch => 21,
    }
}

/// The suit that is exchanged with the clubs.
pub open spec fn switch_suit(switch: ProblemTransformation) -> u32 {
    match switch {
        ProblemTransformation::SpadesSwitch => SPADES,
        ProblemTransformation::HeartsSwitch => HEARTS,
        ProblemTransformation::DiamondsSwitch => DIAMONDS,
    }
}

/// The cards with the clubs (jack excluded) and the exchanged suit swapped.
pub open spec fn switched(cards: u32, shift: u32, suit: u32) -> u32 {
    ((cards & CLUBS) >> shift) | ((cards & suit) << shift) | (cards & !(CLUBS | suit))
}

/// A game: the three hands, the game type, the player who leads, the threshold of a win,
/// and the trick on the table when the game starts.
#[derive(Clone, Copy)]
pub struct GameContext {
    pub declarer_cards: u32,
    pub left_cards: u32,
    pub right_cards: u32,
    pub game_type: Game,
    pub start_player: Player,
    pub threshold_upper: u8,
    pub trick_cards: u32,
    pub trick_suit: u32,
    pub declarer_start_points: u8,
}

/// A deal that can be played: the hands do not overlap and hold at most ten cards each.
pub open spec fn deal_ok(ctx: GameContext) -> bool {
    &&& ctx.declarer_cards & ctx.left_cards == 0
    &&& ctx.declarer_cards & ctx.right_cards == 0
    &&& ctx.left_cards & ctx.right_cards == 0
    &&& card_count(ctx.declarer_cards) <= 10
    &&& card_count(ctx.left_cards) <= 10
    &&& card_count(ctx.right_cards) <= 10
}

/// The message about unequal hand sizes, with the three sizes.
pub open spec fn count_mismatch_text(n_declarer: u32, n_left: u32, n_right: u32) -> Seq<char> {
    "Card counts mismatch: Declarer="@ + crate::skat_game::decimal(n_declarer) + ", Left="@
        + crate::skat_game::decimal(n_left) + ", Right="@ + crate::skat_game::decimal(n_right)
        + ". They must be equal when no trick is active."@
}

/// The message about a trick suit that fits no card on the table.
pub open spec fn trick_suit_text(trick_suit: u32) -> Seq<char> {
    "Trick suit "@ + crate::skat_game::decimal(trick_suit)
        + " is not compatible with any card on the table"@
}

/// The message about unequal hand sizes.
fn count_mismatch_message(n_declarer: u32, n_left: u32, n_right: u32) -> (r: String)
    ensures
        r@ == count_mismatch_text(n_declarer, n_left, n_right),
{
    let mut s = owned("Card counts mismatch: Declarer=");
    s.append(crate::skat_game::decimal_text(n_declarer).as_str());
    s.append(", Left=");
    s.append(crate::skat_game::decimal_text(n_left).as_str());
    s.append(", Right=");
    s.append(crate::skat_game::decimal_text(n_right).as_str());
    s.append(". They must be equal when no trick is active.");
    s
}

/// The message about a trick suit that fits no card on the table.
fn trick_suit_message(trick_suit: u32) -> (r: String)
    ensures
        r@ == trick_suit_text(trick_suit),
{
    let mut s = owned("Trick suit ");
    s.append(crate::skat_game::decimal_text(trick_suit).as_str());
    s.append(" is not compatible with any card on the table");
    s
}

/// Makes an owned string of a string literal.
fn owned(s: &str) -> (r: String)
    ensures
        r@ == s@,
{
    s.to_owned()
}

/// Some card of the trick belongs to the trick suit.
pub open spec fn trick_suit_fits(ctx: GameContext) -> bool {
    exists|i: int|
        0 <= i < crate::cards::cards_of(ctx.trick_cards).len() && suit_for_card(
            #[trigger] crate::cards::cards_of(ctx.trick_cards)[i],
            ctx.game_type,
        ) == ctx.trick_suit
}

/// The conditions that `validate` checks.
pub open spec fn context_valid(ctx: GameContext) -> bool {
    &&& ctx.trick_cards == 0 ==> (card_count(ctx.declarer_cards) == card_count(ctx.left_cards)
        && card_count(ctx.declarer_cards) == card_count(ctx.right_cards))
    &&& ctx.trick_cards != 0 ==> (ctx.trick_suit != 0 && trick_suit_fits(ctx))
}

impl GameContext {
    /// A game with the given hands, type and leading player; 61 points win, no trick is on
    /// the table.
    pub open spec fn create_spec(
        declarer_cards: u32,
        left_cards: u32,
        right_cards: u32,
        game_type: Game,
        start_player: Player,
    ) -> GameContext {
        GameContext {
            declarer_cards,
            left_cards,
            right_cards,
            game_type,
            start_player,
            threshold_upper: 61,
            trick_cards: 0,
            trick_suit: 0,
            declarer_start_points: 0,
        }
    }

    /// A game with the given hands, type and leading player; 61 points win, no trick is on
    /// the table.
    pub fn create(
        declarer_cards: u32,
        left_cards: u32,
        right_cards: u32,
        game_type: Game,
        start_player: Player,
    ) -> (r: Self)
        ensures
            r == Self::create_spec(declarer_cards, left_cards, right_cards, game_type, start_player),
    {
        Self {
            declarer_cards,
            left_cards,
            right_cards,
            game_type,
            start_player,
            threshold_upper: 61,
            trick_cards: 0,
            trick_suit: 0,
            declarer_start_points: 0,
        }
    }

    /// An empty grand game led by the declarer.
    pub fn default() -> (r: Self)
        ensures
            r == (GameContext {
                declarer_cards: 0,
                left_cards: 0,
                right_cards: 0,
                game_type: Game::Grand,
                start_player: Player::Declarer,
                threshold_upper: 61,
                trick_cards: 0,
                trick_suit: 0,
                declarer_start_points: 0,
            }),
    {
        Self {
            declarer_cards: 0,
            left_cards: 0,
            right_cards: 0,
            game_type: Game::Grand,
            start_player: Player::Declarer,
            threshold_upper: 61,
            trick_cards: 0,
            trick_suit: 0,
            declarer_start_points: 0,
        }
    }

    pub fn set_declarer_cards(&mut self, declarer_cards: u32)
        ensures
            *final(self) == (GameContext { declarer_cards, ..*old(self) }),
    {
        self.declarer_cards = declarer_cards;
    }

    pub fn set_left_cards(&mut self, left_cards: u32)
        ensures
            *final(self) == (GameContext { left_cards, ..*old(self) }),
    {
        self.left_cards = left_cards;
    }

    pub fn set_right_cards(&mut self, right_cards: u32)
        ensures
            *final(self) == (GameContext { right_cards, ..*old(self) }),
    {
        self.right_cards = right_cards;
    }

    pub fn set_game_type(&mut self, game_type: Game)
        ensures
            *final(self) == (GameContext { game_type, ..*old(self) }),
    {
        self.game_type = game_type;
    }

    pub fn set_start_player(&mut self, start_player: Player)
        ensures
            *final(self) == (GameContext { start_player, ..*old(self) }),
    {
        self.start_player = start_player;
    }

    pub fn set_threshold_upper(&mut self, threshold_upper: u8)
        ensures
            *final(self) == (GameContext { threshold_upper, ..*old(self) }),
    {
        self.threshold_upper = threshold_upper;
    }

    pub fn set_trick_cards(&mut self, trick_cards: u32)
        ensures
            *final(self) == (GameContext { trick_cards, ..*old(self) }),
    {
        self.trick_cards = trick_cards;
    }

    pub fn set_trick_suit(&mut self, trick_suit: u32)
        ensures
            *final(self) == (GameContext { trick_suit, ..*old(self) }),
    {
        self.trick_suit = trick_suit;
    }

    pub fn set_declarer_start_points(&mut self, points: u8)
        ensures
            *final(self) == (GameContext { declarer_start_points: points, ..*old(self) }),
    {
        self.declarer_start_points = points;
    }

    pub fn declarer_cards(&self) -> (r: u32)
        ensures
            r == self.declarer_cards,
    {
        self.declarer_cards
    }

    pub fn left_cards(&self) -> (r: u32)
        ensures
            r == self.left_cards,
    {
        self.left_cards
    }

    pub fn right_cards(&self) -> (r: u32)
        ensures
            r == self.right_cards,
    {
        self.right_cards
    }

    pub fn game_type(&self) -> (r: Game)
        ensures
            r == self.game_type,
    {
        self.game_type
    }

    pub fn start_player(&self) -> (r: Player)
        ensures
            r == self.start_player,
    {
        self.start_player
    }

    /// The points the declarer needs to win.
    pub fn points_to_win(&self) -> (r: u8)
        ensures
            r == self.threshold_upper,
    {
        self.threshold_upper
    }

    pub fn trick_cards(&self) -> (r: u32)
        ensures
            r == self.trick_cards,
    {
        self.trick_cards
    }

    pub fn trick_suit(&self) -> (r: u32)
        ensures
            r == self.trick_suit,
    {
        self.trick_suit
    }

    /// The points of all cards of a game.
    pub fn total_points(&self) -> (r: u8)
        ensures
            r == 120,
    {
        120
    }

    /// The cards in no hand and not on the table.
    pub open spec fn get_skat_spec(&self) -> u32 {
        ALLCARDS ^ self.declarer_cards ^ self.left_cards ^ self.right_cards ^ self.trick_cards
    }

    /// The cards in no hand and not on the table: the skat.
    pub fn get_skat(&self) -> (r: u32)
        ensures
            r == self.get_skat_spec(),
    {
        ALLCARDS ^ self.declarer_cards ^ self.left_cards ^ self.right_cards ^ self.trick_cards
    }

    /// The position at the start of the game.
    pub fn create_initial_position(&self) -> (r: Position)
        ensures
            r == Position::initial_spec(*self),
            deal_ok(*self) ==> r.wf(*self),
    {
        Position::create_initial_position(self)
    }

    /// The game with clubs and another suit exchanged in all three hands.
    pub open spec fn create_transformation_spec(
        p: GameContext,
        switch: ProblemTransformation,
    ) -> GameContext {
        GameContext {
            declarer_cards: switched(p.declarer_cards, switch_shift(switch), switch_suit(switch)),
            left_cards: switched(p.left_cards, switch_shift(switch), switch_suit(switch)),
            right_cards: switched(p.right_cards, switch_shift(switch), switch_suit(switch)),
            ..p
        }
    }

    /// The game with clubs and another suit exchanged in all three hands.
    pub fn create_transformation(p: GameContext, switch: ProblemTransformation) -> (r: GameContext)
        ensures
            r == Self::create_transformation_spec(p, switch),
    {
        let switched_declarer_cards = GameContext::get_switched_cards(p.declarer_cards, switch);
        let switched_left_cards = GameContext::get_switched_cards(p.left_cards, switch);
        let switched_right_cards = GameContext::get_switched_cards(p.right_cards, switch);

        GameContext {
            declarer_cards: switched_declarer_cards,
            left_cards: switched_left_cards,
            right_cards: switched_right_cards,
            game_type: p.game_type,
            start_player: p.start_player,
            threshold_upper: p.threshold_upper,
            trick_cards: p.trick_cards,
            trick_suit: p.trick_suit,
            declarer_start_points: p.declarer_start_points,
        }
    }

    /// The cards with the clubs (jack excluded) and the given suit exchanged.
    pub fn get_switched_cards(cards: u32, switch: ProblemTransformation) -> (r: u32)
        ensures
            r == switched(cards, switch_shift(switch), switch_suit(switch)),
    {
        let shift: u32 = match switch {
            ProblemTransformation::SpadesSwitch => 7,
            ProblemTransformation::HeartsSwitch => 14,
            ProblemTransformation::DiamondsSwitch => 21,
        };
        let suit: u32 = match switch {
            ProblemTransformation::SpadesSwitch => SPADES,
            ProblemTransformation::HeartsSwitch => HEARTS,
            ProblemTransformation::DiamondsSwitch => DIAMONDS,
        };
        proof {
            lemma_switch_masks(cards, shift);
        }
        let mut ret = 0u32;
        let mut rest = cards;
        proof {
            lemma_switch_masks(0, shift);
            crate::cards::lemma_set_algebra(cards, 0, 0);
        }
        while rest != 0
            invariant
                suit == switch_suit(switch),
                shift == switch_shift(switch),
                suit == CLUBS >> shift,
                subset(rest, cards),
                ret == switched(cards & !rest, shift, suit),
            decreases card_count(rest),
        {
            proof {
                crate::cards::lemma_highest(rest);
                crate::cards::lemma_remove_card(
                    rest,
                    31 - vstd::std_specs::bits::u32_leading_zeros(rest),
                );
            }
            let h = 31 - rest.leading_zeros();
            let current_card = 1u32 << h;
            proof {
                crate::cards::lemma_bit_facts(0, 0, h);
                crate::cards::lemma_card_subset(rest, h as int);
            }
            let mut target_card = current_card;
            if current_card & CLUBS > 0 {
                target_card = target_card >> shift;
            }
            if current_card & suit > 0 {
                target_card = target_card << shift;
            }
            proof {
                lemma_switch_step(cards, rest, current_card, shift, ret, target_card);
            }
            ret = ret ^ target_card;
            rest = rest & !current_card;
        }
        proof {
            crate::cards::lemma_set_algebra(cards, 0, 0);
        }
        ret
    }

    /// Checks that the hands have equal size when no trick is on the table, and that the trick
    /// suit fits a card on the table.
    pub fn validate(&self) -> (r: Result<(), String>)
        ensures
            r is Ok <==> context_valid(*self),
            self.trick_cards == 0 && !(card_count(self.declarer_cards) == card_count(
                self.left_cards,
            ) && card_count(self.declarer_cards) == card_count(self.right_cards)) ==> (r matches Err(
                m,
            ) && m@ == count_mismatch_text(
                card_count(self.declarer_cards) as u32,
                card_count(self.left_cards) as u32,
                card_count(self.right_cards) as u32,
            )),
            self.trick_cards != 0 && self.trick_suit == 0 ==> (r matches Err(m) && m@
                == "Trick cards present but trick suit is 0"@),
            self.trick_cards != 0 && self.trick_suit != 0 && !trick_suit_fits(*self) ==> (
            r matches Err(m) && m@ == trick_suit_text(self.trick_suit)),
    {
        let c = self.check_equal_card_count();
        if c.is_err() {
            return c;
        }
        if self.trick_cards != 0 {
            if self.trick_suit == 0 {
                return Err(owned("Trick cards present but trick suit is 0"));
            }
            let (cards, n) = crate::cards::Bitboard::__decompose(&self.trick_cards);
            let ghost s = crate::cards::cards_of(self.trick_cards);
            proof {
                crate::cards::lemma_high_cards_len(self.trick_cards, 0);
                crate::cards::lemma_bounds(self.trick_cards);
            }
            let mut i: usize = 0;
            while i < n
                invariant
                    s == crate::cards::cards_of(self.trick_cards),
                    n == s.len(),
                    n <= 32,
                    cards@.subrange(0, n as int) == s,
                    i <= n,
                    context_valid(*self) <==> trick_suit_fits(*self),
                    forall|j: int| 0 <= j < i ==> suit_for_card(#[trigger] s[j], self.game_type)
                        != self.trick_suit,
                decreases n - i,
            {
                assert(cards@[i as int] == s[i as int]);
                let su = get_suit_for_card(cards[i], self.game_type);
                if su == self.trick_suit {
                    assert(suit_for_card(
                        crate::cards::cards_of(self.trick_cards)[i as int],
                        self.game_type,
                    ) == self.trick_suit);
                    return Ok(());
                }
                i = i + 1;
            }
            assert(!trick_suit_fits(*self)) by {
                if trick_suit_fits(*self) {
                    let w = choose|w: int|
                        0 <= w < crate::cards::cards_of(self.trick_cards).len() && suit_for_card(
                            #[trigger] crate::cards::cards_of(self.trick_cards)[w],
                            self.game_type,
                        ) == self.trick_suit;
                    assert(suit_for_card(s[w], self.game_type) != self.trick_suit);
                }
            }
            return Err(trick_suit_message(self.trick_suit));
        }
        Ok(())
    }

    fn check_equal_card_count(&self) -> (r: Result<(), String>)
        ensures
            r is Ok <==> (self.trick_cards == 0 ==> (card_count(self.declarer_cards) == card_count(
                self.left_cards,
            ) && card_count(self.declarer_cards) == card_count(self.right_cards))),
            r matches Err(m) ==> m@ == count_mismatch_text(
                card_count(self.declarer_cards) as u32,
                card_count(self.left_cards) as u32,
                card_count(self.right_cards) as u32,
            ),
    {
        if self.trick_cards == 0 {
            let n_declarer = crate::cards::count_cards(self.declarer_cards);
            let n_left = crate::cards::count_cards(self.left_cards);
            let n_right = crate::cards::count_cards(self.right_cards);

            if n_declarer != n_left || n_declarer != n_right {
                return Err(count_mismatch_message(n_declarer, n_left, n_right));
            }
        }
        Ok(())
    }
}

/// The exchanged suits lie below the clubs, exchanging nothing gives nothing, and
/// exchanging twice gives the cards back.
proof fn lemma_switch_masks(cards: u32, shift: u32)
    by (bit_vector)
    requires
        shift == 7 || shift == 14 || shift == 21,
    ensures
        shift == 7 ==> SPADES == CLUBS >> shift,
        shift == 14 ==> HEARTS == CLUBS >> shift,
        shift == 21 ==> DIAMONDS == CLUBS >> shift,
        ((0u32 & CLUBS) >> shift) | ((0u32 & (CLUBS >> shift)) << shift) | (0u32 & !(CLUBS | (
        CLUBS >> shift))) == 0u32,
        ((((((cards & CLUBS) >> shift) | ((cards & (CLUBS >> shift)) << shift) | (cards & !(CLUBS
            | (CLUBS >> shift)))) & CLUBS) >> shift) | (((((cards & CLUBS) >> shift) | ((cards & (
        CLUBS >> shift)) << shift) | (cards & !(CLUBS | (CLUBS >> shift)))) & (CLUBS >> shift))
            << shift) | ((((cards & CLUBS) >> shift) | ((cards & (CLUBS >> shift)) << shift) | (
        cards & !(CLUBS | (CLUBS >> shift)))) & !(CLUBS | (CLUBS >> shift)))) == cards,
{
}

proof fn lemma_switch_step(cards: u32, rest: u32, c: u32, shift: u32, ret: u32, target: u32)
    by (bit_vector)
    requires
        shift == 7 || shift == 14 || shift == 21,
        rest & cards == rest,
        c & rest == c,
        c != 0,
        c & ((c - 1) as u32) == 0,
        ret == ((((cards & !rest) & 0x0FE0_0000u32) >> shift) | (((cards & !rest) & (0x0FE0_0000u32
            >> shift)) << shift) | ((cards & !rest) & !(0x0FE0_0000u32 | (0x0FE0_0000u32
            >> shift)))),
        target == if c & (0x0FE0_0000u32 >> shift) != 0 {
            (if c & 0x0FE0_0000u32 != 0 {
                c >> shift
            } else {
                c
            }) << shift
        } else {
            if c & 0x0FE0_0000u32 != 0 {
                c >> shift
            } else {
                c
            }
        },
    ensures
        (rest & !c) & cards == rest & !c,
        ret ^ target == ((((cards & !(rest & !c)) & 0x0FE0_0000u32) >> shift) | (((cards & !(rest
            & !c)) & (0x0FE0_0000u32 >> shift)) << shift) | ((cards & !(rest & !c)) & !(
        0x0FE0_0000u32 | (0x0FE0_0000u32 >> shift)))),
{
}

/// The three parts of an exchange: the clubs moved down, the exchanged suit moved up, and the
/// rest; they do not overlap, the moved suit lands in the clubs, and disjoint sets stay
/// disjoint.
proof fn lemma_switch_bits(a: u32, b: u32, shift: u32, k: u32)
    by (bit_vector)
    requires
        shift == 7 || shift == 14 || shift == 21,
        k < 32,
    ensures
        k < 21 ==> CLUBS & (1u32 << k) == 0,
        ((a & (CLUBS >> shift)) << shift) >> shift == a & (CLUBS >> shift),
        ((a & (CLUBS >> shift)) << shift) & CLUBS == (a & (CLUBS >> shift)) << shift,
        ((a & CLUBS) >> shift) & ((a & (CLUBS >> shift)) << shift) == 0,
        (((a & CLUBS) >> shift) | ((a & (CLUBS >> shift)) << shift)) & (a & !(CLUBS | (CLUBS
            >> shift))) == 0,
        (a & CLUBS) & (a & (CLUBS >> shift)) == 0,
        ((a & CLUBS) | (a & (CLUBS >> shift))) & (a & !(CLUBS | (CLUBS >> shift))) == 0,
        ((a & CLUBS) | (a & (CLUBS >> shift))) | (a & !(CLUBS | (CLUBS >> shift))) == a,
        a & b == 0 ==> (((a & CLUBS) >> shift) | ((a & (CLUBS >> shift)) << shift) | (a & !(CLUBS
            | (CLUBS >> shift)))) & (((b & CLUBS) >> shift) | ((b & (CLUBS >> shift)) << shift) | (
        b & !(CLUBS | (CLUBS >> shift)))) == 0,
{
}

/// A subset of the clubs holds no card below index 21.
proof fn lemma_in_clubs_low(x: u32, shift: u32)
    requires
        shift == 7 || shift == 14 || shift == 21,
        subset(x, CLUBS),
    ensures
        forall|j: int| 0 <= j < shift ==> !crate::cards::has_card(x, j),
{
    assert forall|j: int| 0 <= j < shift implies !crate::cards::has_card(x, j) by {
        lemma_switch_bits(0, 0, shift, j as u32);
        crate::cards::lemma_has_ops(x, CLUBS, j);
    }
}

/// Exchanging the clubs with a suit keeps the number of cards.
pub proof fn lemma_switch_count(a: u32, switch: ProblemTransformation)
    ensures
        card_count(switched(a, switch_shift(switch), switch_suit(switch))) == card_count(a),
{
    let shift = switch_shift(switch);
    lemma_switch_masks(a, shift);
    lemma_switch_bits(a, 0, shift, 0);
    let suit = CLUBS >> shift;
    let c = a & CLUBS;
    let m = a & suit;
    let rest = a & !(CLUBS | suit);
    let p1 = c >> shift;
    let p2 = m << shift;
    crate::cards::lemma_set_algebra(a, CLUBS, 0);
    lemma_in_clubs_low(c, shift);
    crate::cards::lemma_shr_count(c, shift);
    lemma_in_clubs_low(p2, shift);
    crate::cards::lemma_shr_count(p2, shift);
    crate::cards::lemma_union(p1, p2);
    crate::cards::lemma_union(p1 | p2, rest);
    crate::cards::lemma_union(c, m);
    crate::cards::lemma_union(c | m, rest);
}

/// Exchanging the clubs with a suit in all hands keeps a playable deal playable, with the same
/// hand sizes.
pub proof fn lemma_switch_deal(ctx: GameContext, switch: ProblemTransformation)
    requires
        deal_ok(ctx),
    ensures
        deal_ok(GameContext::create_transformation_spec(ctx, switch)),
        card_count(GameContext::create_transformation_spec(ctx, switch).declarer_cards)
            == card_count(ctx.declarer_cards),
        card_count(GameContext::create_transformation_spec(ctx, switch).left_cards)
            == card_count(ctx.left_cards),
        card_count(GameContext::create_transformation_spec(ctx, switch).right_cards)
            == card_count(ctx.right_cards),
{
    let shift = switch_shift(switch);
    lemma_switch_masks(0, shift);
    lemma_switch_count(ctx.declarer_cards, switch);
    lemma_switch_count(ctx.left_cards, switch);
    lemma_switch_count(ctx.right_cards, switch);
    lemma_switch_bits(ctx.declarer_cards, ctx.left_cards, shift, 0);
    lemma_switch_bits(ctx.declarer_cards, ctx.right_cards, shift, 0);
    lemma_switch_bits(ctx.left_cards, ctx.right_cards, shift, 0);
}

/// Exchanging the clubs with a suit twice gives back the cards.
pub proof fn lemma_switch_involution(cards: u32, switch: ProblemTransformation)
    ensures
        switched(
            switched(cards, switch_shift(switch), switch_suit(switch)),
            switch_shift(switch),
            switch_suit(switch),
        ) == cards,
{
    lemma_switch_masks(cards, switch_shift(switch));
}

} // verus!
