//! A game of Skat played by a user against the solver: dealing, choosing the game and the
//! skat, the moves of both sides with undo, and what the user is shown.
use vstd::prelude::*;
use vstd::string::StringSliceAdditionalSpecFns;
use crate::builder::random_cards;
use crate::cards::{card_count, count_cards, is_card, single_card, subset};
use crate::consts::{ALLCARDS, JACKOFCLUBS, JACKOFDIAMONDS, JACKOFHEARTS, JACKOFSPADES};
use crate::context::{deal_ok, GameContext, ProblemTransformation};
use crate::convert::{push_char, BitConverter, StringConverter};
use crate::defs::{Game, Player};
use crate::engine::SkatEngine;
use crate::formatter::bytes_are;
use crate::position::Position;
use crate::pimc_search::deal_playable;
use crate::solver::{solve_optimum_from_position, OptimumMode};
use crate::augen::Augen;
use vstd::string::StringExecFns;

verus! {

/// A card played and who played it, as the user sees them.
pub struct PlayInfo {
    pub card: String,
    pub player: String,
}

/// One move of the game's log: the card (as the user sees it), its player, the values of the
/// game before and after it when computed, and their difference.
pub struct MoveLogEntry {
    pub card: String,
    pub player: String,
    pub value_before: Option<i32>,
    pub value_after: Option<i32>,
    pub delta: Option<i32>,
}

/// The value of playing one card: the value after it and its difference to the best value.
pub struct MoveAnalysis {
    pub card: String,
    pub value: i32,
    pub delta: i32,
    pub is_best: bool,
}

/// The best card and the game's value.
pub struct Hint {
    pub best_card: String,
    pub value: i32,
}

/// What the user is shown of the game.
pub struct GameState {
    pub my_cards: String,
    pub trick_cards: String,
    pub trick_plays: Vec<PlayInfo>,
    pub trick_suit: String,
    pub current_value: i32,
    pub last_loss: i32,
    pub game_over: bool,
    pub winner: Option<String>,
    pub declarer_points: u8,
    pub team_points: u8,
    pub max_possible_points: u8,
    pub current_player: String,
    pub last_trick_cards: Option<String>,
    pub last_trick_plays: Vec<PlayInfo>,
    pub last_trick_winner: Option<String>,
    pub last_trick_points: Option<u8>,
    pub left_cards: String,
    pub right_cards: String,
    pub skat_cards: String,
    pub move_history: Vec<MoveLogEntry>,
    pub legal_moves: Vec<String>,
}

/// A game between the user, who plays the declarer, and the solver.
pub struct SkatGame {
    pub engine: SkatEngine,
    pub user_player: Player,
    pub history: Vec<(Position, Vec<(u32, Player)>)>,
    pub last_loss: i32,
    pub last_trick_cards: Option<u32>,
    pub last_trick_winner: Option<Player>,
    pub last_trick_points: Option<u8>,
    pub last_trick_plays: Vec<(u32, Player)>,
    pub current_position: Position,
    pub current_trick_plays: Vec<(u32, Player)>,
    pub skat_cards: u32,
    pub max_possible_points: u8,
    pub current_value: i32,
    pub game_selection_phase: bool,
    pub initial_deal: Option<GameContext>,
    pub move_sequence: Vec<(u32, Player)>,
    pub analysis_values: Vec<Option<i32>>,
    pub active_transformation: Option<ProblemTransformation>,
}

/// The cards as the user sees them: with the exchange of suits of the game undone.
pub open spec fn to_user(cards: u32, t: Option<ProblemTransformation>) -> u32 {
    match t {
        Some(t) => crate::context::switched(
            cards,
            crate::context::switch_shift(t),
            crate::context::switch_suit(t),
        ),
        None => cards,
    }
}

/// The cards with the exchange of suits of the game applied or undone (it is its own inverse).
pub fn switch_cards(cards: u32, t: Option<ProblemTransformation>) -> (r: u32)
    ensures
        r == to_user(cards, t),
{
    match t {
        Some(t) => GameContext::get_switched_cards(cards, t),
        None => cards,
    }
}

/// The decimal digits of `n`.
pub open spec fn decimal(n: u32) -> Seq<char>
    decreases n,
{
    if n < 10 {
        seq![(48 + n) as char]
    } else {
        decimal(n / 10).push((48 + n % 10) as char)
    }
}

/// The decimal text of `n`.
pub fn decimal_text(n: u32) -> (r: String)
    ensures
        r@ == decimal(n),
    decreases n,
{
    if n < 10 {
        let mut s = String::new();
        push_char(&mut s, digit_char(n));
        s
    } else {
        let mut s = decimal_text(n / 10);
        push_char(&mut s, digit_char(n % 10));
        s
    }
}

/// The digit character of `d`.
fn digit_char(d: u32) -> (r: char)
    requires
        d < 10,
    ensures
        r == (48 + d) as char,
{
    let digits: [char; 10] = ['0', '1', '2', '3', '4', '5', '6', '7', '8', '9'];
    proof {
        assert(digits@ =~= seq!['0', '1', '2', '3', '4', '5', '6', '7', '8', '9']);
    }
    digits[d as usize]
}

/// Makes an owned string of a string literal.
fn owned(s: &str) -> (r: String)
    ensures
        r@ == s@,
{
    s.to_owned()
}

/// Taking a subset from a set leaves the difference of their sizes.
proof fn lemma_remove_count(b: u32, a: u32)
    requires
        subset(b, a),
    ensures
        card_count(a & !b) + card_count(b) == card_count(a),
{
    crate::cards::lemma_set_algebra(a, b, 0);
    crate::cards::lemma_union(a & !b, b);
}

impl SkatGame {
    /// A consistent game: the engine and every position of the game belong to the deal, and
    /// the logs of moves, positions and values agree in length.
    pub open spec fn wf(&self) -> bool {
        &&& self.engine.wf()
        &&& self.current_position.wf(self.engine.context)
        &&& forall|i: int|
            0 <= i < self.history@.len() ==> (#[trigger] self.history@[i]).0.wf(self.engine.context)
        &&& self.history@.len() == self.move_sequence@.len()
        &&& self.analysis_values@.len() == self.move_sequence@.len() + 1
        &&& self.game_selection_phase ==> self.history@.len() == 0 && self.initial_deal is Some
        &&& forall|i: int|
            0 <= i < self.analysis_values@.len() ==> (#[trigger] self.analysis_values@[i] matches Some(
                v,
            ) ==> 0 <= v <= 255)
    }

    /// Deals ten random cards to each player and two to the skat; the user holds the twelve
    /// and first chooses the game.
    pub fn new_random() -> (r: SkatGame)
        ensures
            r.wf(),
            r.game_selection_phase,
            r.user_player == Player::Declarer,
            r.initial_deal matches Some(d) && card_count(d.declarer_cards) == 12,
            card_count(r.skat_cards) == 2,
            r.move_sequence@.len() == 0,
    {
        proof {
            crate::cards::lemma_set_algebra(ALLCARDS, 0, 0);
            crate::cards::lemma_all_points();
        }
        let decl_cards = random_cards(ALLCARDS, 10);
        let rest1 = ALLCARDS & !decl_cards;
        proof {
            lemma_remove_count(decl_cards, ALLCARDS);
        }
        let left_cards = random_cards(rest1, 10);
        let rest2 = rest1 & !left_cards;
        proof {
            lemma_remove_count(left_cards, rest1);
        }
        let right_cards = random_cards(rest2, 10);
        let skat_cards = rest2 & !right_cards;
        proof {
            lemma_remove_count(right_cards, rest2);
            crate::cards::lemma_set_algebra(decl_cards, rest1, left_cards);
            crate::cards::lemma_set_algebra(left_cards, rest2, right_cards);
            crate::cards::lemma_set_algebra(rest1, left_cards, right_cards);
            crate::cards::lemma_set_algebra(rest2, right_cards, decl_cards);
            assert(decl_cards & skat_cards == 0) by (bit_vector)
                requires
                    rest1 == ALLCARDS & !decl_cards,
                    rest2 == rest1 & !left_cards,
                    skat_cards == rest2 & !right_cards,
            ;
            assert(decl_cards & left_cards == 0 && decl_cards & right_cards == 0 && left_cards
                & right_cards == 0) by (bit_vector)
                requires
                    rest1 == ALLCARDS & !decl_cards,
                    rest2 == rest1 & !left_cards,
                    left_cards & rest1 == left_cards,
                    right_cards & rest2 == right_cards,
            ;
            crate::cards::lemma_union(decl_cards, skat_cards);
        }
        let initial_deal_context = GameContext::create(
            decl_cards | skat_cards,
            left_cards,
            right_cards,
            Game::Suit,
            Player::Declarer,
        );
        let context = GameContext::create(decl_cards, left_cards, right_cards, Game::Suit, Player::Declarer);
        let engine = SkatEngine::new(context, None);
        let current_position = engine.create_initial_position();
        SkatGame {
            engine,
            user_player: Player::Declarer,
            history: Vec::new(),
            last_loss: 0,
            last_trick_cards: None,
            last_trick_winner: None,
            last_trick_points: None,
            last_trick_plays: Vec::new(),
            current_position,
            current_trick_plays: Vec::new(),
            skat_cards,
            max_possible_points: 0,
            current_value: 0,
            move_sequence: Vec::new(),
            analysis_values: vec![None],
            game_selection_phase: true,
            initial_deal: Some(initial_deal_context),
            active_transformation: None,
        }
    }
}


/// The game and the exchange of suits named by `name`: `Grand`, `Null`, `Clubs`, `Spades`,
/// `Hearts`, `Diamonds`; any other name is a suit game of clubs.
pub open spec fn game_choice(name: Seq<u8>) -> (Game, Option<ProblemTransformation>) {
    if name == seq![71u8, 114, 97, 110, 100] {
        (Game::Grand, None)
    } else if name == seq![78u8, 117, 108, 108] {
        (Game::Null, None)
    } else if name == seq![83u8, 112, 97, 100, 101, 115] {
        (Game::Suit, Some(ProblemTransformation::SpadesSwitch))
    } else if name == seq![72u8, 101, 97, 114, 116, 115] {
        (Game::Suit, Some(ProblemTransformation::HeartsSwitch))
    } else if name == seq![68u8, 105, 97, 109, 111, 110, 100, 115] {
        (Game::Suit, Some(ProblemTransformation::DiamondsSwitch))
    } else {
        (Game::Suit, None)
    }
}

/// The game and the exchange of suits named by `name` (see `game_choice`).
fn parse_game_choice(name: &str) -> (r: (Game, Option<ProblemTransformation>))
    ensures
        r == game_choice(name.spec_bytes()),
{
    let b = name.as_bytes();
    let grand: [u8; 5] = [71, 114, 97, 110, 100];
    let null: [u8; 4] = [78, 117, 108, 108];
    let spades: [u8; 6] = [83, 112, 97, 100, 101, 115];
    let hearts: [u8; 6] = [72, 101, 97, 114, 116, 115];
    let diamonds: [u8; 8] = [68, 105, 97, 109, 111, 110, 100, 115];
    proof {
        assert(grand@ =~= seq![71u8, 114, 97, 110, 100]);
        assert(null@ =~= seq![78u8, 117, 108, 108]);
        assert(spades@ =~= seq![83u8, 112, 97, 100, 101, 115]);
        assert(hearts@ =~= seq![72u8, 101, 97, 114, 116, 115]);
        assert(diamonds@ =~= seq![68u8, 105, 97, 109, 111, 110, 100, 115]);
    }
    if bytes_are(b, &grand) {
        (Game::Grand, None)
    } else if bytes_are(b, &null) {
        (Game::Null, None)
    } else if bytes_are(b, &spades) {
        (Game::Suit, Some(ProblemTransformation::SpadesSwitch))
    } else if bytes_are(b, &hearts) {
        (Game::Suit, Some(ProblemTransformation::HeartsSwitch))
    } else if bytes_are(b, &diamonds) {
        (Game::Suit, Some(ProblemTransformation::DiamondsSwitch))
    } else {
        (Game::Suit, None)
    }
}

/// The points the winner of the trick just ended took with it.
fn gained_points(pos: &Position, next: &Position) -> (r: u8)
    ensures
        r == if next.player == Player::Declarer {
            if next.declarer_points > pos.declarer_points {
                (next.declarer_points - pos.declarer_points) as u8
            } else {
                0u8
            }
        } else {
            if next.team_points > pos.team_points {
                (next.team_points - pos.team_points) as u8
            } else {
                0u8
            }
        },
{
    if next.player == Player::Declarer {
        if next.declarer_points > pos.declarer_points {
            next.declarer_points - pos.declarer_points
        } else {
            0
        }
    } else {
        if next.team_points > pos.team_points {
            next.team_points - pos.team_points
        } else {
            0
        }
    }
}

/// A copy of the plays of a trick.
fn copy_plays(v: &Vec<(u32, Player)>) -> (r: Vec<(u32, Player)>)
    ensures
        r@ == v@,
{
    let mut out: Vec<(u32, Player)> = Vec::new();
    let mut i: usize = 0;
    while i < v.len()
        invariant
            i <= v@.len(),
            out@ == v@.take(i as int),
        decreases v@.len() - i,
    {
        out.push(v[i]);
        proof {
            assert(out@ =~= v@.take(i + 1));
        }
        i = i + 1;
    }
    proof {
        assert(v@.take(v@.len() as int) =~= v@);
    }
    out
}

/// The game after `card` is played in it: the position and its trick recorded for undoing, the
/// move logged with no value yet, the trick's plays kept or, when the card ends the trick,
/// moved to the last trick with its cards, winner and the points it brought.
pub open spec fn after_play(g: SkatGame, h: SkatGame, card: u32) -> bool {
    let pos = g.current_position;
    let next = pos.after_move(card, g.engine.context);
    let plays = g.current_trick_plays@.push((card, pos.player));
    &&& h.engine == g.engine
    &&& h.history@.len() == g.history@.len() + 1
    &&& h.history@.drop_last() == g.history@
    &&& h.history@.last().0 == pos
    &&& h.history@.last().1@ == g.current_trick_plays@
    &&& h.move_sequence@ == g.move_sequence@.push((card, pos.player))
    &&& h.analysis_values@ == g.analysis_values@.push(None)
    &&& h.current_position == next
    &&& h.last_loss == 0
    &&& if pos.trick_cards_count == 2 {
        &&& h.last_trick_cards == Some(pos.trick_cards | card)
        &&& h.last_trick_winner == Some(next.player)
        &&& h.last_trick_plays@ == plays
        &&& h.current_trick_plays@.len() == 0
    } else {
        &&& h.current_trick_plays@ == plays
        &&& h.last_trick_cards == g.last_trick_cards
        &&& h.last_trick_winner == g.last_trick_winner
        &&& h.last_trick_plays@ == g.last_trick_plays@
        &&& h.last_trick_points == g.last_trick_points
    }
    &&& h.user_player == g.user_player
    &&& h.skat_cards == g.skat_cards
    &&& h.game_selection_phase == g.game_selection_phase
    &&& h.initial_deal == g.initial_deal
    &&& h.active_transformation == g.active_transformation
    &&& h.max_possible_points == g.max_possible_points
    &&& h.current_value == g.current_value
}

/// The game after undoing the last move: the position and trick before it, the last trick
/// forgotten, the move and its value dropped from the logs.
pub open spec fn after_undo(g: SkatGame, h: SkatGame) -> bool {
    if g.history@.len() == 0 {
        h == g
    } else {
        let last = g.history@.last();
        &&& h.engine == g.engine
        &&& h.history@ == g.history@.drop_last()
        &&& h.current_position == last.0
        &&& h.current_trick_plays@ == last.1@
        &&& h.move_sequence@ == g.move_sequence@.drop_last()
        &&& h.analysis_values@ == g.analysis_values@.drop_last()
        &&& h.last_loss == 0
        &&& h.last_trick_cards is None
        &&& h.last_trick_winner is None
        &&& h.last_trick_points is None
        &&& h.user_player == g.user_player
        &&& h.skat_cards == g.skat_cards
        &&& h.game_selection_phase == g.game_selection_phase
        &&& h.initial_deal == g.initial_deal
        &&& h.active_transformation == g.active_transformation
    }
}

/// Undoing a move takes the game back to the position, trick and logs it had before the move.
pub proof fn lemma_undo_takes_back_a_move(g0: SkatGame, g1: SkatGame, g2: SkatGame, card: u32)
    requires
        after_play(g0, g1, card),
        after_undo(g1, g2),
    ensures
        g2.current_position == g0.current_position,
        g2.current_trick_plays@ == g0.current_trick_plays@,
        g2.history@ == g0.history@,
        g2.move_sequence@ == g0.move_sequence@,
        g2.analysis_values@ == g0.analysis_values@,
        g2.engine == g0.engine,
{
    assert(g1.move_sequence@.drop_last() =~= g0.move_sequence@);
    assert(g1.analysis_values@.drop_last() =~= g0.analysis_values@);
}

impl SkatGame {
    /// The value of the best play from the current position with all hands known, and the card
    /// to play; (0, 0) when the player to move has no card.
    pub fn solve_best_move(&self) -> (r: (u32, i32))
        requires
            self.wf(),
        ensures
            r.0 != 0 ==> is_card(r.0) && subset(r.0, self.current_position.legal()),
            0 <= r.1 <= 255,
            self.current_position.player_cards == 0 <==> r == (0u32, 0i32),
            self.current_position.player_cards != 0 ==> r.0 != 0,
    {
        let mut temp_engine = SkatEngine::new(self.engine.context, None);
        let pos = self.current_position;
        match solve_optimum_from_position(&mut temp_engine, &pos, OptimumMode::BestValue) {
            Ok((card, _score, val)) => {
                proof {
                    let k = choose|k: int| 0 <= k < 32 && card == crate::cards::bit(k);
                    crate::cards::lemma_bit_facts(0, 0, k as u32);
                }
                (card, val as i32)
            },
            Err(_) => (0, 0),
        }
    }

    /// All cards are played.
    pub fn is_game_over(&self) -> (r: bool)
        ensures
            r == (self.current_position.declarer_cards == 0 && self.current_position.left_cards
                == 0 && self.current_position.right_cards == 0
                && self.current_position.trick_cards == 0),
    {
        let pos = &self.current_position;
        pos.declarer_cards == 0 && pos.left_cards == 0 && pos.right_cards == 0 && pos.trick_cards == 0
    }

    /// The most points the declarer can take from the start of the deal with all hands known,
    /// remembered for showing.
    pub fn calculate_max_points(&mut self) -> (r: u8)
        requires
            old(self).wf(),
        ensures
            *final(self) == (SkatGame { max_possible_points: r, ..*old(self) }),
    {
        let mut temp_engine = SkatEngine::new(self.engine.context, None);
        let initial_pos = self.engine.create_initial_position();
        let val: u8 = match solve_optimum_from_position(
            &mut temp_engine,
            &initial_pos,
            OptimumMode::BestValue,
        ) {
            Ok((_, _, v)) => v,
            Err(_) => 0,
        };
        self.max_possible_points = val;
        val
    }

    /// Plays `card` for the player to move when it is one of its legal cards (see
    /// `after_play`); otherwise nothing changes.
    /// Records a move of `card` in the logs: the position and its trick for undoing, the card
    /// in the trick and in the log of moves, no value yet.
    fn log_move(&mut self, card: u32)
        requires
            old(self).wf(),
        ensures
            final(self).history@.len() == old(self).history@.len() + 1,
            final(self).history@.drop_last() == old(self).history@,
            final(self).history@.last().0 == old(self).current_position,
            final(self).history@.last().1@ == old(self).current_trick_plays@,
            final(self).current_trick_plays@ == old(self).current_trick_plays@.push(
                (card, old(self).current_position.player),
            ),
            final(self).move_sequence@ == old(self).move_sequence@.push(
                (card, old(self).current_position.player),
            ),
            final(self).analysis_values@ == old(self).analysis_values@.push(None),
            forall|i: int|
                0 <= i < final(self).history@.len() ==> (#[trigger] final(self).history@[i]).0.wf(
                    final(self).engine.context,
                ),
            final(self).engine == old(self).engine,
            final(self).current_position == old(self).current_position,
            final(self).last_trick_cards == old(self).last_trick_cards,
            final(self).last_trick_winner == old(self).last_trick_winner,
            final(self).last_trick_points == old(self).last_trick_points,
            final(self).last_trick_plays == old(self).last_trick_plays,
            final(self).last_loss == old(self).last_loss,
            final(self).user_player == old(self).user_player,
            final(self).skat_cards == old(self).skat_cards,
            final(self).game_selection_phase == old(self).game_selection_phase,
            final(self).initial_deal == old(self).initial_deal,
            final(self).active_transformation == old(self).active_transformation,
            final(self).max_possible_points == old(self).max_possible_points,
            final(self).current_value == old(self).current_value,
    {
        let pos = self.current_position;
        let ghost g = *self;
        let plays = copy_plays(&self.current_trick_plays);
        self.history.push((pos, plays));
        self.current_trick_plays.push((card, pos.player));
        self.move_sequence.push((card, pos.player));
        self.analysis_values.push(None);
        proof {
            assert(self.history@.drop_last() =~= g.history@);
            assert forall|i: int| 0 <= i < self.history@.len() implies (#[trigger] self.history@[i]).0.wf(
                self.engine.context,
            ) by {
                if i < g.history@.len() {
                    assert(self.history@[i] == g.history@[i]);
                }
            }
        }
    }

    /// Plays `card` for the player to move when it is one of its legal cards (see
    /// `after_play`); otherwise nothing changes.
    fn perform_move(&mut self, card: u32) -> (r: bool)
        requires
            old(self).wf(),
            !old(self).game_selection_phase,
        ensures
            final(self).wf(),
            r == (is_card(card) && subset(card, old(self).current_position.legal())),
            r ==> after_play(*old(self), *final(self), card),
            !r ==> *final(self) == *old(self),
    {
        let pos = self.current_position;
        let legal = pos.get_legal_moves();
        if !single_card(card) || (card & legal) != card {
            return false;
        }
        proof {
            crate::cards::lemma_set_algebra(card, legal, pos.player_cards);
        }
        self.log_move(card);
        let next_pos = pos.make_move(card, &self.engine.context);
        if pos.trick_cards_count == 2 {
            self.last_trick_cards = Some(pos.trick_cards | card);
            self.last_trick_winner = Some(next_pos.player);
            self.last_trick_plays = copy_plays(&self.current_trick_plays);
            self.current_trick_plays = Vec::new();
            self.last_trick_points = Some(gained_points(&pos, &next_pos));
        }
        self.current_position = next_pos;
        self.last_loss = 0;
        true
    }

    /// Takes back the last move (see `after_undo`); nothing changes when no move was made.
    pub fn undo(&mut self)
        requires
            old(self).wf(),
        ensures
            final(self).wf(),
            after_undo(*old(self), *final(self)),
    {
        let ghost g = *self;
        if self.history.len() == 0 {
            return;
        }
        match self.history.pop() {
            Some((prev_pos, prev_trick_plays)) => {
                self.current_position = prev_pos;
                self.current_trick_plays = prev_trick_plays;
                self.last_loss = 0;
                self.last_trick_cards = None;
                self.last_trick_winner = None;
                self.last_trick_points = None;
                self.move_sequence.pop();
                self.analysis_values.pop();
                proof {
                    assert(g.history@.last() == g.history@[g.history@.len() - 1]);
                    assert forall|i: int| 0 <= i < self.history@.len() implies (
                    #[trigger] self.history@[i]).0.wf(self.engine.context) by {
                        assert(self.history@[i] == g.history@[i]);
                    }
                }
            },
            None => {},
        }
    }

    /// Plays the card named in `card_str` for the user when the user is to move and the game
    /// is chosen; the card is taken as the user sees it, in the suits of the game announced.
    pub fn play_card_str(&mut self, card_str: &str) -> (r: bool)
        requires
            old(self).wf(),
        ensures
            final(self).wf(),
            r ==> after_play(
                *old(self),
                *final(self),
                to_user(crate::convert::text_cards(card_str.text_bytes()), old(self).active_transformation),
            ) && !old(self).game_selection_phase && old(self).current_position.player
                == old(self).user_player,
            !r ==> *final(self) == *old(self),
            ({
                let c = to_user(
                    crate::convert::text_cards(card_str.text_bytes()),
                    old(self).active_transformation,
                );
                r == (crate::convert::text_cards(card_str.text_bytes()) != 0
                    && !old(self).game_selection_phase && old(self).current_position.player
                    == old(self).user_player && is_card(c) && subset(c, old(self).current_position.legal()))
            }),
    {
        let ui_card_bit = card_str.__bit();
        if ui_card_bit == 0 || self.game_selection_phase {
            return false;
        }
        if self.current_position.player != self.user_player {
            return false;
        }
        let engine_card = switch_cards(ui_card_bit, self.active_transformation);
        self.perform_move(engine_card)
    }

    /// Plays the solver's best card for a player other than the user, when the game is chosen
    /// and not over.
    pub fn make_ai_move(&mut self) -> (r: bool)
        requires
            old(self).wf(),
        ensures
            final(self).wf(),
            r ==> !old(self).game_selection_phase && old(self).current_position.player
                != old(self).user_player && exists|card: u32| after_play(*old(self), *final(self), card),
            !r ==> *final(self) == *old(self),
            r == (!old(self).game_selection_phase && old(self).current_position.player
                != old(self).user_player && old(self).current_position.player_cards != 0),
    {
        if self.game_selection_phase || self.current_position.player == self.user_player {
            return false;
        }
        if self.is_game_over() {
            return false;
        }
        let (best_card, _) = self.solve_best_move();
        if best_card == 0 {
            return false;
        }
        self.perform_move(best_card)
    }

    /// Ends the choice of the game: the user names the game and the two cards laid away, which
    /// must be two of the twelve cards. The game is then played in engine suits (the suit
    /// announced exchanged with clubs), the declarer starts with the points of the skat in a
    /// suit game or grand, and the most points reachable are computed. The exchange of suits
    /// named is kept even when the cards are refused.
    pub fn finalize_game_selection(&mut self, game_type_str: &str, discard_skat_str: &str) -> (r:
        bool)
        requires
            old(self).wf(),
        ensures
            final(self).wf(),
            !old(self).game_selection_phase ==> !r && *final(self) == *old(self),
            r ==> !final(self).game_selection_phase && final(self).engine.context.game_type
                == game_choice(game_type_str.spec_bytes()).0 && card_count(final(self).skat_cards)
                == 2,
            !r && old(self).game_selection_phase ==> *final(self) == (SkatGame {
                active_transformation: game_choice(game_type_str.spec_bytes()).1,
                ..*old(self)
            }),
    {
        if !self.game_selection_phase {
            return false;
        }
        let (game_type, transform) = parse_game_choice(game_type_str);
        self.active_transformation = transform;
        let deal = match self.initial_deal {
            Some(d) => d,
            None => {
                return false;
            },
        };
        let my_12 = deal.declarer_cards;
        let user_skat = discard_skat_str.__bit();
        if count_cards(user_skat) != 2 {
            return false;
        }
        let my_10 = my_12 & !user_skat;
        if count_cards(my_10) != 10 {
            return false;
        }
        let final_declarer = switch_cards(my_10, transform);
        let final_skat = switch_cards(user_skat, transform);
        let final_left = switch_cards(deal.left_cards, transform);
        let final_right = switch_cards(deal.right_cards, transform);
        let mut context = GameContext::create(final_declarer, final_left, final_right, game_type, Player::Declarer);
        if game_type != Game::Null {
            context.set_declarer_start_points(final_skat.__get_value());
            context.set_threshold_upper(120);
        } else {
            context.set_threshold_upper(1);
        }
        if !deal_playable(&context) {
            return false;
        }
        proof {
            if let Some(t) = transform {
                crate::context::lemma_switch_count(user_skat, t);
            }
        }
        self.engine = SkatEngine::new(context, None);
        self.current_position = self.engine.create_initial_position();
        self.skat_cards = final_skat;
        self.game_selection_phase = false;
        self.calculate_max_points();
        true
    }

    /// Computes the value of every position of the game still without one, with all hands
    /// known, and keeps the current one.
    pub fn calculate_analysis(&mut self)
        requires
            old(self).wf(),
        ensures
            final(self).wf(),
            final(self).history == old(self).history,
            final(self).current_position == old(self).current_position,
            final(self).move_sequence == old(self).move_sequence,
            forall|i: int|
                0 <= i < old(self).analysis_values@.len() ==> (#[trigger] old(self).analysis_values@[i]
                    matches Some(v) ==> final(self).analysis_values@[i] == Some(v)),
            final(self).analysis_values@.len() == old(self).analysis_values@.len(),
            forall|i: int|
                0 <= i < old(self).analysis_values@.len() ==> ((#[trigger] final(self).analysis_values@[i])
                    is Some <==> (old(self).analysis_values@[i] is Some || analysis_position(
                    *old(self),
                    i,
                ).player_cards != 0)),
            forall|i: int|
                0 <= i < old(self).analysis_values@.len() ==> (#[trigger] final(self).analysis_values@[i]
                    matches Some(v) ==> 0 <= v <= 255 || old(self).analysis_values@[i] == Some(v)),
            *final(self) == (SkatGame {
                analysis_values: final(self).analysis_values,
                current_value: final(self).current_value,
                ..*old(self)
            }),
            final(self).current_value == match final(self).analysis_values@.last() {
                Some(v) => v,
                None => old(self).current_value,
            },
    {
        let total = self.analysis_values.len();
        let mut i: usize = 0;
        let ghost g = *self;
        while i < total
            invariant
                total == self.history@.len() + 1,
                i <= total,
                self.wf(),
                self.history == g.history,
                self.current_position == g.current_position,
                self.move_sequence == g.move_sequence,
                self.engine == g.engine,
                self.analysis_values@.len() == g.analysis_values@.len(),
                self.game_selection_phase == g.game_selection_phase,
                self.initial_deal == g.initial_deal,
                forall|q: int|
                    0 <= q < g.analysis_values@.len() ==> (#[trigger] g.analysis_values@[q] matches Some(v)
                        ==> self.analysis_values@[q] == Some(v)),
                *self == (SkatGame { analysis_values: self.analysis_values, ..g }),
                forall|q: int|
                    0 <= q < i ==> ((#[trigger] self.analysis_values@[q]) is Some <==> (
                    g.analysis_values@[q] is Some || analysis_position(g, q).player_cards != 0)),
                forall|q: int| i <= q < total ==> #[trigger] self.analysis_values@[q] == g.analysis_values@[q],
                forall|q: int|
                    0 <= q < total ==> (#[trigger] self.analysis_values@[q] matches Some(v) ==> 0 <= v
                        <= 255 || g.analysis_values@[q] == Some(v)),
            decreases total - i,
        {
            if self.analysis_values[i].is_none() {
                let pos_to_solve = if i < self.history.len() {
                    self.history[i].0
                } else {
                    self.current_position
                };
                let mut temp_engine = SkatEngine::new(self.engine.context, None);
                match solve_optimum_from_position(&mut temp_engine, &pos_to_solve, OptimumMode::BestValue) {
                    Ok((_, _, v)) => {
                        self.analysis_values.set(i, Some(v as i32));
                    },
                    Err(_) => {},
                }
            }
            i = i + 1;
        }
        let n = self.analysis_values.len();
        if let Some(v) = self.analysis_values[n - 1] {
            self.current_value = v;
        }
    }

    /// The best card for the player to move and the game's value: the name of a card the
    /// player may play, or `[]` with the value 0 when the player has no card.
    pub fn get_hint(&self) -> (r: Hint)
        requires
            self.wf(),
        ensures
            0 <= r.value <= 255,
            exists|c: u32|
                #![trigger crate::convert::card_text(c)]
                {
                    &&& r.best_card@ == crate::convert::card_text(c)
                    &&& c != 0 ==> is_card(c) && subset(c, self.current_position.legal())
                    &&& self.current_position.player_cards == 0 <==> (c == 0 && r.value == 0)
                },
    {
        let (card, val) = self.solve_best_move();
        Hint { best_card: card.__str(), value: val }
    }

    /// For the user to move in a running game, the value after each legal card (lowest card
    /// first) and its difference to the game's value; none otherwise.
    pub fn get_move_analysis(&self) -> (r: Option<Vec<MoveAnalysis>>)
        requires
            self.wf(),
        ensures
            r is Some <==> (self.current_position.player == self.user_player && !(
            self.current_position.declarer_cards == 0 && self.current_position.left_cards == 0
                && self.current_position.right_cards == 0 && self.current_position.trick_cards
                == 0)),
            r matches Some(v) ==> {
                let names = user_names_below(self.current_position.legal(), None, 32);
                &&& v@.len() == names.len()
                &&& exists|best: i32|
                    #![trigger analysis_ok(v@, names, best)]
                    0 <= best <= 255 && analysis_ok(v@, names, best)
            },
    {
        let pos = self.current_position;
        if pos.player != self.user_player || self.is_game_over() {
            return None;
        }
        let (_, best_val) = self.solve_best_move();
        let mut results: Vec<MoveAnalysis> = Vec::new();
        let legal = pos.get_legal_moves();
        let mut temp_engine = SkatEngine::new(self.engine.context, None);
        let mut k: u32 = 0;
        while k < 32
            invariant
                k <= 32,
                temp_engine.wf(),
                temp_engine.context == self.engine.context,
                pos == self.current_position,
                pos.wf(self.engine.context),
                legal == pos.legal(),
                subset(legal, pos.player_cards),
                0 <= best_val <= 255,
                results@.len() == user_names_below(legal, None, k as int).len(),
                analysis_ok(results@, user_names_below(legal, None, k as int), best_val),
            decreases 32 - k,
        {
            let card_bit = 1u32 << k;
            if (legal & card_bit) != 0 {
                proof {
                    assert(crate::cards::has_card(legal, k as int));
                    crate::cards::lemma_card_subset(legal, k as int);
                    crate::cards::lemma_set_algebra(card_bit, legal, pos.player_cards);
                }
                let next_pos = pos.make_move(card_bit, &self.engine.context);
                let val: i32 = match solve_optimum_from_position(
                    &mut temp_engine,
                    &next_pos,
                    OptimumMode::BestValue,
                ) {
                    Ok((_, _, v)) => v as i32,
                    Err(_) => 0,
                };
                let delta = val - best_val;
                results.push(MoveAnalysis { card: card_bit.__str(), value: val, delta, is_best: delta == 0 });
            }
            k = k + 1;
        }
        proof {
            assert(0 <= best_val <= 255 && analysis_ok(
                results@,
                user_names_below(legal, None, 32),
                best_val,
            ));
        }
        Some(results)
    }
}

/// The analysis of the user's cards: for each card, its name, a value between 0 and 255, its
/// difference to `best`, and whether that difference is 0.
pub open spec fn analysis_ok(entries: Seq<MoveAnalysis>, names: Seq<Seq<char>>, best: i32) -> bool {
    forall|q: int|
        0 <= q < entries.len() ==> {
            &&& (#[trigger] entries[q]).card@ == names[q]
            &&& 0 <= entries[q].value <= 255
            &&& entries[q].delta == entries[q].value - best
            &&& entries[q].is_best == (entries[q].delta == 0)
        }
}


/// The position whose value is kept at index `i` of a game's values: that of the history, or
/// the current one after it.
pub open spec fn analysis_position(g: SkatGame, i: int) -> Position {
    if i < g.history@.len() {
        g.history@[i].0
    } else {
        g.current_position
    }
}

/// The bit indices in the order the user's hand is shown: the jacks of clubs, spades, hearts
/// and diamonds, then the other cards by bit index from the top of each block of seven,
/// starting with the lowest block.
pub open spec fn display_slots() -> Seq<u32> {
    seq![31u32, 30u32, 29u32, 28u32] + crate::formatter::plain_slots(0) + crate::formatter::plain_slots(
        1,
    ) + crate::formatter::plain_slots(2) + crate::formatter::plain_slots(3)
}

/// The names of the cards at the bit indices as the user sees them, separated by spaces.
pub open spec fn user_joined(order: Seq<u32>, t: Option<ProblemTransformation>) -> Seq<char>
    decreases order.len(),
{
    if order.len() == 0 {
        seq![]
    } else if order.len() == 1 {
        crate::convert::card_text(to_user(crate::cards::bit(order[0] as int), t))
    } else {
        user_joined(order.drop_last(), t) + seq![' '] + crate::convert::card_text(
            to_user(crate::cards::bit(order.last() as int), t),
        )
    }
}

/// The names, as the user sees them, of the cards of `mask` below bit index `k`, lowest first.
pub open spec fn user_names_below(mask: u32, t: Option<ProblemTransformation>, k: int) -> Seq<
    Seq<char>,
>
    decreases k,
{
    if k <= 0 {
        seq![]
    } else if crate::cards::has_card(mask, k - 1) {
        user_names_below(mask, t, k - 1).push(
            crate::convert::card_text(to_user(crate::cards::bit(k - 1), t)),
        )
    } else {
        user_names_below(mask, t, k - 1)
    }
}

/// The one-letter name of a player.
pub open spec fn player_letter(p: Player) -> Seq<char> {
    match p {
        Player::Declarer => seq!['D'],
        Player::Left => seq!['L'],
        Player::Right => seq!['R'],
    }
}

/// A play of a trick as the user sees it: the card's name and the player's letter.
pub open spec fn play_shown(info: PlayInfo, play: (u32, Player), t: Option<ProblemTransformation>) -> bool {
    &&& info.card@ == crate::convert::card_text(to_user(play.0, t))
    &&& info.player@ == player_letter(play.1)
}

/// The plays of a trick as the user sees them, one for one.
pub open spec fn plays_shown(
    infos: Seq<PlayInfo>,
    plays: Seq<(u32, Player)>,
    t: Option<ProblemTransformation>,
) -> bool {
    &&& infos.len() == plays.len()
    &&& forall|q: int| 0 <= q < infos.len() ==> play_shown(#[trigger] infos[q], plays[q], t)
}

/// The user's hand as shown: the cards of `cards` in the order of `display_slots`, each as the
/// user sees it, in brackets.
pub open spec fn hand_display(cards: u32, t: Option<ProblemTransformation>) -> Seq<char> {
    match t {
        None => crate::formatter::list_text(crate::formatter::kept(display_slots(), cards)),
        Some(_) => seq!['['] + user_joined(crate::formatter::kept(display_slots(), cards), t)
            + seq![']'],
    }
}

/// The log of the moves as the user sees it: one entry per move, with the card's name, the
/// player's letter, the values before and after the move and their difference when both are
/// known.
pub open spec fn log_shown(entries: Seq<MoveLogEntry>, game: SkatGame) -> bool {
    let t = game.active_transformation;
    let vals = game.analysis_values@;
    &&& entries.len() == game.move_sequence@.len()
    &&& forall|i: int|
        0 <= i < entries.len() ==> (#[trigger] entries[i]).card@ == crate::convert::card_text(
            to_user(game.move_sequence@[i].0, t),
        ) && entries[i].player@ == player_letter(game.move_sequence@[i].1)
    &&& forall|i: int|
        0 <= i < entries.len() ==> (#[trigger] entries[i]).value_before == vals[i]
            && entries[i].value_after == vals[i + 1] && entries[i].delta == match (
            vals[i],
            vals[i + 1],
        ) {
            (Some(v1), Some(v2)) => Some((v2 - v1) as i32),
            _ => None,
        }
}

/// The user's legal cards as shown: none when another player is to move, else the names (as
/// the user sees them) of the cards the user may play, lowest bit first.
pub open spec fn legal_shown(names: Seq<String>, game: SkatGame) -> bool {
    let pos = game.current_position;
    if pos.player != game.user_player {
        names.len() == 0
    } else {
        let expected = user_names_below(pos.legal(), game.active_transformation, 32);
        &&& names.len() == expected.len()
        &&& forall|q: int| 0 <= q < names.len() ==> (#[trigger] names[q])@ == expected[q]
    }
}

/// The text of one card as the user sees it.
fn user_card_text(card: u32, t: Option<ProblemTransformation>) -> (r: String)
    ensures
        r@ == crate::convert::card_text(to_user(card, t)),
{
    switch_cards(card, t).__str()
}

/// The plays of a trick as the user sees them.
fn user_plays(plays: &Vec<(u32, Player)>, t: Option<ProblemTransformation>) -> (r: Vec<PlayInfo>)
    ensures
        plays_shown(r@, plays@, t),
{
    let mut out: Vec<PlayInfo> = Vec::new();
    let mut i: usize = 0;
    while i < plays.len()
        invariant
            i <= plays@.len(),
            out@.len() == i,
            forall|q: int| 0 <= q < i ==> play_shown(#[trigger] out@[q], plays@[q], t),
        decreases plays@.len() - i,
    {
        let (c, p) = plays[i];
        out.push(PlayInfo { card: user_card_text(c, t), player: owned(p.str()) });
        i = i + 1;
    }
    out
}

impl SkatGame {
    /// The user's hand in the order it is shown (see `display_slots`), each card as the user
    /// sees it, in brackets; with no exchange of suits this is the text of `display_slots`
    /// filtered by the hand.
    pub fn get_sorted_hand_display_string(&self, cards_mask: u32, game_type: Game) -> (r: String)
        ensures
            r@ == hand_display(cards_mask, self.active_transformation),
    {
        let mut slots: Vec<u32> = Vec::new();
        slots.push(31);
        slots.push(30);
        slots.push(29);
        slots.push(28);
        let mut s_idx: u32 = 0;
        let ghost head = slots@;
        while s_idx < 4
            invariant
                s_idx <= 4,
                head == seq![31u32, 30u32, 29u32, 28u32],
                slots@ == head + (if s_idx > 0 { crate::formatter::plain_slots(0) } else { seq![] })
                    + (if s_idx > 1 { crate::formatter::plain_slots(1) } else { seq![] })
                    + (if s_idx > 2 { crate::formatter::plain_slots(2) } else { seq![] })
                    + (if s_idx > 3 { crate::formatter::plain_slots(3) } else { seq![] }),
            decreases 4 - s_idx,
        {
            let base = s_idx * 7;
            let mut i: u32 = 7;
            let ghost before = slots@;
            while i > 0
                invariant
                    i <= 7,
                    base == s_idx * 7,
                    s_idx < 4,
                    slots@ == before + crate::formatter::plain_slots(s_idx).take(7 - i),
                decreases i,
            {
                proof {
                    assert(crate::formatter::plain_slots(s_idx).take(8 - i) =~= crate::formatter::plain_slots(
                        s_idx,
                    ).take(7 - i).push(crate::formatter::plain_slots(s_idx)[7 - i]));
                }
                slots.push(base + i - 1);
                i = i - 1;
            }
            proof {
                assert(crate::formatter::plain_slots(s_idx).take(7) =~= crate::formatter::plain_slots(s_idx));
                assert(slots@ =~= head + (if s_idx + 1 > 0 { crate::formatter::plain_slots(0) } else { seq![] })
                    + (if s_idx + 1 > 1 { crate::formatter::plain_slots(1) } else { seq![] })
                    + (if s_idx + 1 > 2 { crate::formatter::plain_slots(2) } else { seq![] })
                    + (if s_idx + 1 > 3 { crate::formatter::plain_slots(3) } else { seq![] }));
            }
            s_idx = s_idx + 1;
        }
        assert(slots@ =~= display_slots());
        let t = self.active_transformation;
        match t {
            None => {
                assert forall|i: int| 0 <= i < slots@.len() implies (#[trigger] slots@[i]) < 32 by {}
                crate::formatter::text_in_order(cards_mask, &slots)
            },
            Some(_) => {
                let mut out = String::new();
                push_char(&mut out, '[');
                let ghost start = out@;
                let mut first = true;
                let mut i: usize = 0;
                while i < slots.len()
                    invariant
                        i <= slots@.len(),
                        forall|q: int| 0 <= q < slots@.len() ==> (#[trigger] slots@[q]) < 32,
                        start == seq!['['],
                        out@ == start + user_joined(
                            crate::formatter::kept(slots@.take(i as int), cards_mask),
                            t,
                        ),
                        first == (crate::formatter::kept(slots@.take(i as int), cards_mask).len()
                            == 0),
                    decreases slots@.len() - i,
                {
                    let b = slots[i];
                    proof {
                        assert(slots@.take(i + 1).drop_last() =~= slots@.take(i as int));
                        assert(slots@.take(i + 1).last() == b);
                    }
                    let bit = 1u32 << b;
                    if cards_mask & bit != 0 {
                        let ghost prev = crate::formatter::kept(slots@.take(i as int), cards_mask);
                        if !first {
                            push_char(&mut out, ' ');
                        }
                        let name = user_card_text(bit, t);
                        out.append(name.as_str());
                        first = false;
                        proof {
                            let now = prev.push(b);
                            assert(crate::formatter::kept(slots@.take(i + 1), cards_mask) == now);
                            assert(now.drop_last() =~= prev);
                            assert(out@ =~= start + user_joined(now, t));
                        }
                    }
                    i = i + 1;
                }
                push_char(&mut out, ']');
                proof {
                    assert(slots@.take(slots@.len() as int) =~= slots@);
                }
                out
            },
        }
    }

    /// The user's legal cards, lowest bit first, as the user sees them; none when another
    /// player is to move.
    pub fn get_legal_moves_strings_transformed(&self) -> (r: Vec<String>)
        ensures
            legal_shown(r@, *self),
    {
        let pos = self.current_position;
        let mut out: Vec<String> = Vec::new();
        if pos.player != self.user_player {
            return out;
        }
        let legal_mask = crate::rules::get_legal_moves(pos.trick_suit, pos.player_cards);
        let ghost t = self.active_transformation;
        let mut i: u32 = 0;
        while i < 32
            invariant
                i <= 32,
                legal_mask == pos.legal(),
                t == self.active_transformation,
                out@.len() == user_names_below(legal_mask, t, i as int).len(),
                forall|q: int|
                    0 <= q < out@.len() ==> (#[trigger] out@[q])@ == user_names_below(
                        legal_mask,
                        t,
                        i as int,
                    )[q],
            decreases 32 - i,
        {
            let card_bit = 1u32 << i;
            if legal_mask & card_bit != 0 {
                out.push(user_card_text(card_bit, self.active_transformation));
            }
            i = i + 1;
        }
        out
    }

    /// The log of the moves: each card as the user sees it, its player, the values before and
    /// after it, and their difference when both are known.
    pub fn get_move_history_json_transformed(&self) -> (r: Vec<MoveLogEntry>)
        requires
            self.wf(),
        ensures
            log_shown(r@, *self),
    {
        let mut log: Vec<MoveLogEntry> = Vec::new();
        let mut i: usize = 0;
        while i < self.move_sequence.len()
            invariant
                self.wf(),
                i <= self.move_sequence@.len(),
                log@.len() == i,
                forall|q: int|
                    0 <= q < i ==> (#[trigger] log@[q]).card@ == crate::convert::card_text(
                        to_user(self.move_sequence@[q].0, self.active_transformation),
                    ) && log@[q].player@ == player_letter(self.move_sequence@[q].1),
                forall|q: int|
                    0 <= q < i ==> (#[trigger] log@[q]).value_before == self.analysis_values@[q]
                        && log@[q].value_after == self.analysis_values@[q + 1] && log@[q].delta
                        == match (self.analysis_values@[q], self.analysis_values@[q + 1]) {
                        (Some(v1), Some(v2)) => Some((v2 - v1) as i32),
                        _ => None,
                    },
            decreases self.move_sequence@.len() - i,
        {
            let val_before = self.analysis_values[i];
            let val_after = self.analysis_values[i + 1];
            let delta = match (val_before, val_after) {
                (Some(v1), Some(v2)) => {
                    proof {
                        assert(self.analysis_values@[i as int] matches Some(v) && 0 <= v <= 255);
                        assert(self.analysis_values@[i + 1] matches Some(v) && 0 <= v <= 255);
                    }
                    Some(v2 - v1)
                },
                _ => None,
            };
            let (card, player) = self.move_sequence[i];
            log.push(
                MoveLogEntry {
                    card: user_card_text(card, self.active_transformation),
                    player: owned(player.str()),
                    value_before: val_before,
                    value_after: val_after,
                    delta,
                },
            );
            i = i + 1;
        }
        log
    }

    /// What the user is shown. While the game is chosen: the twelve cards and nothing else.
    /// Then: the user's hand (when the user is the declarer), the trick and its plays, the
    /// suit led (as a number), the values, whether the game is over and who won (the declarer
    /// with more than 60 points), the points, who is to move, the last trick, the skat, the log
    /// and the legal cards, all as the user sees them; the other hands stay hidden.
    pub fn get_state(&self) -> (r: GameState)
        requires
            self.wf(),
        ensures
            self.game_selection_phase ==> r.my_cards@ == crate::convert::card_text(
                self.initial_deal->0.declarer_cards,
            ) && !r.game_over && r.move_history@.len() == 0,
            !self.game_selection_phase ==> {
                let pos = self.current_position;
                let t = self.active_transformation;
                let over = pos.declarer_cards == 0 && pos.left_cards == 0 && pos.right_cards == 0
                    && pos.trick_cards == 0;
                &&& r.my_cards@ == if self.user_player == Player::Declarer {
                    hand_display(pos.declarer_cards, t)
                } else {
                    seq![]
                }
                &&& r.trick_cards@ == if pos.trick_cards != 0 {
                    crate::convert::card_text(to_user(pos.trick_cards, t))
                } else {
                    seq![]
                }
                &&& plays_shown(r.trick_plays@, self.current_trick_plays@, t)
                &&& r.game_over == over
                &&& (r.winner is Some <==> over)
                &&& (r.winner matches Some(w) ==> w@ == if pos.declarer_points > 60 {
                    "Declarer"@
                } else {
                    "Opponents"@
                })
                &&& r.declarer_points == pos.declarer_points
                &&& r.team_points == pos.team_points
                &&& r.current_value == self.current_value
                &&& r.last_loss == self.last_loss
                &&& r.max_possible_points == self.max_possible_points
                &&& r.current_player@ == player_letter(pos.player)
                &&& r.trick_suit@ == decimal(pos.trick_suit)
                &&& (match self.last_trick_cards {
                    Some(c) => r.last_trick_cards matches Some(x) && x@ == crate::convert::card_text(
                        to_user(c, t),
                    ),
                    None => r.last_trick_cards is None,
                })
                &&& plays_shown(r.last_trick_plays@, self.last_trick_plays@, t)
                &&& (match self.last_trick_winner {
                    Some(p) => r.last_trick_winner matches Some(x) && x@ == player_letter(p),
                    None => r.last_trick_winner is None,
                })
                &&& r.last_trick_points == self.last_trick_points
                &&& r.skat_cards@ == crate::convert::card_text(to_user(self.skat_cards, t))
                &&& log_shown(r.move_history@, *self)
                &&& legal_shown(r.legal_moves@, *self)
            },
            r.left_cards@.len() == 0,
            r.right_cards@.len() == 0,
    {
        if self.game_selection_phase {
            let deal = match self.initial_deal {
                Some(d) => d,
                None => GameContext::default(),
            };
            return GameState {
                my_cards: deal.declarer_cards.__str(),
                trick_cards: String::new(),
                trick_plays: Vec::new(),
                trick_suit: String::new(),
                current_value: 0,
                last_loss: 0,
                game_over: false,
                winner: None,
                declarer_points: 0,
                team_points: 0,
                max_possible_points: 0,
                current_player: owned("D"),
                last_trick_cards: None,
                last_trick_plays: Vec::new(),
                last_trick_winner: None,
                last_trick_points: None,
                left_cards: String::new(),
                right_cards: String::new(),
                skat_cards: String::new(),
                move_history: Vec::new(),
                legal_moves: Vec::new(),
            };
        }
        let pos = self.current_position;
        let t = self.active_transformation;
        let display_cards = if self.user_player == Player::Declarer {
            let gtype = match self.initial_deal {
                Some(deal) => deal.game_type,
                None => Game::Suit,
            };
            self.get_sorted_hand_display_string(pos.declarer_cards, gtype)
        } else {
            String::new()
        };
        let trick_str = if pos.trick_cards != 0 {
            user_card_text(pos.trick_cards, t)
        } else {
            String::new()
        };
        let over = self.is_game_over();
        let winner = if over {
            Some(
                if pos.declarer_points > 60 {
                    owned("Declarer")
                } else {
                    owned("Opponents")
                },
            )
        } else {
            None
        };
        let last_trick_cards = match self.last_trick_cards {
            Some(c) => Some(user_card_text(c, t)),
            None => None,
        };
        let last_trick_winner = match self.last_trick_winner {
            Some(p) => Some(owned(p.str())),
            None => None,
        };
        GameState {
            my_cards: display_cards,
            trick_cards: trick_str,
            trick_plays: user_plays(&self.current_trick_plays, t),
            trick_suit: decimal_text(pos.trick_suit),
            current_value: self.current_value,
            last_loss: self.last_loss,
            game_over: over,
            winner,
            declarer_points: pos.declarer_points,
            team_points: pos.team_points,
            max_possible_points: self.max_possible_points,
            current_player: owned(pos.player.str()),
            last_trick_cards,
            last_trick_plays: user_plays(&self.last_trick_plays, t),
            last_trick_winner,
            last_trick_points: self.last_trick_points,
            left_cards: String::new(),
            right_cards: String::new(),
            skat_cards: user_card_text(self.skat_cards, t),
            move_history: self.get_move_history_json_transformed(),
            legal_moves: self.get_legal_moves_strings_transformed(),
        }
    }
}

} // verus!
