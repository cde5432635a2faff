//! The state of a game at one point in time, and the move that leads to the next state.
use vstd::prelude::*;
use crate::augen::Augen;
use crate::cards::{
    bit, card_count, cards_of, has_card, is_card, lemma_set_algebra, points, subset,
};
use crate::consts::TT_SIZE;
use crate::context::GameContext;
use crate::defs::{Game, Player, player_at};
use crate::rules::{
    cards_for_player, get_connections, get_hash, get_legal_moves, get_mapped_hash,
    get_reduced_equal_core, get_suit_for_card, get_trick_winner, hash_of, legal_moves,
    suit_for_card, trick_winner,
};

verus! {

/// The state of a game: whose turn it is, the cards played and on the table, the hands and
/// the points taken by each party.
#[derive(Clone, Copy, PartialEq, Eq, Structural, Debug)]
pub struct Position {
    pub player: Player,
    pub played_cards: u32,
    pub trick_cards: u32,
    pub trick_suit: u32,
    pub declarer_points: u8,
    pub declarer_cards: u32,
    pub left_cards: u32,
    pub right_cards: u32,
    pub player_cards: u32,
    pub trick_cards_count: u8,
    pub augen_future: u8,
    pub team_points: u8,
    pub is_root_position: bool,
    /// The transposition table slot of this position.
    pub hash: usize,
}

/// The move a run of equivalent cards contributes: its highest card where the trick goes to
/// the mover's party whatever the others play, its lowest where it goes to the other party, and
/// the whole run where the outcome is open.
pub open spec fn run_pick(pos: Position, ctx: GameContext, row: (u32, u32, u32)) -> u32 {
    match pos.forecast(row.1, ctx) {
        Some(w) => if (w == Player::Declarer) == (pos.player == Player::Declarer) {
            row.1
        } else {
            row.2
        },
        None => row.0,
    }
}

/// The moves that the runs in rows `1..i` of the connections contribute.
pub open spec fn runs_picked(pos: Position, ctx: GameContext, c: Seq<(u32, u32, u32)>, i: int) -> u32
    decreases i,
{
    if i <= 1 {
        0
    } else {
        runs_picked(pos, ctx, c, i - 1) | run_pick(pos, ctx, c[i - 1])
    }
}

/// The moves after reducing runs of cards that are in sequence along the game's connection
/// list: one move for each run, and every card outside the runs.
pub open spec fn unequal_reduced(pos: Position, ctx: GameContext, moves: u32) -> u32 {
    let list = if ctx.game_type == Game::Suit {
        crate::consts::FARB_CONN@
    } else {
        crate::consts::GRAND_CONN@
    };
    let c = crate::rules::connections_of(
        list,
        moves,
        pos.left_cards | pos.right_cards | pos.declarer_cards,
    );
    runs_picked(pos, ctx, c, c[0].0 as int + 1) | c[0].1
}

/// `r` holds the moves that stay when a move is dropped for an equivalent one in play before
/// it in the same run of the list.
pub open spec fn equal_keeps(r: u32, moves: u32, all: u32, list: Seq<u32>) -> bool {
    forall|k: int|
        0 <= k < 32 ==> #[trigger] has_card(r, k) == (has_card(moves, k) && !exists|p: int|
            crate::rules::eq_dropped_at(moves, all, list, p) && #[trigger] has_card(list[p], k))
}

/// The moves that stay after dropping those equivalent to one before them in a run of the list.
pub open spec fn equal_reduced(moves: u32, all: u32, list: Seq<u32>) -> u32 {
    choose|r: u32| equal_keeps(r, moves, all, list)
}

/// The list of runs of equivalent cards of a game.
pub open spec fn equal_list(g: Game) -> Seq<u32> {
    match g {
        Game::Suit => crate::consts::FARB_CONN_EQ@,
        Game::Grand => crate::consts::GRAND_CONN_EQ@,
        Game::Null => crate::consts::NULL_CONN_EQ@,
    }
}

/// The moves the search tries in a position: the legal moves, in a suit or grand game reduced
/// to one move per run of cards in sequence, then without moves equivalent to an earlier one.
#[verifier::opaque]
pub open spec fn reduced_moves(pos: Position, ctx: GameContext) -> u32 {
    let legal = pos.legal();
    let kept = if ctx.game_type == Game::Null {
        legal
    } else {
        unequal_reduced(pos, ctx, legal)
    };
    equal_reduced(kept, pos.remaining(), equal_list(ctx.game_type))
}

/// The slot of the transposition table for a position with these cards and player to move.
pub open spec fn position_slot(player: Player, d: u32, l: u32, r: u32, t: u32) -> usize {
    (hash_of(player, d, l, r, t) % (TT_SIZE as u64)) as usize
}

impl Position {
    /// The hand of a player.
    pub open spec fn hand_of(&self, p: Player) -> u32 {
        cards_for_player(self.declarer_cards, self.left_cards, self.right_cards, p)
    }

    /// The cards in the three hands.
    pub open spec fn hands(&self) -> u32 {
        self.declarer_cards | self.left_cards | self.right_cards
    }

    /// The cards not yet taken in a trick: the hands and the table.
    pub open spec fn remaining(&self) -> u32 {
        self.declarer_cards | self.left_cards | self.right_cards | self.trick_cards
    }

    /// The moves the player to move may make.
    pub open spec fn legal(&self) -> u32 {
        legal_moves(self.trick_suit, self.player_cards)
    }

    /// A consistent position of the game `ctx`: hands and table do not overlap, the cached
    /// values agree with the cards, no hand holds more than ten cards, and the points taken and
    /// still to be taken add up to 120 and cover the cards not yet taken.
    pub open spec fn wf(&self, ctx: GameContext) -> bool {
        &&& self.declarer_cards & self.left_cards == 0
        &&& self.declarer_cards & self.right_cards == 0
        &&& self.left_cards & self.right_cards == 0
        &&& self.hands() & self.trick_cards == 0
        &&& self.player_cards == self.hand_of(self.player)
        &&& self.trick_cards_count == card_count(self.trick_cards)
        &&& self.trick_cards_count <= 2
        &&& self.trick_cards_count == 0 ==> self.trick_suit == 0
        &&& card_count(self.declarer_cards) <= 10
        &&& card_count(self.left_cards) <= 10
        &&& card_count(self.right_cards) <= 10
        &&& self.declarer_points + self.team_points + self.augen_future == 120
        &&& ctx.game_type != Game::Null ==> points(self.remaining()) <= self.augen_future
        &&& ctx.game_type == Game::Null ==> card_count(self.remaining()) <= 3 * self.augen_future
        &&& self.hash == position_slot(
            self.player,
            self.declarer_cards,
            self.left_cards,
            self.right_cards,
            self.trick_cards,
        )
    }

    /// The position built by `create`.
    pub open spec fn create_spec(
        played_cards: u32,
        trick_cards: u32,
        trick_suit: u32,
        augen_declarer: u8,
        player: Player,
        ctx: GameContext,
        is_root_position: bool,
    ) -> Position {
        let d = ctx.declarer_cards & !played_cards;
        let l = ctx.left_cards & !played_cards;
        let r = ctx.right_cards & !played_cards;
        let future = (120 - points(played_cards & !trick_cards)) as u8;
        Position {
            player,
            played_cards,
            trick_cards,
            trick_suit,
            declarer_points: augen_declarer,
            declarer_cards: d,
            left_cards: l,
            right_cards: r,
            player_cards: cards_for_player(d, l, r, player),
            trick_cards_count: card_count(trick_cards) as u8,
            augen_future: future,
            team_points: (120 - future - augen_declarer) as u8,
            is_root_position,
            hash: position_slot(player, d, l, r, trick_cards),
        }
    }

    /// The position at the start of a game.
    pub open spec fn initial_spec(ctx: GameContext) -> Position {
        Self::create_spec(0, 0, 0, 0, ctx.start_player, ctx, true)
    }

    /// A position from all its values; the hash slot is computed.
    pub fn new(
        player: Player,
        played_cards: u32,
        trick_cards: u32,
        trick_suit: u32,
        declarer_points: u8,
        declarer_cards: u32,
        left_cards: u32,
        right_cards: u32,
        player_cards: u32,
        trick_cards_count: u8,
        augen_future: u8,
        team_points: u8,
        is_root_position: bool,
    ) -> (r: Self)
        ensures
            r == (Position {
                player,
                played_cards,
                trick_cards,
                trick_suit,
                declarer_points,
                declarer_cards,
                left_cards,
                right_cards,
                player_cards,
                trick_cards_count,
                augen_future,
                team_points,
                is_root_position,
                hash: position_slot(player, declarer_cards, left_cards, right_cards, trick_cards),
            }),
    {
        let pos = Self {
            player,
            played_cards,
            trick_cards,
            trick_suit,
            declarer_points,
            declarer_cards,
            left_cards,
            right_cards,
            player_cards,
            trick_cards_count,
            augen_future,
            team_points,
            is_root_position,
            hash: 0,
        };
        pos.add_hash()
    }

    /// The position of the game `ctx` after `played_cards` were played, `trick_cards` of them
    /// lying on the table, with `augen_declarer` points taken by the declarer.
    pub fn create(
        played_cards: u32,
        trick_cards: u32,
        trick_suit: u32,
        augen_declarer: u8,
        player: Player,
        game_context: &GameContext,
        is_root_position: bool,
    ) -> (r: Position)
        requires
            augen_declarer <= points(played_cards & !trick_cards),
        ensures
            r == Self::create_spec(
                played_cards,
                trick_cards,
                trick_suit,
                augen_declarer,
                player,
                *game_context,
                is_root_position,
            ),
    {
        let declarer_cards: u32 = game_context.declarer_cards() & !played_cards;
        let left_cards: u32 = game_context.left_cards() & !played_cards;
        let right_cards: u32 = game_context.right_cards() & !played_cards;
        proof {
            crate::cards::lemma_bounds(played_cards & !trick_cards);
            crate::cards::lemma_bounds(trick_cards);
        }
        let augen_future = game_context.total_points() - (played_cards & !trick_cards).__get_value();
        let player_cards = match player {
            Player::Declarer => declarer_cards,
            Player::Left => left_cards,
            Player::Right => right_cards,
        };
        let trick_cards_count = crate::cards::count_cards(trick_cards) as u8;
        let augen_team = game_context.total_points() - augen_future - augen_declarer;

        Position::new(
            player,
            played_cards,
            trick_cards,
            trick_suit,
            augen_declarer,
            declarer_cards,
            left_cards,
            right_cards,
            player_cards,
            trick_cards_count,
            augen_future,
            augen_team,
            is_root_position,
        )
    }

    /// The position at the start of the game `ctx`.
    pub fn create_initial_position(game_context: &GameContext) -> (r: Position)
        ensures
            r == Self::initial_spec(*game_context),
            crate::context::deal_ok(*game_context) ==> r.wf(*game_context),
    {
        proof {
            lemma_set_algebra(0, 0, 0);
            crate::cards::lemma_empty_set();
        }
        let r = Position::create(
            0u32,
            0u32,
            0u32,
            0u8,
            game_context.start_player(),
            game_context,
            true,
        );
        proof {
            let c = *game_context;
            lemma_set_algebra(c.declarer_cards, 0, 0);
            lemma_set_algebra(c.left_cards, 0, 0);
            lemma_set_algebra(c.right_cards, 0, 0);
            lemma_set_algebra(c.declarer_cards | c.left_cards | c.right_cards, 0, 0);
            crate::cards::lemma_bounds(r.remaining());
        }
        r
    }

    /// The trick suit once `card` is on the table.
    pub open spec fn suit_after(&self, card: u32, ctx: GameContext) -> u32 {
        if self.trick_suit == 0 {
            suit_for_card(card, ctx.game_type)
        } else {
            self.trick_suit
        }
    }

    /// The position after the player to move plays `card`: the card goes from the hand to the
    /// table; the third card of a trick closes it, its points go to the party of the winner,
    /// who leads next.
    pub open spec fn after_move(&self, card: u32, ctx: GameContext) -> Position {
        let d = if self.player == Player::Declarer {
            self.declarer_cards ^ card
        } else {
            self.declarer_cards
        };
        let l = if self.player == Player::Left {
            self.left_cards ^ card
        } else {
            self.left_cards
        };
        let r = if self.player == Player::Right {
            self.right_cards ^ card
        } else {
            self.right_cards
        };
        let trick = self.trick_cards ^ card;
        let suit = self.suit_after(card, ctx);
        if self.trick_cards_count + 1 == 3 {
            let winner = trick_winner(
                trick,
                suit,
                ctx.game_type,
                ctx.declarer_cards,
                ctx.left_cards,
                ctx.right_cards,
            );
            let value = trick_value(trick, ctx.game_type);
            Position {
                player: winner,
                played_cards: self.played_cards ^ card,
                trick_cards: 0,
                trick_suit: 0,
                declarer_points: if winner == Player::Declarer {
                    (self.declarer_points + value) as u8
                } else {
                    self.declarer_points
                },
                declarer_cards: d,
                left_cards: l,
                right_cards: r,
                player_cards: cards_for_player(d, l, r, winner),
                trick_cards_count: 0,
                augen_future: (self.augen_future - value) as u8,
                team_points: if winner == Player::Declarer {
                    self.team_points
                } else {
                    (self.team_points + value) as u8
                },
                is_root_position: false,
                hash: position_slot(winner, d, l, r, 0),
            }
        } else {
            let next = player_at(self.player, 1);
            Position {
                player: next,
                played_cards: self.played_cards ^ card,
                trick_cards: trick,
                trick_suit: suit,
                declarer_points: self.declarer_points,
                declarer_cards: d,
                left_cards: l,
                right_cards: r,
                player_cards: cards_for_player(d, l, r, next),
                trick_cards_count: (self.trick_cards_count + 1) as u8,
                augen_future: self.augen_future,
                team_points: self.team_points,
                is_root_position: false,
                hash: position_slot(next, d, l, r, trick),
            }
        }
    }

    /// The position after the player to move plays `card`; a full trick is scored and cleared.
    pub fn make_move(&self, card: u32, game_context: &GameContext) -> (r: Position)
        requires
            self.wf(*game_context),
            is_card(card),
            subset(card, self.player_cards),
        ensures
            r == self.after_move(card, *game_context),
            r.wf(*game_context),
            card_count(r.hands()) + 1 == card_count(self.hands()),
            r.hands() == self.hands() & !card,
            r.played_cards == self.played_cards ^ card,
            r.hand_of(self.player) == self.hand_of(self.player) & !card,
            r.hand_of(player_at(self.player, 1)) == self.hand_of(player_at(self.player, 1)),
            r.hand_of(player_at(self.player, 2)) == self.hand_of(player_at(self.player, 2)),
            self.trick_cards_count < 2 ==> r.trick_cards == self.trick_cards | card,
            self.trick_cards_count == 2 ==> r.trick_cards == 0 && r.declarer_points + r.team_points
                == self.declarer_points + self.team_points + trick_value(
                self.trick_cards | card,
                game_context.game_type,
            ),
    {
        proof {
            lemma_after_move(*self, card, *game_context);
        }
        let mut new_player = self.player.inc();

        let mut new_trick_suit: u32 = if self.trick_suit == 0 {
            get_suit_for_card(card, game_context.game_type())
        } else {
            self.trick_suit
        };

        let new_played_cards = self.played_cards ^ card;

        let mut new_trick_cards = self.trick_cards ^ card;
        let mut new_trick_cards_count = self.trick_cards_count + 1;

        let mut new_augen_declarer = self.declarer_points;
        let mut new_augen_team = self.team_points;
        let mut new_augen_future = self.augen_future;

        let mut new_declarer_cards = self.declarer_cards;
        let mut new_left_cards = self.left_cards;
        let mut new_right_cards = self.right_cards;

        match self.player {
            Player::Declarer => new_declarer_cards ^= card,
            Player::Left => new_left_cards ^= card,
            Player::Right => new_right_cards ^= card,
        };

        if new_trick_cards_count == 3 {
            let augen = if game_context.game_type() == Game::Null {
                1
            } else {
                new_trick_cards.__get_value_of_three_cards()
            };

            let winner = self.calculate_trick_winner(new_trick_cards, new_trick_suit, game_context);

            new_trick_cards = 0;
            new_trick_cards_count = 0;
            new_trick_suit = 0;
            new_player = winner;

            match winner {
                Player::Declarer => new_augen_declarer += augen,
                _ => new_augen_team += augen,
            }

            new_augen_future -= augen;
        }

        let new_player_cards = match new_player {
            Player::Declarer => new_declarer_cards,
            Player::Left => new_left_cards,
            Player::Right => new_right_cards,
        };

        Position::new(
            new_player,
            new_played_cards,
            new_trick_cards,
            new_trick_suit,
            new_augen_declarer,
            new_declarer_cards,
            new_left_cards,
            new_right_cards,
            new_player_cards,
            new_trick_cards_count,
            new_augen_future,
            new_augen_team,
            false,
        )
    }

    /// The moves the player to move may make.
    pub fn get_legal_moves(&self) -> (r: u32)
        ensures
            r == self.legal(),
            subset(r, self.player_cards),
            self.player_cards != 0 ==> r != 0,
    {
        get_legal_moves(self.trick_suit, self.player_cards)
    }

    /// The cards in the three hands.
    pub fn get_all_unplayed_cards(&self) -> (r: u32)
        ensures
            r == self.hands(),
    {
        crate::rules::get_all_unplayed_cards(self.declarer_cards, self.left_cards, self.right_cards)
    }

    /// The winner of a trick of the game `ctx`.
    pub fn calculate_trick_winner(
        &self,
        trick_cards: u32,
        trick_suit: u32,
        game_context: &GameContext,
    ) -> (r: Player)
        ensures
            r == trick_winner(
                trick_cards,
                trick_suit,
                game_context.game_type,
                game_context.declarer_cards,
                game_context.left_cards,
                game_context.right_cards,
            ),
    {
        get_trick_winner(
            trick_cards,
            trick_suit,
            game_context.game_type(),
            game_context.declarer_cards(),
            game_context.left_cards(),
            game_context.right_cards(),
        )
    }

    /// The slot of the transposition table for this position.
    pub fn get_hash(&self) -> (r: usize)
        ensures
            r == self.hash,
    {
        self.hash
    }

    fn add_hash(self) -> (r: Position)
        ensures
            r == (Position {
                hash: position_slot(
                    self.player,
                    self.declarer_cards,
                    self.left_cards,
                    self.right_cards,
                    self.trick_cards,
                ),
                ..self
            }),
    {
        let mut s = self;
        s.hash =
            get_mapped_hash(
                get_hash(
                    s.player,
                    s.declarer_cards,
                    s.left_cards,
                    s.right_cards,
                    s.trick_cards,
                ),
            );
        s
    }

    /// The legal moves without moves that are equivalent to another one; at least one move is
    /// kept when there is a legal one.
    pub fn get_reduced_moves(&self, game_context: &GameContext) -> (r: u32)
        requires
            self.wf(*game_context),
        ensures
            subset(r, self.legal()),
            self.legal() != 0 ==> r != 0,
            r == reduced_moves(*self, *game_context),
    {
        let mut moves = self.get_legal_moves();
        let ghost legal = moves;
        proof {
            lemma_set_algebra(legal, legal, 0);
        }
        match game_context.game_type() {
            Game::Suit | Game::Grand => {
                moves = self.reduce_unequal(moves, game_context);
                let m2 = self.reduce_equal(moves, game_context.game_type());
                proof {
                    lemma_subset_trans(m2, moves, legal);
                }
                moves = m2;
            },
            Game::Null => {
                moves = self.reduce_equal(moves, game_context.game_type());
            },
        }
        proof {
            reveal(reduced_moves);
        }
        moves
    }

    fn reduce_unequal(&self, moves: u32, game_context: &GameContext) -> (r: u32)
        requires
            self.wf(*game_context),
            subset(moves, self.player_cards),
            game_context.game_type != Game::Null,
        ensures
            subset(r, moves),
            moves != 0 ==> r != 0,
            r == unequal_reduced(*self, *game_context, moves),
    {
        let mut ret = 0u32;
        let player = self.player;
        let all_moves = self.left_cards | self.right_cards | self.declarer_cards;
        proof {
            crate::rules::lemma_conn_lists_ok();
            crate::cards::lemma_subset_bounds(moves, self.player_cards, 0);
            assert(card_count(self.player_cards) <= 10);
            lemma_set_algebra(moves, 0, 0);
        }
        let seq = game_context.game_type().get_unequal_sequence();
        let connections = get_connections(moves, all_moves, seq);
        proof {
            lemma_set_algebra(moves, all_moves, 0);
            crate::cards::lemma_subset_bounds(moves & all_moves, moves, 0);
        }
        let mut i: usize = 1;
        while connections[i].0 > 0
            invariant
                crate::rules::connections_ok(connections, moves, all_moves),
                1 <= i <= connections[0].0 + 1,
                connections[0].0 <= 5,
                subset(ret, moves),
                subset(moves & all_moves, moves),
                self.wf(*game_context),
                i > 1 ==> ret != 0,
                connections@ == crate::rules::connections_of(
                    seq@,
                    moves,
                    all_moves,
                ),
                ret == runs_picked(*self, *game_context, connections@, i as int),
                player == self.player,
            decreases 7 - i,
        {
            proof {
                if i > connections[0].0 {
                    assert(connections@[i as int] == (0u32, 0u32, 0u32));
                }
                let row = connections@[i as int];
                lemma_subset_trans(row.0, moves & all_moves, moves);
                lemma_subset_trans(row.1, row.0, moves);
                lemma_subset_trans(row.2, row.0, moves);
                if i <= connections[0].0 {
                    lemma_card_nonzero(row.1);
                    lemma_card_nonzero(row.2);
                }
                lemma_or_nonzero(ret, row.0);
                lemma_or_nonzero(ret, row.1);
                lemma_or_nonzero(ret, row.2);
            }
            let repr = connections[i].1;
            let winner = self.get_forecasted_winner_of_current_trick(repr, game_context);
            let ghost old_ret = ret;
            let ghost row = connections@[i as int];

            if let Some(x) = winner {
                if x.is_same_team_as(player) {
                    proof {
                        lemma_set_algebra(ret, connections[i as int].1, moves);
                    }
                    ret |= connections[i].1;
                } else {
                    proof {
                        lemma_set_algebra(ret, connections[i as int].2, moves);
                    }
                    ret |= connections[i].2;
                }
            } else {
                proof {
                    lemma_set_algebra(ret, connections[i as int].0, moves);
                }
                ret |= connections[i].0;
            }
            assert(ret == old_ret | run_pick(*self, *game_context, row));
            i += 1;
        }
        proof {
            if i <= connections[0].0 {
                let row = connections@[i as int];
                assert(row.0 != 0);
            }
            assert(i == connections[0].0 + 1);
            lemma_subset_trans(connections[0].1, moves & all_moves, moves);
            lemma_set_algebra(ret, connections[0].1, moves);
            if moves != 0 {
                lemma_unequal_keeps(*self, *game_context, moves, connections, seq@, ret, i as int);
            }
        }
        ret | connections[0].1
    }

    fn reduce_equal(&self, moves: u32, game: Game) -> (r: u32)
        ensures
            subset(r, moves),
            moves != 0 ==> r != 0,
            r == equal_reduced(moves, self.remaining(), equal_list(game)),
    {
        let all_moves = self.declarer_cards | self.left_cards | self.right_cards | self.trick_cards;
        let connection_list = game.get_equal_sequence();
        proof {
            crate::rules::lemma_eq_lists_ok();
        }
        let r = get_reduced_equal_core(moves, all_moves, connection_list);
        proof {
            let list = connection_list@;
            assert(equal_keeps(r, moves, all_moves, list));
            let r2 = equal_reduced(moves, all_moves, list);
            assert(equal_keeps(r2, moves, all_moves, list));
            assert forall|k: int| 0 <= k < 32 implies has_card(r, k) == has_card(r2, k) by {
                assert(has_card(r, k) == (has_card(moves, k) && !exists|p: int|
                    crate::rules::eq_dropped_at(moves, all_moves, list, p) && #[trigger] has_card(list[p], k)));
                assert(has_card(r2, k) == (has_card(moves, k) && !exists|p: int|
                    crate::rules::eq_dropped_at(moves, all_moves, list, p) && #[trigger] has_card(list[p], k)));
            }
            crate::cards::lemma_ext(r, r2);
        }
        r
    }

    /// The winner of the current trick once `card` is on the table, where every way the
    /// players still to play can legally complete it gives the same winner; `None` where two
    /// completions differ or where one of them has no card to play.
    pub open spec fn forecast(&self, card: u32, ctx: GameContext) -> Option<Player> {
        let g = ctx.game_type;
        if self.trick_cards_count == 2 {
            Some(
                trick_winner(
                    self.trick_cards | card,
                    self.trick_suit,
                    g,
                    ctx.declarer_cards,
                    ctx.left_cards,
                    ctx.right_cards,
                ),
            )
        } else if self.trick_cards_count == 1 {
            let replies = cards_of(legal_moves(self.trick_suit, self.hand_of(player_at(self.player, 1))));
            let w0 = trick_winner(
                self.trick_cards | card | replies[0],
                self.trick_suit,
                g,
                ctx.declarer_cards,
                ctx.left_cards,
                ctx.right_cards,
            );
            if replies.len() > 0 && forall|i: int|
                0 <= i < replies.len() ==> trick_winner(
                    self.trick_cards | card | #[trigger] replies[i],
                    self.trick_suit,
                    g,
                    ctx.declarer_cards,
                    ctx.left_cards,
                    ctx.right_cards,
                ) == w0 {
                Some(w0)
            } else {
                None
            }
        } else {
            let suit = suit_for_card(card, g);
            let replies1 = cards_of(legal_moves(suit, self.hand_of(player_at(self.player, 1))));
            let replies2 = cards_of(legal_moves(suit, self.hand_of(player_at(self.player, 2))));
            let w0 = trick_winner(
                card | replies1[0] | replies2[0],
                suit,
                g,
                ctx.declarer_cards,
                ctx.left_cards,
                ctx.right_cards,
            );
            if replies1.len() > 0 && replies2.len() > 0 && forall|i: int, j: int|
                0 <= i < replies1.len() && 0 <= j < replies2.len() ==> trick_winner(
                    card | #[trigger] replies1[i] | #[trigger] replies2[j],
                    suit,
                    g,
                    ctx.declarer_cards,
                    ctx.left_cards,
                    ctx.right_cards,
                ) == w0 {
                Some(w0)
            } else {
                None
            }
        }
    }

    /// The winner of the current trick if `card` is played now, when it does not depend on the
    /// replies of the players still to play; `None` when it does or when they cannot reply.
    pub fn get_forecasted_winner_of_current_trick(
        &self,
        card: u32,
        game_context: &GameContext,
    ) -> (r: Option<Player>)
        requires
            self.trick_cards_count <= 2,
        ensures
            r == self.forecast(card, *game_context),
            self.trick_cards_count == 2 ==> r == Some(
                trick_winner(
                    self.trick_cards | card,
                    self.trick_suit,
                    game_context.game_type,
                    game_context.declarer_cards,
                    game_context.left_cards,
                    game_context.right_cards,
                ),
            ),
            self.trick_cards_count == 1 ==> ({
                let replies = cards_of(legal_moves(self.trick_suit, self.hand_of(player_at(self.player, 1))));
                (replies.len() > 0 && forall|i: int|
                    0 <= i < replies.len() ==> trick_winner(
                        self.trick_cards | card | #[trigger] replies[i],
                        self.trick_suit,
                        game_context.game_type,
                        game_context.declarer_cards,
                        game_context.left_cards,
                        game_context.right_cards,
                    ) == trick_winner(
                        self.trick_cards | card | replies[0],
                        self.trick_suit,
                        game_context.game_type,
                        game_context.declarer_cards,
                        game_context.left_cards,
                        game_context.right_cards,
                    )) ==> r is Some
            }),
            self.trick_cards_count == 0 ==> ({
                let suit = suit_for_card(card, game_context.game_type);
                let replies1 = cards_of(legal_moves(suit, self.hand_of(player_at(self.player, 1))));
                let replies2 = cards_of(legal_moves(suit, self.hand_of(player_at(self.player, 2))));
                (replies1.len() > 0 && replies2.len() > 0 && forall|i: int, j: int|
                    0 <= i < replies1.len() && 0 <= j < replies2.len() ==> trick_winner(
                        card | #[trigger] replies1[i] | #[trigger] replies2[j],
                        suit,
                        game_context.game_type,
                        game_context.declarer_cards,
                        game_context.left_cards,
                        game_context.right_cards,
                    ) == trick_winner(
                        card | replies1[0] | replies2[0],
                        suit,
                        game_context.game_type,
                        game_context.declarer_cards,
                        game_context.left_cards,
                        game_context.right_cards,
                    )) ==> r is Some
            }),
            self.trick_cards_count == 1 ==> (r matches Some(w) ==> {
                let replies = cards_of(legal_moves(self.trick_suit, self.hand_of(player_at(self.player, 1))));
                &&& replies.len() > 0
                &&& forall|i: int|
                    0 <= i < replies.len() ==> trick_winner(
                        self.trick_cards | card | #[trigger] replies[i],
                        self.trick_suit,
                        game_context.game_type,
                        game_context.declarer_cards,
                        game_context.left_cards,
                        game_context.right_cards,
                    ) == w
            }),
            self.trick_cards_count == 0 ==> (r matches Some(w) ==> {
                let suit = suit_for_card(card, game_context.game_type);
                let replies1 = cards_of(legal_moves(suit, self.hand_of(player_at(self.player, 1))));
                let replies2 = cards_of(legal_moves(suit, self.hand_of(player_at(self.player, 2))));
                &&& replies1.len() > 0
                &&& replies2.len() > 0
                &&& forall|i: int, j: int|
                    0 <= i < replies1.len() && 0 <= j < replies2.len() ==> trick_winner(
                        card | #[trigger] replies1[i] | #[trigger] replies2[j],
                        suit,
                        game_context.game_type,
                        game_context.declarer_cards,
                        game_context.left_cards,
                        game_context.right_cards,
                    ) == w
            }),
    {
        match self.trick_cards_count {
            2 => Some(self.calculate_trick_winner(self.trick_cards | card, self.trick_suit, game_context)),
            1 => self.trick_will_be_won_with_one_card_already_on_table(card, game_context),
            _ => self.trick_will_be_won_with_no_card_already_on_table(card, game_context),
        }
    }

    fn trick_will_be_won_with_no_card_already_on_table(
        &self,
        card: u32,
        game_context: &GameContext,
    ) -> (r: Option<Player>)
        ensures
            ({
                let suit = suit_for_card(card, game_context.game_type);
                let replies1 = cards_of(legal_moves(suit, self.hand_of(player_at(self.player, 1))));
                let replies2 = cards_of(legal_moves(suit, self.hand_of(player_at(self.player, 2))));
                (replies1.len() > 0 && replies2.len() > 0 && forall|i: int, j: int|
                    0 <= i < replies1.len() && 0 <= j < replies2.len() ==> trick_winner(
                        card | #[trigger] replies1[i] | #[trigger] replies2[j],
                        suit,
                        game_context.game_type,
                        game_context.declarer_cards,
                        game_context.left_cards,
                        game_context.right_cards,
                    ) == trick_winner(
                        card | replies1[0] | replies2[0],
                        suit,
                        game_context.game_type,
                        game_context.declarer_cards,
                        game_context.left_cards,
                        game_context.right_cards,
                    )) ==> r is Some
            }),
            r matches Some(w) ==> {
                let suit = suit_for_card(card, game_context.game_type);
                let replies1 = cards_of(legal_moves(suit, self.hand_of(player_at(self.player, 1))));
                let replies2 = cards_of(legal_moves(suit, self.hand_of(player_at(self.player, 2))));
                &&& replies1.len() > 0
                &&& replies2.len() > 0
                &&& forall|i: int, j: int|
                    0 <= i < replies1.len() && 0 <= j < replies2.len() ==> trick_winner(
                        card | #[trigger] replies1[i] | #[trigger] replies2[j],
                        suit,
                        game_context.game_type,
                        game_context.declarer_cards,
                        game_context.left_cards,
                        game_context.right_cards,
                    ) == w
            },
    {
        let trick_suit = get_suit_for_card(card, game_context.game_type());
        let mut winner_accumulated: Option<Player> = None;

        let next_player_moves = self.get_forecasted_moves(self.player.inc(), trick_suit);
        let next2_player_moves = self.get_forecasted_moves(self.player.inc().inc(), trick_suit);

        let (mov_arr_1, mov_arr_1_n) = crate::cards::Bitboard::__decompose(&next_player_moves);
        let (mov_arr_2, mov_arr_2_n) = crate::cards::Bitboard::__decompose(&next2_player_moves);
        let ghost replies1 = cards_of(next_player_moves);
        let ghost replies2 = cards_of(next2_player_moves);
        proof {
            crate::cards::lemma_high_cards_len(next_player_moves, 0);
            crate::cards::lemma_high_cards_len(next2_player_moves, 0);
            crate::cards::lemma_bounds(next_player_moves);
            crate::cards::lemma_bounds(next2_player_moves);
        }
        let ghost gt = game_context.game_type;
        let ghost (cd, cl, cr) = (game_context.declarer_cards, game_context.left_cards, game_context.right_cards);
        proof {
            assert(player_at(player_at(self.player, 1), 1) == player_at(self.player, 2));
        }

        let mut i: usize = 0;
        while i < mov_arr_1_n
            invariant
                mov_arr_1_n == replies1.len(),
                mov_arr_2_n == replies2.len(),
                mov_arr_1_n <= 32,
                mov_arr_2_n <= 32,
                mov_arr_1@.subrange(0, mov_arr_1_n as int) == replies1,
                mov_arr_2@.subrange(0, mov_arr_2_n as int) == replies2,
                i <= mov_arr_1_n,
                winner_accumulated matches Some(w) ==> (mov_arr_2_n > 0 && i > 0 && forall|a: int, b: int|
                    0 <= a < i && 0 <= b < mov_arr_2_n ==> trick_winner(
                        card | #[trigger] replies1[a] | #[trigger] replies2[b],
                        trick_suit,
                        gt,
                        cd,
                        cl,
                        cr,
                    ) == w),
                winner_accumulated is None ==> (i == 0 || mov_arr_2_n == 0),
                replies1 == cards_of(legal_moves(trick_suit, self.hand_of(player_at(self.player, 1)))),
                replies2 == cards_of(legal_moves(trick_suit, self.hand_of(player_at(self.player, 2)))),
                winner_accumulated matches Some(w) ==> w == trick_winner(
                    card | replies1[0] | replies2[0],
                    trick_suit,
                    gt,
                    cd,
                    cl,
                    cr,
                ),
                trick_suit == suit_for_card(card, gt),
                gt == game_context.game_type,
                cd == game_context.declarer_cards,
                cl == game_context.left_cards,
                cr == game_context.right_cards,
            decreases mov_arr_1_n - i,
        {
            let mov1 = mov_arr_1[i];
            assert(mov1 == replies1[i as int]);
            let mut j: usize = 0;
            while j < mov_arr_2_n
                invariant
                    mov_arr_1_n == replies1.len(),
                    mov_arr_2_n == replies2.len(),
                    mov_arr_1_n <= 32,
                    mov_arr_2_n <= 32,
                    mov_arr_1@.subrange(0, mov_arr_1_n as int) == replies1,
                    mov_arr_2@.subrange(0, mov_arr_2_n as int) == replies2,
                    i < mov_arr_1_n,
                    j <= mov_arr_2_n,
                    mov1 == replies1[i as int],
                    winner_accumulated matches Some(w) ==> (mov_arr_2_n > 0 && (i > 0 || j > 0) && (forall|a: int, b: int|
                        0 <= a < i && 0 <= b < mov_arr_2_n ==> trick_winner(
                            card | #[trigger] replies1[a] | #[trigger] replies2[b],
                            trick_suit,
                            gt,
                            cd,
                            cl,
                            cr,
                        ) == w) && (forall|b: int|
                        0 <= b < j ==> trick_winner(
                            card | mov1 | #[trigger] replies2[b],
                            trick_suit,
                            gt,
                            cd,
                            cl,
                            cr,
                        ) == w)),
                    winner_accumulated is None ==> ((i == 0 && j == 0) || mov_arr_2_n == 0),
                    replies1 == cards_of(legal_moves(trick_suit, self.hand_of(player_at(self.player, 1)))),
                    replies2 == cards_of(legal_moves(trick_suit, self.hand_of(player_at(self.player, 2)))),
                    winner_accumulated matches Some(w) ==> w == trick_winner(
                        card | replies1[0] | replies2[0],
                        trick_suit,
                        gt,
                        cd,
                        cl,
                        cr,
                    ),
                    trick_suit == suit_for_card(card, gt),
                    gt == game_context.game_type,
                    cd == game_context.declarer_cards,
                    cl == game_context.left_cards,
                    cr == game_context.right_cards,
                decreases mov_arr_2_n - j,
            {
                let mov2 = mov_arr_2[j];
                assert(mov2 == replies2[j as int]);
                let winner = self.calculate_trick_winner(card | mov1 | mov2, trick_suit, game_context);

                match winner_accumulated {
                    None => {
                        winner_accumulated = Some(winner);
                    },
                    Some(w) => {
                        if w != winner {
                            proof {
                                assert(trick_winner(
                                    card | replies1[i as int] | replies2[j as int],
                                    trick_suit,
                                    gt,
                                    cd,
                                    cl,
                                    cr,
                                ) != trick_winner(
                                    card | replies1[0] | replies2[0],
                                    trick_suit,
                                    gt,
                                    cd,
                                    cl,
                                    cr,
                                ));
                            }
                            return None;
                        }
                    },
                }
                j = j + 1;
            }
            i = i + 1;
        }
        winner_accumulated
    }

    fn trick_will_be_won_with_one_card_already_on_table(
        &self,
        card: u32,
        game_context: &GameContext,
    ) -> (r: Option<Player>)
        ensures
            ({
                let replies = cards_of(legal_moves(self.trick_suit, self.hand_of(player_at(self.player, 1))));
                (replies.len() > 0 && forall|i: int|
                    0 <= i < replies.len() ==> trick_winner(
                        self.trick_cards | card | #[trigger] replies[i],
                        self.trick_suit,
                        game_context.game_type,
                        game_context.declarer_cards,
                        game_context.left_cards,
                        game_context.right_cards,
                    ) == trick_winner(
                        self.trick_cards | card | replies[0],
                        self.trick_suit,
                        game_context.game_type,
                        game_context.declarer_cards,
                        game_context.left_cards,
                        game_context.right_cards,
                    )) ==> r is Some
            }),
            r matches Some(w) ==> {
                let replies = cards_of(legal_moves(self.trick_suit, self.hand_of(player_at(self.player, 1))));
                &&& replies.len() > 0
                &&& forall|i: int|
                    0 <= i < replies.len() ==> trick_winner(
                        self.trick_cards | card | #[trigger] replies[i],
                        self.trick_suit,
                        game_context.game_type,
                        game_context.declarer_cards,
                        game_context.left_cards,
                        game_context.right_cards,
                    ) == w
            },
    {
        let trick_suit = self.trick_suit;
        let mut winner_accumulated: Option<Player> = None;

        let next_player_moves = self.get_forecasted_moves(self.player.inc(), trick_suit);
        let (mov_arr_1, mov_arr_1_n) = crate::cards::Bitboard::__decompose(&next_player_moves);
        let ghost replies = cards_of(next_player_moves);
        proof {
            crate::cards::lemma_high_cards_len(next_player_moves, 0);
            crate::cards::lemma_bounds(next_player_moves);
        }
        let ghost gt = game_context.game_type;
        let ghost (cd, cl, cr) = (game_context.declarer_cards, game_context.left_cards, game_context.right_cards);

        let mut i: usize = 0;
        while i < mov_arr_1_n
            invariant
                mov_arr_1_n == replies.len(),
                mov_arr_1_n <= 32,
                mov_arr_1@.subrange(0, mov_arr_1_n as int) == replies,
                i <= mov_arr_1_n,
                trick_suit == self.trick_suit,
                replies == cards_of(
                    legal_moves(self.trick_suit, self.hand_of(player_at(self.player, 1))),
                ),
                winner_accumulated matches Some(w) ==> (i > 0 && forall|a: int|
                    0 <= a < i ==> trick_winner(
                        self.trick_cards | card | #[trigger] replies[a],
                        trick_suit,
                        gt,
                        cd,
                        cl,
                        cr,
                    ) == w),
                winner_accumulated is None ==> i == 0,
                winner_accumulated matches Some(w) ==> w == trick_winner(
                    self.trick_cards | card | replies[0],
                    trick_suit,
                    gt,
                    cd,
                    cl,
                    cr,
                ),
                gt == game_context.game_type,
                cd == game_context.declarer_cards,
                cl == game_context.left_cards,
                cr == game_context.right_cards,
            decreases mov_arr_1_n - i,
        {
            let mov1 = mov_arr_1[i];
            assert(mov1 == replies[i as int]);
            let winner = self.calculate_trick_winner(self.trick_cards | card | mov1, trick_suit, game_context);

            match winner_accumulated {
                None => {
                    winner_accumulated = Some(winner);
                },
                Some(w) => {
                    if w != winner {
                        proof {
                            assert(trick_winner(
                                self.trick_cards | card | replies[i as int],
                                trick_suit,
                                gt,
                                cd,
                                cl,
                                cr,
                            ) != trick_winner(
                                self.trick_cards | card | replies[0],
                                trick_suit,
                                gt,
                                cd,
                                cl,
                                cr,
                            ));
                            assert(replies == cards_of(
                                legal_moves(self.trick_suit, self.hand_of(player_at(self.player, 1))),
                            ));
                            assert(!(forall|k: int|
                                0 <= k < replies.len() ==> trick_winner(
                                    self.trick_cards | card | #[trigger] replies[k],
                                    trick_suit,
                                    gt,
                                    cd,
                                    cl,
                                    cr,
                                ) == trick_winner(
                                    self.trick_cards | card | replies[0],
                                    trick_suit,
                                    gt,
                                    cd,
                                    cl,
                                    cr,
                                )));
                        }
                        return None;
                    }
                },
            }
            i = i + 1;
        }
        winner_accumulated
    }

    fn get_forecasted_moves(&self, player: Player, trick_suit: u32) -> (r: u32)
        ensures
            r == legal_moves(trick_suit, self.hand_of(player)),
    {
        let next_player_cards = match player {
            Player::Declarer => self.declarer_cards,
            Player::Left => self.left_cards,
            Player::Right => self.right_cards,
        };
        get_legal_moves(trick_suit, next_player_cards)
    }
}

/// The points a closed trick is worth: its card points, or one in a null game.
pub open spec fn trick_value(trick: u32, game: Game) -> nat {
    if game == Game::Null {
        1
    } else {
        points(trick)
    }
}

/// The card moves from the hand of the player to move to the table, and nothing else changes
/// in the hands.
proof fn lemma_move_hands(p: Position, card: u32, ctx: GameContext) -> (k: int)
    requires
        p.wf(ctx),
        is_card(card),
        subset(card, p.player_cards),
    ensures
        0 <= k < 32,
        card == bit(k),
        has_card(p.hands(), k),
        !has_card(p.trick_cards, k),
        card & p.trick_cards == 0,
        p.trick_cards ^ card == p.trick_cards | card,
        card_count(p.trick_cards ^ card) == card_count(p.trick_cards) + 1,
        card_count(p.hands()) == card_count(p.hands() & !card) + 1,
        points(p.trick_cards | card) == points(p.trick_cards) + crate::cards::card_value(k),
        p.after_move(card, ctx).hands() == p.hands() & !card,
        p.after_move(card, ctx).declarer_cards & p.after_move(card, ctx).left_cards == 0,
        p.after_move(card, ctx).declarer_cards & p.after_move(card, ctx).right_cards == 0,
        p.after_move(card, ctx).left_cards & p.after_move(card, ctx).right_cards == 0,
        p.after_move(card, ctx).hand_of(p.player) == p.hand_of(p.player) & !card,
        p.after_move(card, ctx).hand_of(player_at(p.player, 1)) == p.hand_of(player_at(p.player, 1)),
        p.after_move(card, ctx).hand_of(player_at(p.player, 2)) == p.hand_of(player_at(p.player, 2)),
        card_count(p.hand_of(p.player) & !card) <= card_count(p.hand_of(p.player)),
        (p.hands() & !card) & (p.trick_cards ^ card) == 0,
        ((p.hands() & !card) | (p.trick_cards ^ card)) == p.remaining(),
        ((p.hands() & !card) | 0u32) == p.remaining() & !(p.trick_cards | card),
        (p.remaining() & !(p.trick_cards | card)) & (p.trick_cards | card) == 0,
        ((p.remaining() & !(p.trick_cards | card)) | (p.trick_cards | card)) == p.remaining(),
{
    let k = crate::cards::lemma_card_index(card);
    lemma_move_sets(p.declarer_cards, p.left_cards, p.right_cards, p.trick_cards, card);
    crate::cards::lemma_has_bit(k, k);
    crate::cards::lemma_has_ops(card, p.player_cards, k);
    assert(has_card(p.hands(), k)) by {
        crate::cards::lemma_has_ops(p.declarer_cards, p.left_cards, k);
        crate::cards::lemma_has_ops(p.declarer_cards | p.left_cards, p.right_cards, k);
    }
    crate::cards::lemma_remove_card(p.hands(), k);
    assert(!has_card(p.trick_cards, k)) by {
        crate::cards::lemma_has_ops(p.hands(), p.trick_cards, k);
        crate::cards::lemma_has_consts(k);
    }
    crate::cards::lemma_add_card(p.trick_cards, k);
    lemma_set_algebra(p.hand_of(p.player), !card, 0);
    crate::cards::lemma_subset_bounds(p.hand_of(p.player) & !card, p.hand_of(p.player), 0);
    lemma_set_algebra(p.trick_cards, card, 0);
    lemma_set_algebra(p.hands() & !card, 0, 0);
    k
}

/// What `make_move` keeps and changes: the new position is consistent, holds one card less in
/// the hands, and a closed trick adds its value to the party of the winner.
pub proof fn lemma_after_move(p: Position, card: u32, ctx: GameContext)
    requires
        p.wf(ctx),
        is_card(card),
        subset(card, p.player_cards),
    ensures
        p.after_move(card, ctx).wf(ctx),
        card_count(p.after_move(card, ctx).hands()) + 1 == card_count(p.hands()),
        p.after_move(card, ctx).hands() == p.hands() & !card,
        p.after_move(card, ctx).hand_of(p.player) == p.hand_of(p.player) & !card,
        p.after_move(card, ctx).hand_of(player_at(p.player, 1)) == p.hand_of(player_at(p.player, 1)),
        p.after_move(card, ctx).hand_of(player_at(p.player, 2)) == p.hand_of(player_at(p.player, 2)),
        card_count(p.trick_cards ^ card) == p.trick_cards_count + 1,
        p.trick_cards ^ card == p.trick_cards | card,
        p.trick_cards_count == 2 ==> trick_value(p.trick_cards | card, ctx.game_type)
            <= p.augen_future,
{
    lemma_move_hands(p, card, ctx);
    if p.trick_cards_count == 2 {
        lemma_after_move_close(p, card, ctx);
    } else {
        lemma_after_move_open(p, card, ctx);
    }
}

/// A card that does not close the trick keeps the cards not yet taken and the points.
#[verifier::spinoff_prover]
proof fn lemma_after_move_open(p: Position, card: u32, ctx: GameContext)
    requires
        p.wf(ctx),
        is_card(card),
        subset(card, p.player_cards),
        p.trick_cards_count < 2,
    ensures
        p.after_move(card, ctx).wf(ctx),
        card_count(p.after_move(card, ctx).hands()) + 1 == card_count(p.hands()),
{
    let k = lemma_move_hands(p, card, ctx);
    let q = p.after_move(card, ctx);
    assert(q.remaining() == p.remaining());
    assert(q.hands() & q.trick_cards == 0);
    assert(card_count(q.declarer_cards) <= 10 && card_count(q.left_cards) <= 10 && card_count(
        q.right_cards,
    ) <= 10);
}

/// A card that closes the trick takes the trick out of play and scores it.
#[verifier::spinoff_prover]
proof fn lemma_after_move_close(p: Position, card: u32, ctx: GameContext)
    requires
        p.wf(ctx),
        is_card(card),
        subset(card, p.player_cards),
        p.trick_cards_count == 2,
    ensures
        p.after_move(card, ctx).wf(ctx),
        card_count(p.after_move(card, ctx).hands()) + 1 == card_count(p.hands()),
        trick_value(p.trick_cards | card, ctx.game_type) <= p.augen_future,
{
    let k = lemma_move_hands(p, card, ctx);
    let q = p.after_move(card, ctx);
    let trick = p.trick_cards | card;
    let rest = p.remaining() & !trick;
    crate::cards::lemma_union(rest, trick);
    crate::cards::lemma_empty_set();
    crate::cards::lemma_bounds(trick);
    assert(q.remaining() == rest);
    assert(card_count(trick) == 3);
    assert(trick_value(trick, ctx.game_type) <= p.augen_future);
    assert(q.hands() & q.trick_cards == 0) by {
        lemma_set_algebra(q.hands(), 0, 0);
    }
    assert(card_count(q.declarer_cards) <= 10 && card_count(q.left_cards) <= 10 && card_count(
        q.right_cards,
    ) <= 10);
}

/// Subsets chain.
pub proof fn lemma_subset_trans(a: u32, b: u32, c: u32)
    ensures
        subset(a, b) && subset(b, c) ==> subset(a, c),
{
    lemma_set_algebra(a, b, c);
}

/// Moving a card from the declarer's hand to the table.
proof fn lemma_move_declarer(d: u32, l: u32, r: u32, t: u32, c: u32)
    by (bit_vector)
    requires
        d & l == 0,
        d & r == 0,
        l & r == 0,
        (d | l | r) & t == 0,
        c & d == c,
    ensures
        (d ^ c) & l == 0,
        (d ^ c) & r == 0,
        ((d ^ c) | l | r) & (t ^ c) == 0,
        ((d ^ c) | l | r | (t ^ c)) == (d | l | r | t),
        ((d ^ c) | l | r) == (d | l | r) & !c,
        d ^ c == d & !c,
        ((d ^ c) | l | r) & 0 == 0,
        ((d ^ c) | l | r | 0) == (d | l | r | t) & !(t | c),
{
}

/// Moving a card from the left hand to the table.
proof fn lemma_move_left(d: u32, l: u32, r: u32, t: u32, c: u32)
    by (bit_vector)
    requires
        d & l == 0,
        d & r == 0,
        l & r == 0,
        (d | l | r) & t == 0,
        c & l == c,
    ensures
        d & (l ^ c) == 0,
        (l ^ c) & r == 0,
        (d | (l ^ c) | r) & (t ^ c) == 0,
        (d | (l ^ c) | r | (t ^ c)) == (d | l | r | t),
        (d | (l ^ c) | r) == (d | l | r) & !c,
        l ^ c == l & !c,
        (d | (l ^ c) | r) & 0 == 0,
        (d | (l ^ c) | r | 0) == (d | l | r | t) & !(t | c),
{
}

/// Moving a card from the right hand to the table.
proof fn lemma_move_right(d: u32, l: u32, r: u32, t: u32, c: u32)
    by (bit_vector)
    requires
        d & l == 0,
        d & r == 0,
        l & r == 0,
        (d | l | r) & t == 0,
        c & r == c,
    ensures
        d & (r ^ c) == 0,
        l & (r ^ c) == 0,
        (d | l | (r ^ c)) & (t ^ c) == 0,
        (d | l | (r ^ c) | (t ^ c)) == (d | l | r | t),
        (d | l | (r ^ c)) == (d | l | r) & !c,
        r ^ c == r & !c,
        (d | l | (r ^ c)) & 0 == 0,
        (d | l | (r ^ c) | 0) == (d | l | r | t) & !(t | c),
{
}

/// Clearing a full trick: the cards not yet taken split into the rest and the trick.
proof fn lemma_clear_trick(x: u32, t: u32, c: u32)
    by (bit_vector)
    requires
        c & t == 0,
        (t | c) & x == t | c,
    ensures
        t ^ c == t | c,
        (x & !(t | c)) & (t | c) == 0,
        ((x & !(t | c)) | (t | c)) == x,
{
}

/// Moving a card from a hand to the table, and clearing a full trick, on the level of sets.
proof fn lemma_move_sets(d: u32, l: u32, r: u32, t: u32, c: u32)
    requires
        d & l == 0,
        d & r == 0,
        l & r == 0,
        (d | l | r) & t == 0,
    ensures
        c & d == c ==> ((d ^ c) & l == 0 && (d ^ c) & r == 0 && ((d ^ c) | l | r) & (t ^ c) == 0
            && ((d ^ c) | l | r | (t ^ c)) == (d | l | r | t) && ((d ^ c) | l | r) == (d | l | r) & !c
            && d ^ c == d & !c && ((d ^ c) | l | r) & 0 == 0 && ((d ^ c) | l | r | 0) == (d | l
            | r | t) & !(t | c)),
        c & l == c ==> (d & (l ^ c) == 0 && (l ^ c) & r == 0 && (d | (l ^ c) | r) & (t ^ c) == 0
            && (d | (l ^ c) | r | (t ^ c)) == (d | l | r | t) && (d | (l ^ c) | r) == (d | l | r) & !c
            && l ^ c == l & !c && (d | (l ^ c) | r | 0) == (d | l | r | t) & !(t | c)),
        c & r == c ==> (d & (r ^ c) == 0 && l & (r ^ c) == 0 && (d | l | (r ^ c)) & (t ^ c) == 0
            && (d | l | (r ^ c) | (t ^ c)) == (d | l | r | t) && (d | l | (r ^ c)) == (d | l | r) & !c
            && r ^ c == r & !c && (d | l | (r ^ c) | 0) == (d | l | r | t) & !(t | c)),
        (c & t == 0 && (c & d == c || c & l == c || c & r == c)) ==> (t ^ c == t | c && ((d | l
            | r | t) & !(t | c)) & (t | c) == 0 && (((d | l | r | t) & !(t | c)) | (t | c)) == (d
            | l | r | t)),
{
    if c & d == c {
        lemma_move_declarer(d, l, r, t, c);
    }
    if c & l == c {
        lemma_move_left(d, l, r, t, c);
    }
    if c & r == c {
        lemma_move_right(d, l, r, t, c);
    }
    if c & t == 0 && (c & d == c || c & l == c || c & r == c) {
        lemma_move_cover(d, l, r, t, c);
        lemma_clear_trick(d | l | r | t, t, c);
    }
}

/// A card of one of the hands and the trick lie in the cards not yet taken.
proof fn lemma_move_cover(d: u32, l: u32, r: u32, t: u32, c: u32)
    by (bit_vector)
    requires
        c & d == c || c & l == c || c & r == c,
    ensures
        (t | c) & (d | l | r | t) == t | c,
{
}

/// A set joined with a non-empty set is not empty.
proof fn lemma_or_nonzero(x: u32, y: u32)
    ensures
        y != 0 ==> x | y != 0,
        x != 0 ==> x | y != 0,
{
    assert(y != 0 ==> x | y != 0) by (bit_vector);
    assert(x != 0 ==> x | y != 0) by (bit_vector);
}

/// A single card is not the empty set.
proof fn lemma_card_nonzero(c: u32)
    requires
        is_card(c),
    ensures
        c != 0,
{
    let k = crate::cards::lemma_card_index(c);
    crate::cards::lemma_has_bit(k, k);
    crate::cards::lemma_has_consts(k);
}

/// A move of the player to move is a card of the hands.
proof fn lemma_held_card(pos: Position, ctx: GameContext, moves: u32) -> (k: int)
    requires
        pos.wf(ctx),
        subset(moves, pos.player_cards),
        moves != 0,
    ensures
        0 <= k < 32,
        has_card(moves & (pos.left_cards | pos.right_cards | pos.declarer_cards), k),
{
    crate::cards::lemma_highest(moves);
    let k = 31 - vstd::std_specs::bits::u32_leading_zeros(moves);
    let all_moves = pos.left_cards | pos.right_cards | pos.declarer_cards;
    crate::cards::lemma_has_ops(moves, pos.player_cards, k);
    crate::cards::lemma_has_ops(pos.left_cards | pos.right_cards, pos.declarer_cards, k);
    crate::cards::lemma_has_ops(pos.left_cards, pos.right_cards, k);
    crate::cards::lemma_has_ops(moves, all_moves, k);
    k
}

/// A card accounted for by the single moves or a run leaves the reduced moves non-empty.
proof fn lemma_unequal_nonzero(c: crate::rules::Connections, ret: u32, k: int)
    requires
        0 <= k < 32,
        has_card(c[0].1, k) || crate::rules::in_rows(c@, c[0].0 as int, k),
        c[0].0 >= 1 ==> ret != 0,
    ensures
        ret | c[0].1 != 0,
{
    lemma_or_nonzero(ret, c[0].1);
    if has_card(c[0].1, k) {
        crate::cards::lemma_has_consts(k);
    }
}

/// The moves reduced by runs keep a move when there is one: every held card is in a run or
/// among the single moves, and each run gives a move.
proof fn lemma_unequal_keeps(
    pos: Position,
    ctx: GameContext,
    moves: u32,
    c: crate::rules::Connections,
    list: Seq<(u32, u8)>,
    ret: u32,
    i: int,
)
    requires
        pos.wf(ctx),
        subset(moves, pos.player_cards),
        moves != 0,
        list == crate::consts::FARB_CONN@ || list == crate::consts::GRAND_CONN@,
        crate::rules::connections_ok(
            c,
            moves,
            pos.left_cards | pos.right_cards | pos.declarer_cards,
        ),
        list.len() > 0 && list.last().0 == 0 ==> forall|k: int|
            0 <= k < 32 && has_card(
                moves & (pos.left_cards | pos.right_cards | pos.declarer_cards),
                k,
            ) && crate::rules::listed(list, k) ==> #[trigger] has_card(c[0].1, k)
                || crate::rules::in_rows(c@, c[0].0 as int, k),
        1 <= i <= c[0].0 + 1,
        c[i].0 == 0,
        i > 1 ==> ret != 0,
    ensures
        ret | c[0].1 != 0,
{
    let k = lemma_held_card(pos, ctx, moves);
    crate::rules::lemma_conn_lists_cover();
    assert(crate::rules::listed(crate::consts::FARB_CONN@, k));
    assert(crate::rules::listed(list, k));
    if c[0].0 >= 1 && i <= c[0].0 {
        assert(c@[i].0 != 0);
    }
    lemma_unequal_nonzero(c, ret, k);
}

} // verus!
