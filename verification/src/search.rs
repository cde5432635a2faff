//! Alpha-beta search over the positions of a game, with a transposition table, and the
//! optimum search that prefers fast wins and slow losses.
use vstd::prelude::*;
use crate::cards::{card_count, is_card, lemma_set_algebra, subset};
use crate::consts::TT_SIZE;
use crate::context::GameContext;
use crate::counters::Counters;
use crate::defs::{Game, Player};
use crate::position::Position;
use crate::rules::{get_sorted_by_value, lemma_sorted_members, sorted_by_value};
use crate::tt::{entry_for, flag_for, lookup, replaces, TranspositionEntry, TranspositionFlag, TranspositionTable};

verus! {

/// How a game type ranks values: in suit and grand games the declarer maximizes the points,
/// in null games the declarer minimizes the lost flag.
pub enum GameStrategy {
    Standard,
    Null,
}

/// `a` is better than `b` for `player`.
pub open spec fn prefers(strategy: GameStrategy, a: u8, b: u8, player: Player) -> bool {
    match strategy {
        GameStrategy::Standard => (player == Player::Declarer && a > b) || (player
            != Player::Declarer && a < b),
        GameStrategy::Null => (player == Player::Declarer && a < b) || (player != Player::Declarer
            && a > b),
    }
}

/// The worst value for `player`, which any move improves on or matches.
pub open spec fn initial_spec(strategy: GameStrategy, player: Player) -> u8 {
    match strategy {
        GameStrategy::Standard => if player == Player::Declarer {
            0
        } else {
            120
        },
        GameStrategy::Null => if player == Player::Declarer {
            1
        } else {
            0
        },
    }
}

impl GameStrategy {
    /// Whether `a` is better than `b` for `player`.
    pub fn evaluate(&self, a: u8, b: u8, player: Player) -> (r: bool)
        ensures
            r == prefers(*self, a, b, player),
    {
        match self {
            GameStrategy::Standard => {
                (player == Player::Declarer && a > b) || (player != Player::Declarer && a < b)
            },
            GameStrategy::Null => {
                (player == Player::Declarer && a < b) || (player != Player::Declarer && a > b)
            },
        }
    }

    /// The worst value for `player`.
    pub fn initial_value(&self, player: Player) -> (r: u8)
        ensures
            r == initial_spec(*self, player),
    {
        match self {
            GameStrategy::Standard => {
                if player == Player::Declarer {
                    0
                } else {
                    120
                }
            },
            GameStrategy::Null => {
                if player == Player::Declarer {
                    1
                } else {
                    0
                }
            },
        }
    }
}

/// The largest of 120 and the two window ends: no value of a search leaves this bound.
pub open spec fn value_bound(alpha: u8, beta: u8) -> int {
    if alpha >= beta && alpha >= 120 {
        alpha as int
    } else if beta >= 120 {
        beta as int
    } else {
        120
    }
}

/// A move result: no card, or a card the player to move may play.
pub open spec fn move_ok(card: u32, position: Position) -> bool {
    card == 0 || (is_card(card) && subset(card, position.legal()))
}

/// The value at which the search stops early, if any: the points of the declarer when the hands
/// are empty; a lost null game once the declarer took a trick; else the window end that the
/// declarer can no longer reach or has reached.
pub open spec fn termination_spec(
    ctx: GameContext,
    position: Position,
    alpha: u8,
    beta: u8,
) -> Option<u8> {
    if position.player_cards == 0 {
        Some(position.declarer_points)
    } else if ctx.game_type == Game::Null {
        if position.declarer_points > 0 {
            Some(1u8)
        } else {
            None
        }
    } else if 120 - position.team_points <= alpha {
        Some(alpha)
    } else if position.declarer_points >= beta {
        Some(beta)
    } else {
        None
    }
}

/// Positions stored in the table: not the root, and no card on the table.
pub open spec fn tt_compatible(position: Position) -> bool {
    !position.is_root_position && position.trick_cards_count == 0
}

/// The best value for the declarer that the search of `position` finds within the window
/// `alpha`..`beta`, with the card to play for it.
///
/// The transposition table stays well formed; the value lies within 120 and the window; the
/// card is none or a card the player may play; with empty hands the value is the points of the
/// declarer.
pub fn search(
    game_context: &GameContext,
    position: &Position,
    tt: &mut TranspositionTable,
    cnt: &mut Counters,
    alpha: u8,
    beta: u8,
) -> (r: (u32, u8))
    requires
        position.wf(*game_context),
        old(tt).wf(),
    ensures
        final(tt).wf(),
        r.1 <= value_bound(alpha, beta),
        move_ok(r.0, *position),
        termination_spec(*game_context, *position, alpha, beta) matches Some(v) ==> r == (0u32, v),
        termination_spec(*game_context, *position, alpha, beta) is None && !tt_compatible(*position)
            && position.legal() != 0 ==> r.0 != 0,
    decreases card_count(position.hands()),
{
    let mut alpha = alpha;
    let mut beta = beta;
    let ghost bound = value_bound(alpha, beta);
    cnt.inc_iters();

    let strategy = match game_context.game_type {
        Game::Null => GameStrategy::Null,
        _ => GameStrategy::Standard,
    };

    if let Some(x) = apply_termination_criteria(game_context, position, alpha, beta) {
        return (0, x);
    }

    let mut optimized_value: (u32, u8) = (0, strategy.initial_value(position.player));
    let mut tt_best_card = 0u32;

    if let Some(x) = transposition_table_lookup(
        tt,
        position,
        &mut alpha,
        &mut beta,
        cnt,
        &mut tt_best_card,
    ) {
        return x;
    }

    let alphaorig = alpha;
    let betaorig = beta;

    let moves_word = position.get_reduced_moves(game_context);
    proof {
        lemma_set_algebra(position.trick_suit, position.player_cards, 0);
        crate::position::lemma_subset_trans(moves_word, position.legal(), position.player_cards);
        crate::cards::lemma_subset_bounds(moves_word, position.player_cards, 0);
    }
    let (mut moves, n) = get_sorted_by_value(moves_word);
    proof {
        lemma_sorted_within(moves@, n as int, moves_word, position.legal());
        if position.legal() != 0 && n == 0 {
            crate::cards::lemma_count_zero(moves_word);
        }
    }

    if tt_best_card > 0 {
        let mut i: usize = 0;
        while i < n
            invariant
                n <= 10,
                i <= n,
                forall|j: int| 0 <= j < n ==> is_card(#[trigger] moves@[j]) && subset(
                    moves@[j],
                    position.legal(),
                ),
                forall|j: int| n <= j < 10 ==> #[trigger] moves@[j] == 0,
            decreases n - i,
        {
            if moves[i] == tt_best_card {
                let first = moves[0];
                let found = moves[i];
                moves[0] = found;
                moves[i] = first;
                break;
            }
            i = i + 1;
        }
    }

    optimized_value.0 = moves[0];
    proof {
        if n > 0 {
            lemma_card_nonzero(moves@[0]);
        }
    }

    let mut i: usize = 0;
    while i < n
        invariant
            n <= 10,
            i <= n,
            position.wf(*game_context),
            tt.wf(),
            forall|j: int| 0 <= j < n ==> is_card(#[trigger] moves@[j]) && subset(
                moves@[j],
                position.legal(),
            ),
            n > 0 ==> move_ok(optimized_value.0, *position),
            n > 0 ==> optimized_value.0 != 0,
            n == 0 ==> optimized_value.0 == 0,
            optimized_value.1 <= bound,
            alpha <= bound,
            beta <= bound,
            bound >= 120,
        decreases n - i,
    {
        let mov = moves[i];
        proof {
            lemma_card_nonzero(mov);
            lemma_set_algebra(position.trick_suit, position.player_cards, 0);
            crate::position::lemma_subset_trans(mov, position.legal(), position.player_cards);
        }
        let child_position = position.make_move(mov, game_context);
        let child_value = search(game_context, &child_position, tt, cnt, alpha, beta);

        if strategy.evaluate(child_value.1, optimized_value.1, position.player) {
            optimized_value.0 = mov;
            optimized_value.1 = child_value.1;
        }

        if shrink_alpha_beta_window(
            position.player,
            &mut alpha,
            &mut beta,
            child_value.1,
            game_context.game_type,
        ) {
            cnt.inc_breaks();
            break;
        }
        i = i + 1;
    }

    proof {
        lemma_set_algebra(position.trick_suit, position.player_cards, 0);
        if optimized_value.0 != 0 {
            crate::position::lemma_subset_trans(
                optimized_value.0,
                position.legal(),
                position.player_cards,
            );
        }
    }
    transposition_table_write(tt, position, alphaorig, betaorig, optimized_value, cnt);

    optimized_value
}

/// The sorted moves are cards the player may play.
proof fn lemma_sorted_within(arr: Seq<u32>, n: int, moves_word: u32, legal: u32)
    requires
        0 <= n <= arr.len(),
        arr.subrange(0, n) == sorted_by_value(moves_word),
        subset(moves_word, legal),
    ensures
        forall|j: int| 0 <= j < n ==> is_card(#[trigger] arr[j]) && subset(arr[j], legal),
{
    lemma_sorted_members(moves_word);
    assert forall|j: int| 0 <= j < n implies is_card(#[trigger] arr[j]) && subset(arr[j], legal) by {
        assert(arr[j] == arr.subrange(0, n)[j]);
        assert(is_card(sorted_by_value(moves_word)[j]));
        crate::position::lemma_subset_trans(arr[j], moves_word, legal);
    }
}

/// The value at which the search stops early, if any.
fn apply_termination_criteria(
    context: &GameContext,
    position: &Position,
    alpha: u8,
    beta: u8,
) -> (r: Option<u8>)
    requires
        position.wf(*context),
    ensures
        r == termination_spec(*context, *position, alpha, beta),
{
    if position.player_cards == 0 {
        return Some(position.declarer_points);
    }
    match context.game_type {
        Game::Null => {
            if position.declarer_points > 0 {
                return Some(1);
            }
            None
        },
        _ => {
            if context.total_points() - position.team_points <= alpha {
                return Some(alpha);
            }
            if position.declarer_points >= beta {
                return Some(beta);
            }
            None
        },
    }
}

/// The declarer points that a stored remaining value stands for when the declarer has taken
/// `declarer_points`: their sum, kept between 0 and 120.
pub open spec fn value_of_entry(stored: i16, declarer_points: u8) -> u8 {
    if stored + declarer_points > 120 {
        120
    } else if stored + declarer_points < 0 {
        0
    } else {
        (stored + declarer_points) as u8
    }
}

/// The table after storing the result `value` of the search of `position` in the window
/// `alpha`..`beta`: the points still to come with the bound they are, unless an exact entry
/// would give way to a bound.
pub open spec fn table_after_write(
    data: Seq<TranspositionEntry>,
    position: Position,
    alpha: u8,
    beta: u8,
    value: (u32, u8),
) -> Seq<TranspositionEntry> {
    let stored = if value.1 > position.declarer_points {
        value.1 - position.declarer_points
    } else {
        0
    };
    let e = entry_for(position, stored as i16, flag_for(value.1 as int, alpha as int, beta as int), value.0);
    if replaces(data[position.hash as int], e) {
        data.update(position.hash as int, e)
    } else {
        data
    }
}

/// The declarer points for a stored remaining value in `position`.
fn entry_value(stored: i16, declarer_points: u8) -> (r: u8)
    ensures
        r == value_of_entry(stored, declarer_points),
{
    let v: i32 = stored as i32 + declarer_points as i32;
    if v > 120 {
        120
    } else if v < 0 {
        0
    } else {
        v as u8
    }
}

/// Looks the position up in the table. An exact value ends the search; a bound narrows the
/// window, and ends the search when the window closes. The best card of the entry is handed
/// out to be tried first.
fn transposition_table_lookup(
    tt: &TranspositionTable,
    position: &Position,
    alpha: &mut u8,
    beta: &mut u8,
    cnt: &mut Counters,
    tt_best_card: &mut u32,
) -> (r: Option<(u32, u8)>)
    requires
        tt.wf(),
        position.hash < TT_SIZE,
        position.player_cards == position.hand_of(position.player),
        position.trick_cards_count == 0 ==> position.trick_suit == 0,
        *old(tt_best_card) == 0,
    ensures
        *final(alpha) >= *old(alpha),
        *final(beta) <= *old(beta),
        *final(alpha) <= value_bound(*old(alpha), *old(beta)),
        r matches Some(x) ==> x.1 <= 120 && move_ok(x.0, *position),
        move_ok(*final(tt_best_card), *position),
        !tt_compatible(*position) || lookup(tt.data@, *position) is None ==> r is None && *final(alpha)
            == *old(alpha) && *final(beta) == *old(beta) && *final(tt_best_card) == 0,
        tt_compatible(*position) ==> (lookup(tt.data@, *position) matches Some(e) ==> {
            let v = value_of_entry(e.value, position.declarer_points);
            &&& *final(tt_best_card) == e.bestcard
            &&& e.flag == TranspositionFlag::Exact ==> r == Some((e.bestcard, v)) && *final(alpha)
                == *old(alpha) && *final(beta) == *old(beta)
            &&& e.flag == TranspositionFlag::Lower ==> *final(beta) == *old(beta) && *final(alpha)
                == (if v > *old(alpha) {
                v
            } else {
                *old(alpha)
            })
            &&& e.flag == TranspositionFlag::Upper ==> *final(alpha) == *old(alpha) && *final(beta)
                == (if v < *old(beta) {
                v
            } else {
                *old(beta)
            })
            &&& e.flag != TranspositionFlag::Exact ==> r == if *final(alpha) >= *final(beta) {
                Some((e.bestcard, v))
            } else {
                None
            }
        }),
{
    if !is_tt_compatible(position) {
        return None;
    }
    proof {
        lemma_set_algebra(position.player_cards, 0, 0);
    }
    match tt.read(position, cnt) {
        None => None,
        Some(tt_entry) => {
            assert(crate::tt::entry_ok(tt.data@[position.hash as int]));
            *tt_best_card = tt_entry.bestcard;
            let value = entry_value(tt_entry.value, position.declarer_points);
            let bestcard = tt_entry.bestcard;
            match tt_entry.flag {
                TranspositionFlag::Exact => {
                    cnt.inc_exactreads();
                    return Some((bestcard, value));
                },
                TranspositionFlag::Lower => {
                    if value > *alpha {
                        *alpha = value;
                    }
                },
                TranspositionFlag::Upper => {
                    if value < *beta {
                        *beta = value;
                    }
                },
            }
            if *alpha >= *beta {
                return Some((bestcard, value));
            }
            None
        },
    }
}

/// Stores the result of the search of a position without cards on the table.
fn transposition_table_write(
    tt: &mut TranspositionTable,
    position: &Position,
    alphaorig: u8,
    betaorig: u8,
    value: (u32, u8),
    cnt: &mut Counters,
)
    requires
        old(tt).wf(),
        position.hash < TT_SIZE,
        value.0 == 0 || (is_card(value.0) && subset(value.0, position.hand_of(position.player))),
    ensures
        final(tt).wf(),
        final(tt).data@ == if tt_compatible(*position) {
            table_after_write(old(tt).data@, *position, alphaorig, betaorig, value)
        } else {
            old(tt).data@
        },
        *final(cnt) == if tt_compatible(*position) {
            Counters { writes: crate::counters::next_count(old(cnt).writes), ..*old(cnt) }
        } else {
            *old(cnt)
        },
{
    if is_tt_compatible(position) {
        cnt.inc_writes();
        tt.write(position, position.get_hash(), alphaorig, betaorig, value);
    }
}

/// Whether the position is stored in the table.
fn is_tt_compatible(position: &Position) -> (r: bool)
    ensures
        r == tt_compatible(*position),
{
    !position.is_root_position && position.trick_cards_count == 0
}

/// Narrows the window by the value of a child: the declarer of a suit or grand game raises
/// `alpha`, a defender lowers `beta`; in a null game the other way round. Tells whether the
/// window closed.
fn shrink_alpha_beta_window(
    player: Player,
    alpha: &mut u8,
    beta: &mut u8,
    child_state_value: u8,
    game: Game,
) -> (r: bool)
    ensures
        ((game == Game::Null) == (player == Player::Declarer)) ==> {
            &&& *final(alpha) == *old(alpha)
            &&& *final(beta) == if child_state_value < *old(beta) {
                child_state_value
            } else {
                *old(beta)
            }
        },
        ((game == Game::Null) != (player == Player::Declarer)) ==> {
            &&& *final(beta) == *old(beta)
            &&& *final(alpha) == if child_state_value > *old(alpha) {
                child_state_value
            } else {
                *old(alpha)
            }
        },
        r == (*final(alpha) >= *final(beta)),
{
    match game {
        Game::Null => match player {
            Player::Declarer => {
                if child_state_value < *beta {
                    *beta = child_state_value;
                }
                if *beta <= *alpha {
                    return true;
                }
            },
            _ => {
                if child_state_value > *alpha {
                    *alpha = child_state_value;
                }
                if *alpha >= *beta {
                    return true;
                }
            },
        },
        _ => match player {
            Player::Declarer => {
                if child_state_value > *alpha {
                    *alpha = child_state_value;
                }
                if *alpha >= *beta {
                    return true;
                }
            },
            _ => {
                if child_state_value < *beta {
                    *beta = child_state_value;
                }
                if *beta <= *alpha {
                    return true;
                }
            },
        },
    }
    false
}

/// The score of a finished game from the declarer's view, `depth` plies after the search
/// started: a won suit or grand game scores more the sooner it is won, a lost one more the
/// later it is lost; a null game is won at the end, and lost the sooner the worse.
pub open spec fn terminal_score(game: Game, declarer_points: u8, depth: i16) -> int {
    if game == Game::Null {
        if declarer_points > 0 {
            -1000 + depth
        } else {
            1000
        }
    } else if declarer_points > 60 {
        10000 + (40 - depth) * 10
    } else {
        -10000 + depth * 10
    }
}

/// The game is over for the optimum search: no cards are left to play, or the declarer of a
/// null game has taken a trick.
pub open spec fn optimum_over(ctx: GameContext, pos: Position) -> bool {
    pos.player_cards == 0 || (ctx.game_type == Game::Null && pos.declarer_points > 0)
}

/// The value the optimum search gives a position `depth` plies after it started: the score of
/// a finished game, else the best score among the moves the search tries, the declarer taking
/// the highest and the defenders the lowest, each move scored by the same rule one ply deeper.
pub open spec fn optimum_score(ctx: GameContext, pos: Position, depth: int) -> int
    decreases card_count(pos.hands()), 1int, 0int,
{
    if optimum_over(ctx, pos) {
        terminal_score(ctx.game_type, pos.declarer_points, depth as i16)
    } else {
        best_of_moves(ctx, pos, depth, tried_moves(ctx, pos), 0)
    }
}

/// The moves the optimum search tries in a position, in the order it tries them.
#[verifier::opaque]
pub open spec fn tried_moves(ctx: GameContext, pos: Position) -> Seq<u32> {
    sorted_by_value(crate::position::reduced_moves(pos, ctx))
}

/// The player to move in a consistent position holds the card `c`.
#[verifier::opaque]
pub open spec fn playable(ctx: GameContext, pos: Position, c: u32) -> bool {
    pos.wf(ctx) && is_card(c) && subset(c, pos.player_cards)
}

/// The position after the card `c` is played.
#[verifier::opaque]
pub open spec fn next_position(ctx: GameContext, pos: Position, c: u32) -> Position {
    pos.after_move(c, ctx)
}

/// Playing a card leaves fewer cards in the hands.
pub proof fn lemma_next_smaller(ctx: GameContext, pos: Position, c: u32)
    requires
        playable(ctx, pos, c),
    ensures
        card_count(next_position(ctx, pos, c).hands()) < card_count(pos.hands()),
{
    reveal(playable);
    reveal(next_position);
    crate::position::lemma_after_move(pos, c, ctx);
}

/// The score of playing the card `c`: the value of the position after it, one ply deeper.
pub open spec fn move_score(ctx: GameContext, pos: Position, depth: int, c: u32) -> int
    decreases card_count(pos.hands()), 0int, 0int,
{
    if playable(ctx, pos, c) {
        proof {
            lemma_next_smaller(ctx, pos, c);
        }
        optimum_score(ctx, next_position(ctx, pos, c), depth + 1)
    } else {
        0
    }
}

/// The value of a position for the optimum search, kept folded where it is only compared.
#[verifier::opaque]
pub open spec fn position_value(ctx: GameContext, pos: Position, depth: int) -> int {
    optimum_score(ctx, pos, depth)
}

/// The score of playing the card `c`, kept folded where it is only compared.
#[verifier::opaque]
pub open spec fn child_value(ctx: GameContext, pos: Position, depth: int, c: u32) -> int {
    move_score(ctx, pos, depth, c)
}

/// The best score for the player to move among the moves `s[j..]`, or the worst possible
/// score where there is none.
pub open spec fn best_of_moves(ctx: GameContext, pos: Position, depth: int, s: Seq<u32>, j: int) -> int
    decreases card_count(pos.hands()), 0int, s.len() - j,
{
    if j < 0 || j >= s.len() {
        if pos.player == Player::Declarer {
            -32767
        } else {
            32766
        }
    } else {
        let rest = best_of_moves(ctx, pos, depth, s, j + 1);
        let v = move_score(ctx, pos, depth, s[j]);
        if pos.player == Player::Declarer {
            if v > rest {
                v
            } else {
                rest
            }
        } else if v < rest {
            v
        } else {
            rest
        }
    }
}

/// A score `r` found with the window `(a, b)` for a position worth `v`: exact inside the
/// window, an upper bound at or below it, a lower bound at or above it.
pub open spec fn window_ok(r: int, v: int, a: int, b: int) -> bool {
    &&& r <= a ==> v <= r
    &&& r >= b ==> v >= r
    &&& a < r < b ==> r == v
}

/// The best of the moves `s[j..]` is the worst possible score or the score of one of them,
/// and no move scores better.
proof fn lemma_best_of_moves(ctx: GameContext, pos: Position, depth: int, s: Seq<u32>, j: int)
    requires
        0 <= j <= s.len(),
    ensures
        pos.player == Player::Declarer ==> {
            let b = best_of_moves(ctx, pos, depth, s, j);
            &&& b >= -32767
            &&& forall|i: int| j <= i < s.len() ==> #[trigger] move_score(ctx, pos, depth, s[i]) <= b
            &&& b == -32767 || exists|i: int|
                j <= i < s.len() && #[trigger] move_score(ctx, pos, depth, s[i]) == b
        },
        pos.player != Player::Declarer ==> {
            let b = best_of_moves(ctx, pos, depth, s, j);
            &&& b <= 32766
            &&& forall|i: int| j <= i < s.len() ==> #[trigger] move_score(ctx, pos, depth, s[i]) >= b
            &&& b == 32766 || exists|i: int|
                j <= i < s.len() && #[trigger] move_score(ctx, pos, depth, s[i]) == b
        },
    decreases s.len() - j,
{
    if j < s.len() {
        lemma_best_of_moves(ctx, pos, depth, s, j + 1);
        let v = move_score(ctx, pos, depth, s[j]);
        assert(best_of_moves(ctx, pos, depth, s, j) == if pos.player == Player::Declarer {
            if v > best_of_moves(ctx, pos, depth, s, j + 1) { v } else { best_of_moves(ctx, pos, depth, s, j + 1) }
        } else if v < best_of_moves(ctx, pos, depth, s, j + 1) { v } else { best_of_moves(ctx, pos, depth, s, j + 1) });
    }
}

/// The value of a move is the value of the position it leads to.
proof fn lemma_child_value(ctx: GameContext, pos: Position, depth: int, c: u32, child: Position)
    requires
        pos.wf(ctx),
        is_card(c),
        subset(c, pos.player_cards),
        child == pos.after_move(c, ctx),
    ensures
        child_value(ctx, pos, depth, c) == position_value(ctx, child, depth + 1),
{
    reveal(child_value);
    reveal(position_value);
    reveal(playable);
    reveal(next_position);
}

/// The value of a position where the game goes on is the best value among the moves the
/// search tries, and it is the worst possible score or the value of one of them.
proof fn lemma_value_of_moves(ctx: GameContext, pos: Position, depth: int, s: Seq<u32>)
    requires
        !optimum_over(ctx, pos),
        s == tried_moves(ctx, pos),
    ensures
        pos.player == Player::Declarer ==> {
            let b = position_value(ctx, pos, depth);
            &&& b >= -32767
            &&& forall|i: int| 0 <= i < s.len() ==> #[trigger] child_value(ctx, pos, depth, s[i]) <= b
            &&& b == -32767 || exists|i: int|
                0 <= i < s.len() && #[trigger] child_value(ctx, pos, depth, s[i]) == b
        },
        pos.player != Player::Declarer ==> {
            let b = position_value(ctx, pos, depth);
            &&& b <= 32766
            &&& forall|i: int| 0 <= i < s.len() ==> #[trigger] child_value(ctx, pos, depth, s[i]) >= b
            &&& b == 32766 || exists|i: int|
                0 <= i < s.len() && #[trigger] child_value(ctx, pos, depth, s[i]) == b
        },
{
    reveal(position_value);
    reveal(child_value);
    lemma_best_of_moves(ctx, pos, depth, s, 0);
    let b = best_of_moves(ctx, pos, depth, s, 0);
    assert(position_value(ctx, pos, depth) == b);
    assert forall|i: int| 0 <= i < s.len() implies #[trigger] child_value(ctx, pos, depth, s[i])
        == move_score(ctx, pos, depth, s[i]) by {}
    if pos.player == Player::Declarer {
        if b != -32767 {
            let i0 = choose|i: int| 0 <= i < s.len() && #[trigger] move_score(ctx, pos, depth, s[i]) == b;
            assert(child_value(ctx, pos, depth, s[i0]) == b);
        }
    } else {
        if b != 32766 {
            let i0 = choose|i: int| 0 <= i < s.len() && #[trigger] move_score(ctx, pos, depth, s[i]) == b;
            assert(child_value(ctx, pos, depth, s[i0]) == b);
        }
    }
}

/// The declarer has won a finished game: a null game without a trick, another game with
/// more than 60 points.
pub open spec fn declarer_won_at_end(ctx: GameContext, pos: Position) -> bool {
    if ctx.game_type == Game::Null {
        pos.declarer_points == 0
    } else {
        pos.declarer_points > 60
    }
}

/// The declarer can force a win from `pos` when each player chooses among the moves the
/// optimum search tries: at the end of the game the declarer has won; the declarer needs one
/// winning move, and every move of a defender must leave a win.
pub open spec fn forced_win(ctx: GameContext, pos: Position) -> bool
    decreases card_count(pos.hands()), 1int, 0int,
{
    if optimum_over(ctx, pos) {
        declarer_won_at_end(ctx, pos)
    } else {
        wins_among(ctx, pos, tried_moves(ctx, pos), 0)
    }
}

/// The moves `s[j..]` give a forced win for the player to move's choice: some of them for the
/// declarer, all of them for a defender.
pub open spec fn wins_among(ctx: GameContext, pos: Position, s: Seq<u32>, j: int) -> bool
    decreases card_count(pos.hands()), 0int, s.len() - j,
{
    if j < 0 || j >= s.len() {
        pos.player != Player::Declarer
    } else {
        let w = move_wins(ctx, pos, s[j]);
        if pos.player == Player::Declarer {
            w || wins_among(ctx, pos, s, j + 1)
        } else {
            w && wins_among(ctx, pos, s, j + 1)
        }
    }
}

/// Playing the card `c` leaves the declarer a forced win.
pub open spec fn move_wins(ctx: GameContext, pos: Position, c: u32) -> bool
    decreases card_count(pos.hands()), 0int, 0int,
{
    if playable(ctx, pos, c) {
        proof {
            lemma_next_smaller(ctx, pos, c);
        }
        forced_win(ctx, next_position(ctx, pos, c))
    } else {
        false
    }
}

/// The optimum search's score of a position reached within a thousand plies is positive
/// exactly when the declarer can force a win there.
pub proof fn lemma_optimum_sign(ctx: GameContext, pos: Position, depth: int)
    requires
        0 <= depth,
        depth + card_count(pos.hands()) <= 1000,
    ensures
        (position_value(ctx, pos, depth) > 0) == forced_win(ctx, pos),
    decreases card_count(pos.hands()), 1int, 0int,
{
    reveal(position_value);
    if !optimum_over(ctx, pos) {
        lemma_sign_among(ctx, pos, depth, tried_moves(ctx, pos), 0);
    }
}

/// The best score among the moves `s[j..]` is positive exactly when they give a forced win.
proof fn lemma_sign_among(ctx: GameContext, pos: Position, depth: int, s: Seq<u32>, j: int)
    requires
        0 <= depth,
        depth + card_count(pos.hands()) <= 1000,
        0 <= j,
    ensures
        (best_of_moves(ctx, pos, depth, s, j) > 0) == wins_among(ctx, pos, s, j),
    decreases card_count(pos.hands()), 0int, s.len() - j,
{
    if j < s.len() {
        lemma_sign_among(ctx, pos, depth, s, j + 1);
        let c = s[j];
        if playable(ctx, pos, c) {
            lemma_next_smaller(ctx, pos, c);
            lemma_optimum_sign(ctx, next_position(ctx, pos, c), depth + 1);
            reveal(position_value);
            assert(move_score(ctx, pos, depth, c) == optimum_score(
                ctx,
                next_position(ctx, pos, c),
                depth + 1,
            ));
            assert(move_wins(ctx, pos, c) == forced_win(ctx, next_position(ctx, pos, c)));
        } else {
            assert(move_score(ctx, pos, depth, c) == 0);
            assert(!move_wins(ctx, pos, c));
        }
        assert((move_score(ctx, pos, depth, c) > 0) == move_wins(ctx, pos, c));
        let rest = best_of_moves(ctx, pos, depth, s, j + 1);
        let v = move_score(ctx, pos, depth, c);
        assert(best_of_moves(ctx, pos, depth, s, j) == if pos.player == Player::Declarer {
            if v > rest { v } else { rest }
        } else if v < rest { v } else { rest });
        assert(wins_among(ctx, pos, s, j) == if pos.player == Player::Declarer {
            move_wins(ctx, pos, c) || wins_among(ctx, pos, s, j + 1)
        } else {
            move_wins(ctx, pos, c) && wins_among(ctx, pos, s, j + 1)
        });
    }
}

/// The score of a finished game.
fn evaluate_terminal_node(context: &GameContext, position: &Position, depth: i16) -> (r: i16)
    requires
        -2000 <= depth <= 3000,
    ensures
        r == terminal_score(context.game_type, position.declarer_points, depth),
{
    let declarer_points = position.declarer_points as i16;
    let max_depth: i16 = 40;
    match context.game_type {
        Game::Null => {
            let lost = declarer_points > 0;
            if !lost {
                1000
            } else {
                -1000 + depth
            }
        },
        _ => {
            let win = declarer_points > 60;
            if win {
                10000 + (max_depth - depth) * 10
            } else {
                -10000 + depth * 10
            }
        },
    }
}

/// The best move and score from the declarer's view when wins count more the sooner and
/// losses the later they come; `depth` counts the plies played since the search started.
///
/// The move is none or a card the player may play; a finished game, or a null game the
/// declarer lost by taking a trick, scores its terminal score. With a window `alpha < beta`
/// the score is the position's value `optimum_score` where that lies inside the window, and a
/// bound on it on the side of the window where it lies outside; with a window around zero the
/// score is positive exactly when the declarer can force a win.
#[verifier::rlimit(100)]
pub fn search_optimum(
    game_context: &GameContext,
    position: &Position,
    cnt: &mut Counters,
    alpha: i16,
    beta: i16,
    depth: i16,
) -> (r: (u32, i16))
    requires
        position.wf(*game_context),
        -2000 <= depth,
        depth + card_count(position.hands()) <= 3000,
    ensures
        move_ok(r.0, *position),
        (position.player_cards == 0 || (game_context.game_type == Game::Null
            && position.declarer_points > 0)) ==> r == (0u32, terminal_score(
            game_context.game_type,
            position.declarer_points,
            depth,
        ) as i16),
        -30500 <= r.1 <= 30500,
        alpha < beta ==> window_ok(
            r.1 as int,
            position_value(*game_context, *position, depth as int),
            alpha as int,
            beta as int,
        ),
        alpha <= 0 < beta && 0 <= depth && depth + card_count(position.hands()) <= 1000 ==> (r.1
            > 0) == forced_win(*game_context, *position),
        !optimum_over(*game_context, *position) ==> is_card(r.0) && subset(
            r.0,
            crate::position::reduced_moves(*position, *game_context),
        ),
        !optimum_over(*game_context, *position) && alpha < r.1 < beta ==> child_value(
            *game_context,
            *position,
            depth as int,
            r.0,
        ) == r.1,
    decreases card_count(position.hands()),
{
    proof {
        if 0 <= depth && depth + card_count(position.hands()) <= 1000 {
            lemma_optimum_sign(*game_context, *position, depth as int);
        }
    }
    let ghost a0 = alpha;
    let ghost b0 = beta;
    let mut alpha = alpha;
    let mut beta = beta;
    cnt.inc_iters();

    proof {
        if optimum_over(*game_context, *position) {
            reveal(position_value);
            assert(position_value(*game_context, *position, depth as int) == terminal_score(
                game_context.game_type,
                position.declarer_points,
                depth,
            ));
        }
    }
    if position.player_cards == 0 {
        return (0, evaluate_terminal_node(game_context, position, depth));
    }
    if game_context.game_type == Game::Null && position.declarer_points > 0 {
        return (0, evaluate_terminal_node(game_context, position, depth));
    }

    let is_declarer = position.player == Player::Declarer;

    let moves_word = position.get_reduced_moves(game_context);
    proof {
        lemma_set_algebra(position.trick_suit, position.player_cards, 0);
        crate::position::lemma_subset_trans(moves_word, position.legal(), position.player_cards);
        crate::cards::lemma_subset_bounds(moves_word, position.player_cards, 0);
    }
    let (moves, n) = get_sorted_by_value(moves_word);
    proof {
        lemma_sorted_within(moves@, n as int, moves_word, position.legal());
        lemma_sorted_members(moves_word);
        assert forall|j: int| 0 <= j < n implies subset(#[trigger] moves@[j], moves_word) by {
            assert(moves@[j] == moves@.subrange(0, n as int)[j]);
        }
        if n == 0 {
            crate::cards::lemma_count_zero(moves_word);
        }
    }
    let ghost ctx = *game_context;
    let ghost pos = *position;
    let ghost dep = depth as int;

    let mut best_move = moves[0];
    let mut best_score: i16 = if is_declarer {
        i16::MIN + 1
    } else {
        i16::MAX - 1
    };
    let ghost mut cut = false;

    let mut i: usize = 0;
    while i < n
        invariant_except_break
            !cut,
        invariant
            n <= 10,
            1 <= n,
            i <= n,
            position.wf(*game_context),
            ctx == *game_context,
            pos == *position,
            dep == depth as int,
            -2000 <= depth,
            depth + card_count(position.hands()) <= 3000,
            forall|j: int| 0 <= j < n ==> is_card(#[trigger] moves@[j]) && subset(
                moves@[j],
                position.legal(),
            ),
            forall|j: int| n <= j < 10 ==> #[trigger] moves@[j] == 0,
            move_ok(best_move, *position),
            forall|j: int| 0 <= j < n ==> subset(#[trigger] moves@[j], moves_word),
            moves_word == crate::position::reduced_moves(*position, *game_context),
            is_card(best_move) && subset(best_move, moves_word),
            a0 < b0 && !cut && is_declarer && i > 0 && best_score > a0 ==> child_value(
                ctx,
                pos,
                dep,
                best_move,
            ) == best_score,
            a0 < b0 && !cut && !is_declarer && i > 0 && best_score < b0 ==> child_value(
                ctx,
                pos,
                dep,
                best_move,
            ) == best_score,
            is_declarer == (position.player == Player::Declarer),
            cut ==> i < n,
            !cut && i == 0 ==> best_score == (if is_declarer {
                -32767i16
            } else {
                32766i16
            }),
            (i > 0 || cut) ==> -30500 <= best_score <= 30500,
            is_declarer ==> beta == b0 && (alpha == a0 || alpha == best_score) && alpha >= a0,
            !is_declarer ==> alpha == a0 && (beta == b0 || beta == best_score) && beta <= b0,
            is_declarer && (i > 0 || cut) ==> alpha >= best_score,
            !is_declarer && (i > 0 || cut) ==> beta <= best_score,
            a0 < b0 && !cut ==> alpha < beta,
            a0 < b0 && !cut && is_declarer ==> forall|j: int|
                0 <= j < i ==> #[trigger] child_value(ctx, pos, dep, moves@[j]) <= best_score,
            a0 < b0 && !cut && is_declarer && i > 0 && best_score > a0 ==> exists|j: int|
                0 <= j < i && #[trigger] child_value(ctx, pos, dep, moves@[j]) == best_score,
            a0 < b0 && cut && is_declarer ==> best_score >= b0 && exists|j: int|
                0 <= j < n && #[trigger] child_value(ctx, pos, dep, moves@[j]) >= best_score,
            a0 < b0 && !cut && !is_declarer ==> forall|j: int|
                0 <= j < i ==> #[trigger] child_value(ctx, pos, dep, moves@[j]) >= best_score,
            a0 < b0 && !cut && !is_declarer && i > 0 && best_score < b0 ==> exists|j: int|
                0 <= j < i && #[trigger] child_value(ctx, pos, dep, moves@[j]) == best_score,
            a0 < b0 && cut && !is_declarer ==> best_score <= a0 && exists|j: int|
                0 <= j < n && #[trigger] child_value(ctx, pos, dep, moves@[j]) <= best_score,
        ensures
            cut || i >= n,
        decreases n - i,
    {
        let mov = moves[i];
        proof {
            lemma_card_nonzero(mov);
            lemma_set_algebra(position.trick_suit, position.player_cards, 0);
            crate::position::lemma_subset_trans(mov, position.legal(), position.player_cards);
        }
        let child_position = position.make_move(mov, game_context);
        let ghost old_best = best_score;
        let ghost old_alpha = alpha;
        let ghost old_beta = beta;
        let (_, child_score) = search_optimum(
            game_context,
            &child_position,
            cnt,
            alpha,
            beta,
            depth + 1,
        );
        let ghost vi = child_value(ctx, pos, dep, mov);
        proof {
            lemma_child_value(ctx, pos, dep, mov, child_position);
            assert(mov == moves@[i as int]);
        }

        if is_declarer {
            if child_score > best_score {
                best_score = child_score;
                best_move = mov;
            }
            if best_score > alpha {
                alpha = best_score;
            }
            if alpha >= beta {
                proof {
                    cut = true;
                    if a0 < b0 {
                        assert(child_score > old_best);
                        assert(vi >= best_score);
                    }
                }
                break;
            }
            proof {
                if a0 < b0 {
                    assert(child_score < beta);
                    assert(vi <= best_score);
                    if best_score > a0 {
                        if child_score > old_best {
                            assert(vi == best_score);
                        }
                    }
                }
            }
        } else {
            if child_score < best_score {
                best_score = child_score;
                best_move = mov;
            }
            if best_score < beta {
                beta = best_score;
            }
            if beta <= alpha {
                proof {
                    cut = true;
                    if a0 < b0 {
                        assert(child_score < old_best);
                        assert(vi <= best_score);
                    }
                }
                break;
            }
            proof {
                if a0 < b0 {
                    assert(child_score > alpha);
                    assert(vi >= best_score);
                    if best_score < b0 {
                        if child_score < old_best {
                            assert(vi == best_score);
                        }
                    }
                }
            }
        }
        i = i + 1;
    }
    proof {
        let sw = sorted_by_value(moves_word);
        assert(moves@.subrange(0, n as int) == sw);
        assert(sw == tried_moves(ctx, pos)) by {
            reveal(tried_moves);
        }
        assert forall|j: int| 0 <= j < n implies #[trigger] sw[j] == moves@[j] by {
            assert(sw[j] == moves@.subrange(0, n as int)[j]);
        }
        lemma_value_of_moves(ctx, pos, dep, sw);
        let v = position_value(ctx, pos, dep);
        if a0 < b0 {
            if is_declarer {
                if cut {
                    let j0 = choose|j: int|
                        0 <= j < n && #[trigger] child_value(ctx, pos, dep, moves@[j]) >= best_score;
                    assert(child_value(ctx, pos, dep, sw[j0]) <= v);
                } else {
                    assert(i == n);
                    if v != -32767 {
                        let j0 = choose|j: int|
                            0 <= j < sw.len() && #[trigger] child_value(ctx, pos, dep, sw[j]) == v;
                        assert(child_value(ctx, pos, dep, moves@[j0]) <= best_score);
                    }
                    if best_score > a0 {
                        let j1 = choose|j: int|
                            0 <= j < i && #[trigger] child_value(ctx, pos, dep, moves@[j]) == best_score;
                        assert(child_value(ctx, pos, dep, sw[j1]) <= v);
                    }
                }
            } else {
                if cut {
                    let j0 = choose|j: int|
                        0 <= j < n && #[trigger] child_value(ctx, pos, dep, moves@[j]) <= best_score;
                    assert(child_value(ctx, pos, dep, sw[j0]) >= v);
                } else {
                    assert(i == n);
                    if v != 32766 {
                        let j0 = choose|j: int|
                            0 <= j < sw.len() && #[trigger] child_value(ctx, pos, dep, sw[j]) == v;
                        assert(child_value(ctx, pos, dep, moves@[j0]) >= best_score);
                    }
                    if best_score < b0 {
                        let j1 = choose|j: int|
                            0 <= j < i && #[trigger] child_value(ctx, pos, dep, moves@[j]) == best_score;
                        assert(child_value(ctx, pos, dep, sw[j1]) >= v);
                    }
                }
            }
        }
    }
    (best_move, best_score)
}

/// A single card is not the empty set.
proof fn lemma_card_nonzero(c: u32)
    requires
        is_card(c),
    ensures
        c != 0,
{
    let k = crate::cards::lemma_card_index(c);
    crate::cards::lemma_has_bit(k, k);
    crate::cards::lemma_has_consts(k);
}

} // verus!
