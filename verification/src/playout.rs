//! Playing a game to its end with the solver choosing every card, recording each step.
use vstd::prelude::*;
use std::time::{Duration, Instant};
use crate::cards::{card_count, count_cards, is_card, subset};
use crate::counters::Counters;
use crate::defs::Player;
use crate::engine::SkatEngine;
use crate::position::Position;
use crate::search::move_ok;
use crate::solver::{all_cards_ok, solve_all_cards_from_position, SolveAllCardsRet};

verus! {

#[verifier::external_type_specification]
#[verifier::external_body]
pub struct ExInstant(Instant);

/// The current time: `std::time::Instant::now`. Nothing is claimed of it.
#[verifier::external_body]
fn clock_now() -> Instant {
    Instant::now()
}

/// The time passed since `start`: `std::time::Instant::elapsed`. Nothing is claimed of it.
#[verifier::external_body]
fn clock_elapsed(start: &Instant) -> Duration {
    start.elapsed()
}

/// Whole milliseconds of a duration: `std::time::Duration::as_millis`. Nothing is claimed of
/// it.
#[verifier::external_body]
fn duration_millis(d: &Duration) -> u128 {
    d.as_millis()
}

/// One step of a playout: the hands before it, the player, the card the solver chose, the
/// points before it, the search statistics and the time the search took.
#[derive(Default)]
pub struct PlayoutLine {
    pub declarer_cards: u32,
    pub left_cards: u32,
    pub right_cards: u32,
    pub player: Player,
    pub card: u32,
    pub declarer_points: u8,
    pub team_points: u8,
    pub cnt_iters: usize,
    pub cnt_breaks: usize,
    pub time: u128,
}

/// One step of a playout with the values of all cards: the player, the card chosen, the
/// declarer's points after it, and the value of every card the player could play.
#[derive(Default)]
pub struct PlayoutAllCardsRetLine {
    pub player: Player,
    pub best_card: u32,
    pub declarer_points: u8,
    pub all_cards: SolveAllCardsRet,
}

/// The cards in the hands recorded by a playout step.
pub open spec fn line_hands(l: PlayoutLine) -> u32 {
    l.declarer_cards | l.left_cards | l.right_cards
}

/// The number of cards in the three hands at the start of the game.
fn cards_in_play(engine: &SkatEngine) -> (r: usize)
    requires
        engine.wf(),
    ensures
        r == card_count(engine.context.declarer_cards) + card_count(engine.context.left_cards)
            + card_count(engine.context.right_cards),
        r <= 30,
{
    let n = count_cards(engine.context.declarer_cards) + count_cards(engine.context.left_cards)
        + count_cards(engine.context.right_cards);
    n as usize
}

/// Plays the game from its start, the solver choosing each card with the window 0..120. Each
/// step records the hands before the card, and the next step's hands lack that card. When the
/// search names no card, that step is the last.
/// The first line of a playout records the start: its player and points, and a card when the
/// player to move has one.
pub open spec fn playout_start_ok(lines: Seq<PlayoutLine>, init: Position) -> bool {
    lines.len() > 0 ==> {
        &&& lines[0].player == init.player
        &&& lines[0].declarer_points == init.declarer_points
        &&& lines[0].team_points == init.team_points
        &&& init.player_cards != 0 ==> lines[0].card != 0
    }
}

pub fn playout(engine: &mut SkatEngine) -> (r: Vec<PlayoutLine>)
    requires
        old(engine).wf(),
    ensures
        final(engine).wf(),
        final(engine).context == old(engine).context,
        r@.len() <= card_count(old(engine).context.declarer_cards) + card_count(
            old(engine).context.left_cards,
        ) + card_count(old(engine).context.right_cards),
        r@.len() > 0 ==> line_hands(r@[0]) == Position::initial_spec(old(engine).context).hands(),
        forall|k: int|
            0 <= k < r@.len() ==> ((#[trigger] r@[k]).card == 0 ==> k == r@.len() - 1) && (
            r@[k].card != 0 ==> is_card(r@[k].card) && subset(r@[k].card, line_hands(r@[k]))),
        forall|k: int|
            0 <= k < r@.len() - 1 ==> line_hands(#[trigger] r@[k + 1]) == line_hands(r@[k])
                & !r@[k].card,
        playout_start_ok(r@, Position::initial_spec(old(engine).context)),
        ({
            let n = card_count(old(engine).context.declarer_cards) + card_count(
                old(engine).context.left_cards,
            ) + card_count(old(engine).context.right_cards);
            &&& n > 0 ==> r@.len() > 0
            &&& r@.len() < n ==> r@.len() > 0 && r@[r@.len() - 1].card == 0
        }),
{
    let mut ret: Vec<PlayoutLine> = Vec::new();
    let mut i: usize = 0;
    let n = cards_in_play(engine);
    let mut position = engine.create_initial_position();
    let ghost ctx = engine.context;
    proof {
        crate::cards::lemma_empty_set();
        assert((0u32 & !0u32) == 0u32) by (bit_vector);
    }
    while i < n
        invariant_except_break
            ret@.len() == i,
            i == 0 ==> position == Position::initial_spec(ctx),
            playout_start_ok(ret@, Position::initial_spec(ctx)),
            i > 0 ==> position.hands() == line_hands(ret@[i - 1]) & !ret@[i - 1].card,
            ret@.len() > 0 ==> line_hands(ret@[0]) == Position::initial_spec(ctx).hands(),
            forall|k: int|
                0 <= k < ret@.len() ==> ((#[trigger] ret@[k]).card != 0 && is_card(ret@[k].card)
                    && subset(ret@[k].card, line_hands(ret@[k]))),
            forall|k: int|
                0 <= k < ret@.len() - 1 ==> line_hands(#[trigger] ret@[k + 1]) == line_hands(
                    ret@[k],
                ) & !ret@[k].card,
        invariant
            engine.wf(),
            engine.context == ctx,
            ctx == old(engine).context,
            position.wf(ctx),
            i <= n,
            Position::initial_spec(ctx).declarer_points == 0,
            Position::initial_spec(ctx).team_points == 0,
        ensures
            ret@.len() <= n,
            ret@.len() > 0 ==> line_hands(ret@[0]) == Position::initial_spec(ctx).hands(),
            playout_start_ok(ret@, Position::initial_spec(ctx)),
            n > 0 ==> ret@.len() > 0,
            ret@.len() < n ==> ret@.len() > 0 && ret@[ret@.len() - 1].card == 0,
            forall|k: int|
                0 <= k < ret@.len() ==> ((#[trigger] ret@[k]).card == 0 ==> k == ret@.len() - 1)
                    && (ret@[k].card != 0 ==> is_card(ret@[k].card) && subset(
                    ret@[k].card,
                    line_hands(ret@[k]),
                )),
            forall|k: int|
                0 <= k < ret@.len() - 1 ==> line_hands(#[trigger] ret@[k + 1]) == line_hands(
                    ret@[k],
                ) & !ret@[k].card,
        decreases n - i,
    {
        let mut cnt: Counters = Counters::new();
        let now = clock_now();
        let (played_card, _) = engine.search(&position, &mut cnt, 0, 120);
        let time = duration_millis(&clock_elapsed(&now));
        let row = PlayoutLine {
            declarer_cards: position.declarer_cards,
            left_cards: position.left_cards,
            right_cards: position.right_cards,
            player: position.player,
            card: played_card,
            declarer_points: position.declarer_points,
            team_points: position.team_points,
            cnt_iters: #[verifier::truncate] (cnt.iters as usize),
            cnt_breaks: #[verifier::truncate] (cnt.breaks as usize),
            time,
        };
        if played_card == 0 {
            ret.push(row);
            break;
        }
        proof {
            crate::cards::lemma_set_algebra(position.trick_suit, position.player_cards, 0);
            crate::position::lemma_subset_trans(played_card, position.legal(), position.player_cards);
            assert(subset(position.player_cards, position.hands())) by {
                lemma_hand_in_hands(position, ctx);
            }
            crate::position::lemma_subset_trans(played_card, position.player_cards, position.hands());
        }
        position = position.make_move(played_card, &engine.context);
        ret.push(row);
        i += 1;
    }
    ret
}

/// The hand of the player to move lies in the hands.
pub proof fn lemma_hand_in_hands(p: Position, ctx: crate::context::GameContext)
    requires
        p.wf(ctx),
    ensures
        subset(p.player_cards, p.hands()),
{
    crate::cards::lemma_set_algebra(p.declarer_cards, p.left_cards, p.right_cards);
    crate::cards::lemma_set_algebra(p.declarer_cards | p.left_cards, p.right_cards, 0);
    crate::cards::lemma_set_algebra(p.declarer_cards, p.left_cards, 0);
    crate::cards::lemma_set_algebra(p.left_cards, p.declarer_cards, 0);
    crate::position::lemma_subset_trans(
        p.declarer_cards,
        p.declarer_cards | p.left_cards,
        p.hands(),
    );
    crate::position::lemma_subset_trans(p.left_cards, p.declarer_cards | p.left_cards, p.hands());
}

/// The first line of a playout of all cards records the start: its player, a best card when
/// the player to move has one, and the values of every card the player may play.
pub open spec fn all_cards_start_ok(
    lines: Seq<PlayoutAllCardsRetLine>,
    init: Position,
    ctx: crate::context::GameContext,
) -> bool {
    lines.len() > 0 ==> {
        &&& lines[0].player == init.player
        &&& init.player_cards != 0 ==> lines[0].best_card != 0
        &&& crate::solver::all_cards_ok(lines[0].all_cards.results@, init, ctx, 0, 120)
    }
}

/// Plays the game from its start like `playout`, recording at each step the value of every
/// card the player could play. When the search names no card, that step is the last.
pub fn playout_all_cards(engine: &mut SkatEngine) -> (r: Vec<PlayoutAllCardsRetLine>)
    requires
        old(engine).wf(),
    ensures
        final(engine).wf(),
        final(engine).context == old(engine).context,
        r@.len() <= card_count(old(engine).context.declarer_cards) + card_count(
            old(engine).context.left_cards,
        ) + card_count(old(engine).context.right_cards),
        forall|k: int|
            0 <= k < r@.len() ==> ((#[trigger] r@[k]).best_card == 0 ==> k == r@.len() - 1) && (
            r@[k].best_card != 0 ==> is_card(r@[k].best_card)),
        all_cards_start_ok(r@, Position::initial_spec(old(engine).context), old(engine).context),
        ({
            let n = card_count(old(engine).context.declarer_cards) + card_count(
                old(engine).context.left_cards,
            ) + card_count(old(engine).context.right_cards);
            &&& n > 0 ==> r@.len() > 0
            &&& r@.len() < n ==> r@.len() > 0 && r@[r@.len() - 1].best_card == 0
        }),
{
    let mut ret: Vec<PlayoutAllCardsRetLine> = Vec::new();
    let mut i: usize = 0;
    let n = cards_in_play(engine);
    let mut position = engine.create_initial_position();
    let ghost ctx = engine.context;
    proof {
        crate::cards::lemma_empty_set();
        assert((0u32 & !0u32) == 0u32) by (bit_vector);
    }
    while i < n
        invariant_except_break
            ret@.len() == i,
            i == 0 ==> position == Position::initial_spec(ctx),
            all_cards_start_ok(ret@, Position::initial_spec(ctx), ctx),
            forall|k: int|
                0 <= k < ret@.len() ==> ((#[trigger] ret@[k]).best_card != 0 && is_card(
                    ret@[k].best_card,
                )),
        invariant
            engine.wf(),
            engine.context == ctx,
            ctx == old(engine).context,
            position.wf(ctx),
            i <= n,
            Position::initial_spec(ctx).declarer_points == 0,
            Position::initial_spec(ctx).team_points == 0,
        ensures
            ret@.len() <= n,
            forall|k: int|
                0 <= k < ret@.len() ==> ((#[trigger] ret@[k]).best_card == 0 ==> k == ret@.len()
                    - 1) && (ret@[k].best_card != 0 ==> is_card(ret@[k].best_card)),
            all_cards_start_ok(ret@, Position::initial_spec(ctx), ctx),
            n > 0 ==> ret@.len() > 0,
            ret@.len() < n ==> ret@.len() > 0 && ret@[ret@.len() - 1].best_card == 0,
        decreases n - i,
    {
        let mut cnt: Counters = Counters::new();
        let (best_card, _) = engine.search(&position, &mut cnt, 0, 120);
        let resall = solve_all_cards_from_position(engine, &position, 0, 120);
        let ghost first_ok = i == 0 ==> (Position::initial_spec(ctx).player_cards != 0
            ==> best_card != 0) && crate::solver::all_cards_ok(
            resall.results@,
            Position::initial_spec(ctx),
            ctx,
            0,
            120,
        );
        assert(first_ok);
        if best_card == 0 {
            ret.push(
                PlayoutAllCardsRetLine {
                    player: position.player,
                    best_card,
                    declarer_points: position.declarer_points,
                    all_cards: resall,
                },
            );
            break;
        }
        let player = position.player;
        proof {
            crate::cards::lemma_set_algebra(position.trick_suit, position.player_cards, 0);
            crate::position::lemma_subset_trans(best_card, position.legal(), position.player_cards);
        }
        position = position.make_move(best_card, &engine.context);
        ret.push(
            PlayoutAllCardsRetLine {
                player,
                best_card,
                declarer_points: position.declarer_points,
                all_cards: resall,
            },
        );
        i += 1;
    }
    ret
}

} // verus!
