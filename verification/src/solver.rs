//! Solving a game: whether the declarer wins, the best value, the value of every card, and
//! the best card under the fast-win / slow-loss preference.
use vstd::prelude::*;
use crate::cards::{card_count, is_card, lemma_set_algebra, points, subset};
use crate::counters::Counters;
use crate::defs::{Game, Player};
use crate::engine::SkatEngine;
use crate::position::Position;
use crate::rules::{get_sorted_by_value, lemma_sorted_members, sorted_by_value};
use crate::search::{move_ok, search_optimum, value_bound};
use crate::augen::Augen;

verus! {

/// The best card, whether the declarer wins, the value the search found for the start of the
/// game in the window it used, and the search statistics.
pub struct SolveWinRet {
    pub best_card: u32,
    pub declarer_wins: bool,
    pub search_value: u8,
    pub counters: Counters,
}

/// The best card, the value of the game, the value of the play alone (before any points of
/// the skat are added), and the search statistics.
pub struct SolveRet {
    pub best_card: u32,
    pub best_value: u8,
    pub play_value: u8,
    pub counters: Counters,
}

/// For each card the player may play: the card, the best reply, and the value.
pub struct SolveAllCardsRet {
    pub results: Vec<(u32, u32, u8)>,
}

impl Default for SolveAllCardsRet {
    fn default() -> (r: Self)
        ensures
            r.results@ == Seq::<(u32, u32, u8)>::empty(),
    {
        SolveAllCardsRet { results: Vec::new() }
    }
}

/// Which cards the optimum search chooses among: those of the best value, or those that win.
#[derive(Debug, Clone, Copy, PartialEq, Eq, Structural)]
pub enum OptimumMode {
    BestValue,
    AllWinning,
}

/// The points the declarer still needs from the play to reach the threshold with the points
/// taken before it.
pub open spec fn points_needed(ctx: crate::context::GameContext) -> u8 {
    if ctx.threshold_upper > ctx.declarer_start_points {
        (ctx.threshold_upper - ctx.declarer_start_points) as u8
    } else {
        0
    }
}

/// Whether the declarer wins: the best card and the verdict. In a suit game or grand the
/// search asks whether the declarer takes at least the points still needed (see
/// `points_needed`); one who needs none has won. In a null game it asks whether the declarer
/// takes no trick.
pub fn solve_win(engine: &mut SkatEngine) -> (r: SolveWinRet)
    requires
        old(engine).wf(),
    ensures
        final(engine).wf(),
        final(engine).context == old(engine).context,
        move_ok(r.best_card, Position::initial_spec(old(engine).context)),
        old(engine).context.game_type != Game::Null && points_needed(old(engine).context) == 0
            ==> r.declarer_wins,
        old(engine).context.game_type == Game::Null ==> (r.declarer_wins <==> r.search_value == 0),
        old(engine).context.game_type != Game::Null ==> (r.declarer_wins <==> (points_needed(
            old(engine).context,
        ) == 0 || r.search_value >= points_needed(old(engine).context))),
{
    let mut cnt = Counters::new();
    let start = engine.context.declarer_start_points;
    let target = engine.context.points_to_win();
    let needed: u8 = if target > start {
        target - start
    } else {
        0
    };
    let is_null = engine.context.game_type() == Game::Null;
    let mut alpha: u8 = 0;
    let mut beta: u8 = 1;
    if !is_null && needed > 0 {
        alpha = needed - 1;
        beta = needed;
    }
    let position = engine.create_initial_position();
    let (best_card, value) = engine.search(&position, &mut cnt, alpha, beta);
    let mut declarer_wins = value > alpha;
    if is_null {
        declarer_wins = !declarer_wins;
    } else if needed == 0 {
        declarer_wins = true;
    }
    SolveWinRet { best_card, declarer_wins, search_value: value, counters: cnt }
}

/// The value of the game found by searching windows of `width` points from `alpha` upward
/// until a search ends below its window's top or `beta` is reached.
pub fn solve_double_dummy(engine: &mut SkatEngine, alpha: u8, beta: u8, width: u8) -> (r: SolveRet)
    requires
        old(engine).wf(),
        width > 0,
        beta + width <= 255,
    ensures
        final(engine).wf(),
        final(engine).context == old(engine).context,
        move_ok(r.best_card, Position::initial_spec(old(engine).context)),
        r.best_value <= value_bound(alpha, beta),
        alpha >= beta ==> r.best_card == 0 && r.best_value == 0,
        alpha < beta <= 120 && Position::initial_spec(old(engine).context).player_cards != 0
            ==> r.best_card != 0,
        r.play_value == r.best_value,
{
    let mut cnt = Counters::new();
    let mut result = (0u32, 0u8);
    let mut current_alpha = alpha;
    let ghost init = Position::initial_spec(old(engine).context);
    let ghost mut ran = false;
    proof {
        lemma_set_algebra(0, 0, 0);
        crate::cards::lemma_empty_set();
        assert((0u32 & !0u32) == 0u32) by (bit_vector);
    }
    while current_alpha < beta
        invariant
            engine.wf(),
            engine.context == old(engine).context,
            init == Position::initial_spec(old(engine).context),
            width > 0,
            beta + width <= 255,
            alpha <= current_alpha || current_alpha == beta,
            move_ok(result.0, Position::initial_spec(old(engine).context)),
            result.1 <= value_bound(alpha, beta),
            alpha >= beta ==> result == (0u32, 0u8),
            !ran ==> current_alpha == alpha,
            ran && beta <= 120 && init.player_cards != 0 ==> result.0 != 0,
            init.declarer_points == 0 && init.team_points == 0 && init.is_root_position,
        ensures
            alpha < beta ==> ran,
        decreases beta - current_alpha,
    {
        let current_beta = if current_alpha + width < beta {
            current_alpha + width
        } else {
            beta
        };
        let position = engine.create_initial_position();
        result = engine.search(&position, &mut cnt, current_alpha, current_beta);
        proof {
            ran = true;
        }
        if result.1 < current_beta {
            break;
        }
        current_alpha = current_beta;
    }
    SolveRet { best_card: result.0, best_value: result.1, play_value: result.1, counters: cnt }
}

/// The value of the game: the points the declarer takes with best play of all.
pub fn solve(engine: &mut SkatEngine) -> (r: SolveRet)
    requires
        old(engine).wf(),
    ensures
        final(engine).wf(),
        final(engine).context == old(engine).context,
        move_ok(r.best_card, Position::initial_spec(old(engine).context)),
        r.best_value <= 120,
        Position::initial_spec(old(engine).context).player_cards != 0 ==> r.best_card != 0,
        r.play_value == r.best_value,
{
    solve_double_dummy(engine, 0, 120, 1)
}

/// The value of each card the player to move at the start may play.
pub fn solve_all_cards(engine: &mut SkatEngine, alpha: u8, beta: u8) -> (r: SolveAllCardsRet)
    requires
        old(engine).wf(),
    ensures
        final(engine).wf(),
        final(engine).context == old(engine).context,
        all_cards_ok(
            r.results@,
            Position::initial_spec(old(engine).context),
            old(engine).context,
            alpha,
            beta,
        ),
{
    let position = engine.create_initial_position();
    solve_all_cards_from_position(engine, &position, alpha, beta)
}

/// The results hold, in the order of `get_sorted_by_value`, each card the player may play,
/// with a best reply from the position after it and a value within the window's bound.
pub open spec fn all_cards_ok(
    results: Seq<(u32, u32, u8)>,
    position: Position,
    ctx: crate::context::GameContext,
    alpha: u8,
    beta: u8,
) -> bool {
    &&& results.len() == card_count(position.legal())
    &&& forall|i: int|
        0 <= i < results.len() ==> {
            &&& (#[trigger] results[i]).0 == sorted_by_value(position.legal())[i]
            &&& is_card(results[i].0)
            &&& subset(results[i].0, position.legal())
            &&& move_ok(results[i].1, position.after_move(results[i].0, ctx))
            &&& results[i].2 <= value_bound(alpha, beta)
        }
}

/// The value of each card the player to move in `position` may play, with the best reply.
pub fn solve_all_cards_from_position(
    engine: &mut SkatEngine,
    position: &Position,
    alpha: u8,
    beta: u8,
) -> (r: SolveAllCardsRet)
    requires
        old(engine).wf(),
        position.wf(old(engine).context),
    ensures
        final(engine).wf(),
        final(engine).context == old(engine).context,
        all_cards_ok(r.results@, *position, old(engine).context, alpha, beta),
{
    let mut results: Vec<(u32, u32, u8)> = Vec::new();
    let moves_word = position.get_legal_moves();
    proof {
        crate::cards::lemma_subset_bounds(moves_word, position.player_cards, 0);
        lemma_sorted_members(moves_word);
    }
    let (moves, n) = get_sorted_by_value(moves_word);
    let mut cnt = Counters::new();
    let mut i: usize = 0;
    while i < n
        invariant
            engine.wf(),
            engine.context == old(engine).context,
            position.wf(engine.context),
            moves_word == position.legal(),
            subset(moves_word, position.player_cards),
            n == card_count(moves_word),
            n <= 10,
            moves@.subrange(0, n as int) == sorted_by_value(moves_word),
            i <= n,
            results@.len() == i,
            forall|j: int|
                0 <= j < i ==> {
                    &&& (#[trigger] results@[j]).0 == sorted_by_value(moves_word)[j]
                    &&& is_card(results@[j].0)
                    &&& subset(results@[j].0, moves_word)
                    &&& move_ok(results@[j].1, position.after_move(results@[j].0, engine.context))
                    &&& results@[j].2 <= value_bound(alpha, beta)
                },
        decreases n - i,
    {
        let mov = moves[i];
        proof {
            lemma_sorted_members(moves_word);
            assert(mov == sorted_by_value(moves_word)[i as int]);
            assert(is_card(sorted_by_value(moves_word)[i as int]));
            crate::position::lemma_subset_trans(mov, moves_word, position.player_cards);
        }
        let child_pos = position.make_move(mov, &engine.context);
        let (best_response, value) = engine.search(&child_pos, &mut cnt, alpha, beta);
        results.push((mov, best_response, value));
        i = i + 1;
    }
    SolveAllCardsRet { results }
}

/// The value of the game with the points of the skat added; in a null game, whether the
/// declarer lost.
pub fn solve_and_add_skat(engine: &mut SkatEngine) -> (r: SolveRet)
    requires
        old(engine).wf(),
    ensures
        final(engine).wf(),
        final(engine).context == old(engine).context,
        move_ok(r.best_card, Position::initial_spec(old(engine).context)),
        old(engine).context.game_type == Game::Null ==> r.best_value <= 1,
        old(engine).context.game_type != Game::Null ==> r.best_value <= 120 + points(
            old(engine).context.get_skat_spec(),
        ),
        Position::initial_spec(old(engine).context).player_cards != 0 ==> r.best_card != 0,
        exists|v: u8|
            #![trigger skat_added(v, old(engine).context)]
            v <= 120 && r.best_value == skat_added(v, old(engine).context),
        r.play_value <= 120,
        old(engine).context.game_type != Game::Null ==> r.best_value == r.play_value + points(
            old(engine).context.get_skat_spec(),
        ),
        old(engine).context.game_type == Game::Null ==> r.best_value == if r.play_value == 0 {
            0u8
        } else {
            1u8
        },
{
    let mut ret = solve_double_dummy(engine, 0, 120, 1);
    let double_dummy_result = ret.best_value;
    let skat = engine.context.get_skat();
    proof {
        crate::cards::lemma_bounds(skat);
    }
    let skat_value = skat.__get_value();
    match engine.context.game_type() {
        Game::Null => {
            if double_dummy_result == 0 {
                ret.best_value = 0;
            } else {
                ret.best_value = 1;
            }
        },
        _ => {
            ret.best_value = double_dummy_result + skat_value;
        },
    }
    proof {
        assert(ret.best_value == skat_added(double_dummy_result, engine.context));
    }
    ret
}

/// The value of a game with `v` points taken in play: in a null game whether the declarer
/// took a trick (1) or not (0), else `v` with the points of the skat added.
pub open spec fn skat_added(v: u8, ctx: crate::context::GameContext) -> int {
    if ctx.game_type == Game::Null {
        if v == 0 {
            0
        } else {
            1
        }
    } else {
        v + points(ctx.get_skat_spec())
    }
}

/// The player to move wants the highest value: the declarer of a suit or grand game, or a
/// defender of a null game (where the value flags a lost game).
pub open spec fn aims_high(is_declarer: bool, is_null: bool) -> bool {
    is_declarer != is_null
}

/// The best value among the results for a player who wants the highest or the lowest value.
pub open spec fn extreme_value(results: Seq<(u32, u32, u8)>, high: bool) -> u8
    decreases results.len(),
{
    if results.len() == 0 {
        0
    } else if results.len() == 1 {
        results[0].2
    } else {
        let rest = extreme_value(results.drop_last(), high);
        let v = results.last().2;
        if (high && v > rest) || (!high && v < rest) {
            v
        } else {
            rest
        }
    }
}

/// Whether `value` wins the game for the player to move: above 60 points for the declarer
/// of a suit or grand game, at most 60 for a defender; in a null game no lost flag for the
/// declarer and a lost flag for a defender.
pub open spec fn wins_for(value: u8, is_declarer: bool, is_null: bool) -> bool {
    if is_null {
        value == if is_declarer {
            0u8
        } else {
            1u8
        }
    } else if is_declarer {
        value > 60
    } else {
        value <= 60
    }
}

/// Results with the given value.
pub open spec fn has_value(value: u8) -> spec_fn((u32, u32, u8)) -> bool {
    |t: (u32, u32, u8)| t.2 == value
}

/// Results that win for the player to move.
pub open spec fn is_win(is_declarer: bool, is_null: bool) -> spec_fn((u32, u32, u8)) -> bool {
    |t: (u32, u32, u8)| wins_for(t.2, is_declarer, is_null)
}

/// The results the optimum search chooses among: those of the best value; or those that win,
/// and all of them when none wins.
pub open spec fn candidates_spec(
    results: Seq<(u32, u32, u8)>,
    is_declarer: bool,
    is_null: bool,
    mode: OptimumMode,
) -> Seq<(u32, u32, u8)> {
    match mode {
        OptimumMode::BestValue => results.filter(
            has_value(extreme_value(results, aims_high(is_declarer, is_null))),
        ),
        OptimumMode::AllWinning => {
            let wins = results.filter(is_win(is_declarer, is_null));
            if wins.len() == 0 {
                results
            } else {
                wins
            }
        },
    }
}

/// The best value among the results.
fn extreme_of(results: &Vec<(u32, u32, u8)>, high: bool) -> (r: u8)
    ensures
        r == extreme_value(results@, high),
{
    if results.len() == 0 {
        return 0;
    }
    let mut best = results[0].2;
    let mut i: usize = 1;
    proof {
        assert(results@.subrange(0, 1).drop_last() =~= Seq::<(u32, u32, u8)>::empty());
    }
    while i < results.len()
        invariant
            1 <= i <= results.len(),
            best == extreme_value(results@.subrange(0, i as int), high),
        decreases results.len() - i,
    {
        let v = results[i].2;
        proof {
            assert(results@.subrange(0, i + 1).drop_last() =~= results@.subrange(0, i as int));
        }
        if (high && v > best) || (!high && v < best) {
            best = v;
        }
        i = i + 1;
    }
    proof {
        assert(results@.subrange(0, results.len() as int) =~= results@);
    }
    best
}

/// The results with a given value, or that win, in their order.
fn keep_results(
    results: &Vec<(u32, u32, u8)>,
    pred: Ghost<spec_fn((u32, u32, u8)) -> bool>,
    by_value: bool,
    value: u8,
    is_declarer: bool,
    is_null: bool,
) -> (r: Vec<(u32, u32, u8)>)
    requires
        by_value ==> pred@ == has_value(value),
        !by_value ==> pred@ == is_win(is_declarer, is_null),
    ensures
        r@ == results@.filter(pred@),
        forall|k: int| 0 <= k < r@.len() ==> results@.contains(#[trigger] r@[k]),
{
    let mut out: Vec<(u32, u32, u8)> = Vec::new();
    let mut i: usize = 0;
    proof {
        reveal(Seq::filter);
        assert(results@.subrange(0, 0) =~= Seq::<(u32, u32, u8)>::empty());
    }
    while i < results.len()
        invariant
            i <= results.len(),
            by_value ==> pred@ == has_value(value),
            !by_value ==> pred@ == is_win(is_declarer, is_null),
            out@ == results@.subrange(0, i as int).filter(pred@),
            forall|k: int| 0 <= k < out@.len() ==> results@.contains(#[trigger] out@[k]),
        decreases results.len() - i,
    {
        let t = results[i];
        let keep = if by_value {
            t.2 == value
        } else {
            if is_null {
                t.2 == if is_declarer {
                    0u8
                } else {
                    1u8
                }
            } else if is_declarer {
                t.2 > 60
            } else {
                t.2 <= 60
            }
        };
        proof {
            reveal(Seq::filter);
            assert(results@.subrange(0, i + 1).drop_last() =~= results@.subrange(0, i as int));
            assert(results@.subrange(0, i + 1).last() == t);
            assert(keep == pred@(t));
            assert(results@[i as int] == t);
        }
        if keep {
            out.push(t);
        }
        i = i + 1;
    }
    proof {
        assert(results@.subrange(0, results.len() as int) =~= results@);
    }
    out
}

/// The results that the optimum search chooses among.
pub fn choose_candidates(
    results: &Vec<(u32, u32, u8)>,
    is_declarer: bool,
    is_null: bool,
    mode: OptimumMode,
) -> (r: Vec<(u32, u32, u8)>)
    ensures
        r@ == candidates_spec(results@, is_declarer, is_null, mode),
        forall|k: int| 0 <= k < r@.len() ==> results@.contains(#[trigger] r@[k]),
{
    match mode {
        OptimumMode::BestValue => {
            let best = extreme_of(results, is_declarer != is_null);
            keep_results(
                results,
                Ghost(has_value(extreme_value(results@, aims_high(is_declarer, is_null)))),
                true,
                best,
                is_declarer,
                is_null,
            )
        },
        OptimumMode::AllWinning => {
            let wins = keep_results(
                results,
                Ghost(is_win(is_declarer, is_null)),
                false,
                0,
                is_declarer,
                is_null,
            );
            if wins.len() == 0 {
                let mut all: Vec<(u32, u32, u8)> = Vec::new();
                let mut i: usize = 0;
                while i < results.len()
                    invariant
                        i <= results.len(),
                        all@ == results@.subrange(0, i as int),
                    decreases results.len() - i,
                {
                    all.push(results[i]);
                    i = i + 1;
                }
                proof {
                    assert(all@ =~= results@);
                    assert forall|k: int| 0 <= k < all@.len() implies results@.contains(
                        #[trigger] all@[k],
                    ) by {
                        assert(results@[k] == all@[k]);
                    }
                }
                all
            } else {
                wins
            }
        },
    }
}

/// The best card from the start of the game under the optimum preference.
pub fn solve_optimum(engine: &mut SkatEngine, mode: OptimumMode) -> (r: Result<
    (u32, i16, u8),
    &'static str,
>)
    requires
        old(engine).wf(),
    ensures
        final(engine).wf(),
        final(engine).context == old(engine).context,
        r is Err <==> Position::initial_spec(old(engine).context).player_cards == 0,
        r matches Ok(t) ==> is_card(t.0) && subset(
            t.0,
            Position::initial_spec(old(engine).context).legal(),
        ),
        r matches Ok(t) ==> t.1 == crate::search::position_value(
            old(engine).context,
            Position::initial_spec(old(engine).context).after_move(t.0, old(engine).context),
            1,
        ),
{
    let position = engine.create_initial_position();
    solve_optimum_from_position(engine, &position, mode)
}

/// The best card in `position`: among the cards of the best value (or the winning cards), the
/// one whose game is won soonest or lost latest; with its optimum score and its value.
/// There is none when the player to move holds no cards.
#[verifier::rlimit(40)]
pub fn solve_optimum_from_position(
    engine: &mut SkatEngine,
    position: &Position,
    mode: OptimumMode,
) -> (r: Result<(u32, i16, u8), &'static str>)
    requires
        old(engine).wf(),
        position.wf(old(engine).context),
    ensures
        final(engine).wf(),
        final(engine).context == old(engine).context,
        r is Err <==> position.player_cards == 0,
        r matches Ok(t) ==> is_card(t.0) && subset(t.0, position.legal()),
        r matches Ok(t) ==> exists|res: Seq<(u32, u32, u8)>|
            #![trigger all_cards_ok(res, *position, old(engine).context, 0, 120)]
            all_cards_ok(res, *position, old(engine).context, 0, 120) && chosen_from(
                candidates_spec(
                    res,
                    position.player == Player::Declarer,
                    old(engine).context.game_type == Game::Null,
                    mode,
                ),
                t.0,
                t.2,
            ) && best_among(
                candidates_spec(
                    res,
                    position.player == Player::Declarer,
                    old(engine).context.game_type == Game::Null,
                    mode,
                ),
                *position,
                old(engine).context,
                t.1 as int,
            ),
        r matches Ok(t) ==> t.1 == crate::search::position_value(
            old(engine).context,
            position.after_move(t.0, old(engine).context),
            1,
        ),
        r matches Ok(t) ==> (t.1 > 0) == crate::search::forced_win(
            old(engine).context,
            position.after_move(t.0, old(engine).context),
        ),
{
    let phase1_results = solve_all_cards_from_position(engine, position, 0, 120);
    let ghost ctx = engine.context;
    proof {
        if position.player_cards == 0 {
            lemma_set_algebra(position.trick_suit, 0, 0);
            assert(position.legal() == 0);
            crate::cards::lemma_empty_set();
        } else {
            assert(position.legal() != 0);
            if card_count(position.legal()) == 0 {
                crate::cards::lemma_count_zero(position.legal());
            }
        }
    }
    if phase1_results.results.len() == 0 {
        return Err("No legal moves found");
    }
    let is_declarer = position.player == Player::Declarer;
    let is_null = engine.context.game_type() == Game::Null;
    let candidates = choose_candidates(&phase1_results.results, is_declarer, is_null, mode);
    proof {
        let res = phase1_results.results@;
        match mode {
            OptimumMode::BestValue => {
                lemma_extreme_in(res, aims_high(is_declarer, is_null));
                let j = choose|j: int| 0 <= j < res.len() && res[j].2 == extreme_value(
                    res,
                    aims_high(is_declarer, is_null),
                );
                res.lemma_filter_contains(
                    has_value(extreme_value(res, aims_high(is_declarer, is_null))),
                    j,
                );
            },
            OptimumMode::AllWinning => {},
        }
    }
    if candidates.len() == 0 {
        return Err("No candidates after filtering");
    }

    let mut cnt = Counters::new();
    let mut best = candidates[0];
    proof {
        assert(candidates@.contains(best)) by {
            assert(candidates@[0] == best);
        }
    }
    let mut best_score_so_far: i16 = if is_declarer {
        i16::MIN
    } else {
        i16::MAX
    };
    proof {
        lemma_set_algebra(position.trick_suit, position.player_cards, 0);
        assert forall|k: int| 0 <= k < candidates@.len() implies is_card(
            #[trigger] candidates@[k].0,
        ) && subset(candidates@[k].0, position.legal()) && subset(
            candidates@[k].0,
            position.player_cards,
        ) by {
            lemma_candidate_ok(phase1_results.results@, candidates@, *position, ctx, k);
            crate::position::lemma_subset_trans(
                candidates@[k].0,
                position.legal(),
                position.player_cards,
            );
        }
    }
    let mut i: usize = 0;
    while i < candidates.len()
        invariant
            engine.wf(),
            engine.context == ctx,
            position.wf(ctx),
            forall|k: int|
                0 <= k < candidates@.len() ==> is_card(#[trigger] candidates@[k].0) && subset(
                    candidates@[k].0,
                    position.legal(),
                ) && subset(candidates@[k].0, position.player_cards),
            is_card(best.0) && subset(best.0, position.legal()),
            i <= candidates.len(),
            candidates@.contains(best),
            is_declarer == (position.player == Player::Declarer),
            i == 0 ==> best_score_so_far == (if is_declarer {
                i16::MIN
            } else {
                i16::MAX
            }),
            i > 0 ==> best_score_so_far == crate::search::position_value(
                ctx,
                position.after_move(best.0, ctx),
                1,
            ),
            forall|k: int|
                0 <= k < i ==> if is_declarer {
                    crate::search::position_value(
                        ctx,
                        position.after_move(#[trigger] candidates@[k].0, ctx),
                        1,
                    ) <= best_score_so_far
                } else {
                    crate::search::position_value(
                        ctx,
                        position.after_move(candidates@[k].0, ctx),
                        1,
                    ) >= best_score_so_far
                },
        decreases candidates.len() - i,
    {
        let cand = candidates[i];
        proof {
            assert(is_card(candidates@[i as int].0));
        }
        let child_pos = position.make_move(cand.0, &engine.context);
        proof {
            crate::cards::lemma_bounds(child_pos.hands());
        }
        let (_, score) = search_optimum(
            &engine.context,
            &child_pos,
            &mut cnt,
            i16::MIN + 1,
            i16::MAX - 1,
            1,
        );
        if is_declarer {
            if score > best_score_so_far {
                best_score_so_far = score;
                best = cand;
                proof {
                    assert(candidates@[i as int] == cand);
                }
            }
        } else {
            if score < best_score_so_far {
                best_score_so_far = score;
                best = cand;
                proof {
                    assert(candidates@[i as int] == cand);
                }
            }
        }
        i = i + 1;
    }
    proof {
        assert(candidates@ == candidates_spec(phase1_results.results@, is_declarer, is_null, mode));
        assert(chosen_from(candidates@, best.0, best.2));
        assert(best_among(candidates@, *position, ctx, best_score_so_far as int));
        crate::cards::lemma_bounds(position.after_move(best.0, ctx).hands());
        crate::search::lemma_optimum_sign(ctx, position.after_move(best.0, ctx), 1);
        assert(all_cards_ok(phase1_results.results@, *position, ctx, 0, 120));
    }
    Ok((best.0, best_score_so_far, best.2))
}

/// No candidate leads to a better position for the player to move than the score `score`:
/// the declarer takes the highest value, a defender the lowest.
pub open spec fn best_among(
    candidates: Seq<(u32, u32, u8)>,
    pos: Position,
    ctx: crate::context::GameContext,
    score: int,
) -> bool {
    forall|k: int|
        0 <= k < candidates.len() ==> if pos.player == Player::Declarer {
            crate::search::position_value(ctx, pos.after_move(#[trigger] candidates[k].0, ctx), 1)
                <= score
        } else {
            crate::search::position_value(ctx, pos.after_move(candidates[k].0, ctx), 1) >= score
        }
}

/// Some candidate has the card `card` with the value `value`.
pub open spec fn chosen_from(candidates: Seq<(u32, u32, u8)>, card: u32, value: u8) -> bool {
    exists|k: int|
        0 <= k < candidates.len() && (#[trigger] candidates[k]).0 == card && candidates[k].2
            == value
}

/// The best value is the value of one of the results.
proof fn lemma_extreme_in(results: Seq<(u32, u32, u8)>, high: bool)
    requires
        results.len() > 0,
    ensures
        exists|j: int| 0 <= j < results.len() && results[j].2 == extreme_value(results, high),
    decreases results.len(),
{
    if results.len() == 1 {
        assert(results[0].2 == extreme_value(results, high));
    } else {
        lemma_extreme_in(results.drop_last(), high);
        let j = choose|j: int|
            0 <= j < results.drop_last().len() && results.drop_last()[j].2 == extreme_value(
                results.drop_last(),
                high,
            );
        assert(results[j] == results.drop_last()[j]);
        let last = results.len() - 1;
        assert(results[last] == results.last());
        if results[last].2 == extreme_value(results, high) {
            assert(results[last].2 == extreme_value(results, high));
        } else {
            assert(results[j].2 == extreme_value(results, high));
        }
    }
}

/// A candidate is a card the player may play.
proof fn lemma_candidate_ok(
    results: Seq<(u32, u32, u8)>,
    candidates: Seq<(u32, u32, u8)>,
    position: Position,
    ctx: crate::context::GameContext,
    k: int,
)
    requires
        all_cards_ok(results, position, ctx, 0, 120),
        forall|k: int| 0 <= k < candidates.len() ==> results.contains(#[trigger] candidates[k]),
        0 <= k < candidates.len(),
    ensures
        is_card(candidates[k].0),
        subset(candidates[k].0, position.legal()),
{
    assert(results.contains(candidates[k]));
    let j = choose|j: int| 0 <= j < results.len() && results[j] == candidates[k];
    assert(results[j] == candidates[k]);
}

} // verus!
