//! The values of all six games of a deal, each with the best skat and as a hand game.
use vstd::prelude::*;
use rayon::iter::{IntoParallelIterator, ParallelIterator};
use crate::cards::card_count;
use crate::context::{deal_ok, GameContext, ProblemTransformation};
use crate::defs::{Game, Player};
use crate::engine::SkatEngine;
use crate::skat_solving::{skat_search_ok, solve_with_skat, AccelerationMode, SolveWithSkatRet};
use crate::solver::{skat_added, solve_and_add_skat, SolveRet};

verus! {

/// The six games: the four suit games, grand and null.
#[derive(Debug, Clone, Copy, PartialEq, Eq, Structural, Hash)]
pub enum GameKey {
    Eichel,
    Gruen,
    Herz,
    Schell,
    Grand,
    Null,
}

/// Why the values could not be computed.
#[derive(Debug)]
pub enum CalculationError {
    NoBestSkatFound(GameKey),
    SolverResultError(String),
}

/// The value of each game with the best skat and as a hand game; 123 marks a game not computed.
pub struct AllGames {
    pub eichel_farbe: u8,
    pub gruen_farbe: u8,
    pub herz_farbe: u8,
    pub schell_farbe: u8,
    pub eichel_hand: u8,
    pub gruen_hand: u8,
    pub herz_hand: u8,
    pub schell_hand: u8,
    pub grand: u8,
    pub grand_hand: u8,
    pub null: u8,
    pub null_hand: u8,
}

/// The values of all games as a tuple: each suit with the skat, each suit as a hand game,
/// grand, grand hand, null and null hand.
pub open spec fn all_games_view(g: AllGames) -> (u8, u8, u8, u8, u8, u8, u8, u8, u8, u8, u8, u8) {
    (
        g.eichel_farbe,
        g.gruen_farbe,
        g.herz_farbe,
        g.schell_farbe,
        g.eichel_hand,
        g.gruen_hand,
        g.herz_hand,
        g.schell_hand,
        g.grand,
        g.grand_hand,
        g.null,
        g.null_hand,
    )
}

impl Default for AllGames {
    fn default() -> (r: AllGames)
        ensures
            all_games_view(r) == (
                123u8,
                123u8,
                123u8,
                123u8,
                123u8,
                123u8,
                123u8,
                123u8,
                123u8,
                123u8,
                123u8,
                123u8,
            ),
    {
        AllGames {
            eichel_farbe: 123,
            gruen_farbe: 123,
            herz_farbe: 123,
            schell_farbe: 123,
            eichel_hand: 123,
            gruen_hand: 123,
            herz_hand: 123,
            schell_hand: 123,
            grand: 123,
            grand_hand: 123,
            null: 123,
            null_hand: 123,
        }
    }
}

/// A deal the skat search accepts: no card in two hands, ten cards for each defender, at most
/// ten for the declarer.
pub open spec fn skat_deal_ok(declarer: u32, left: u32, right: u32) -> bool {
    &&& declarer & left == 0
    &&& declarer & right == 0
    &&& left & right == 0
    &&& card_count(declarer) <= 10
    &&& card_count(left) == 10
    &&& card_count(right) == 10
}

/// One game to compute: its key, the game, its type and how the skat search is accelerated.
pub open spec fn task_ok(t: (GameKey, GameContext, Game, AccelerationMode)) -> bool {
    skat_deal_ok(t.1.declarer_cards, t.1.left_cards, t.1.right_cards)
}

/// The six games of a deal: a clubs game, the three other suits as clubs games with the suits
/// exchanged, grand and null.
pub open spec fn tasks_spec(left: u32, right: u32, my: u32, start_player: Player) -> Seq<
    (GameKey, GameContext, Game, AccelerationMode),
> {
    let acc = AccelerationMode::AlphaBetaAccelerating;
    let base = GameContext::create_spec(my, left, right, Game::Suit, start_player);
    seq![
        (GameKey::Eichel, base, Game::Suit, acc),
        (
            GameKey::Gruen,
            GameContext::create_transformation_spec(base, ProblemTransformation::SpadesSwitch),
            Game::Suit,
            acc,
        ),
        (
            GameKey::Herz,
            GameContext::create_transformation_spec(base, ProblemTransformation::HeartsSwitch),
            Game::Suit,
            acc,
        ),
        (
            GameKey::Schell,
            GameContext::create_transformation_spec(base, ProblemTransformation::DiamondsSwitch),
            Game::Suit,
            acc,
        ),
        (
            GameKey::Grand,
            GameContext::create_spec(my, left, right, Game::Grand, start_player),
            Game::Grand,
            acc,
        ),
        (
            GameKey::Null,
            GameContext::create_spec(my, left, right, Game::Null, start_player),
            Game::Null,
            acc,
        ),
    ]
}

/// The six games of a deal.
pub fn all_games_tasks(left_cards: u32, right_cards: u32, my_cards: u32, start_player: Player) -> (r:
    Vec<(GameKey, GameContext, Game, AccelerationMode)>)
    ensures
        r@ == tasks_spec(left_cards, right_cards, my_cards, start_player),
        skat_deal_ok(my_cards, left_cards, right_cards) ==> forall|i: int|
            0 <= i < r@.len() ==> task_ok(#[trigger] r@[i]),
{
    let acc_mode = AccelerationMode::AlphaBetaAccelerating;
    let base = GameContext::create(my_cards, left_cards, right_cards, Game::Suit, start_player);
    let gruen = GameContext::create_transformation(base, ProblemTransformation::SpadesSwitch);
    let herz = GameContext::create_transformation(base, ProblemTransformation::HeartsSwitch);
    let schell = GameContext::create_transformation(base, ProblemTransformation::DiamondsSwitch);
    let grand = GameContext::create(my_cards, left_cards, right_cards, Game::Grand, start_player);
    let null = GameContext::create(my_cards, left_cards, right_cards, Game::Null, start_player);
    proof {
        if skat_deal_ok(my_cards, left_cards, right_cards) {
            crate::context::lemma_switch_deal(base, ProblemTransformation::SpadesSwitch);
            crate::context::lemma_switch_deal(base, ProblemTransformation::HeartsSwitch);
            crate::context::lemma_switch_deal(base, ProblemTransformation::DiamondsSwitch);
        }
    }
    let r = vec![
        (GameKey::Eichel, base, Game::Suit, acc_mode),
        (GameKey::Gruen, gruen, Game::Suit, acc_mode),
        (GameKey::Herz, herz, Game::Suit, acc_mode),
        (GameKey::Schell, schell, Game::Suit, acc_mode),
        (GameKey::Grand, grand, Game::Grand, acc_mode),
        (GameKey::Null, null, Game::Null, acc_mode),
    ];
    proof {
        assert(r@ =~= tasks_spec(left_cards, right_cards, my_cards, start_player));
    }
    r
}

/// The result of one game: its key, the report of the best skat search for the game's deal,
/// and a hand game value that is a value of the play with the skat's points added.
pub open spec fn pair_ok(
    t: (GameKey, GameContext, Game, AccelerationMode),
    r: (GameKey, SolveWithSkatRet, SolveRet),
) -> bool {
    &&& r.0 == t.0
    &&& skat_search_ok(r.1, t.1.declarer_cards, t.1.left_cards, t.1.right_cards, t.2)
    &&& exists|v: u8| v <= 120 && #[trigger] skat_added(v, t.1) == r.2.best_value
}

/// One game: the best skat search, and the hand game with the skat's points added.
pub fn calculate_single_pair(task: (GameKey, GameContext, Game, AccelerationMode)) -> (r: (
    GameKey,
    SolveWithSkatRet,
    SolveRet,
))
    requires
        task_ok(task),
    ensures
        pair_ok(task, r),
{
    let (key, context, game_type, acc_mode) = task;
    let skat_result = solve_with_skat(
        context.left_cards(),
        context.right_cards(),
        context.declarer_cards(),
        game_type,
        context.start_player(),
        acc_mode,
    );
    let mut engine = SkatEngine::new(context, None);
    let hand_result = solve_and_add_skat(&mut engine);
    (key, skat_result, hand_result)
}

/// Computes the games in parallel: `rayon`'s `into_par_iter`, `map` and `collect`, which keep
/// the order of the tasks. The contract claims that each result is the one
/// `calculate_single_pair` gives for its task, in the task's place.
#[verifier::external_body]
fn solve_tasks_in_parallel(tasks: Vec<(GameKey, GameContext, Game, AccelerationMode)>) -> (r: Vec<
    (GameKey, SolveWithSkatRet, SolveRet),
>)
    requires
        forall|i: int| 0 <= i < tasks@.len() ==> task_ok(#[trigger] tasks@[i]),
    ensures
        r@.len() == tasks@.len(),
        forall|i: int| 0 <= i < r@.len() ==> pair_ok(tasks@[i], #[trigger] r@[i]),
{
    tasks.into_par_iter().map(calculate_single_pair).collect()
}

/// Records the values of one game.
pub open spec fn record_game(g: AllGames, key: GameKey, skat_value: u8, hand_value: u8) -> AllGames {
    match key {
        GameKey::Eichel => AllGames { eichel_farbe: skat_value, eichel_hand: hand_value, ..g },
        GameKey::Gruen => AllGames { gruen_farbe: skat_value, gruen_hand: hand_value, ..g },
        GameKey::Herz => AllGames { herz_farbe: skat_value, herz_hand: hand_value, ..g },
        GameKey::Schell => AllGames { schell_farbe: skat_value, schell_hand: hand_value, ..g },
        GameKey::Grand => AllGames { grand: skat_value, grand_hand: hand_value, ..g },
        GameKey::Null => AllGames { null: skat_value, null_hand: hand_value, ..g },
    }
}

/// The key, the best skat's value, and the hand game's value of each result.
pub open spec fn result_values(r: (GameKey, SolveWithSkatRet, SolveRet)) -> (GameKey, Option<u8>, u8) {
    (
        r.0,
        match r.1.best_skat {
            Some(b) => Some(b.value),
            None => None,
        },
        r.2.best_value,
    )
}

/// The values recorded from the first `n` results, starting from all 123.
pub open spec fn games_after(results: Seq<(GameKey, Option<u8>, u8)>, n: int) -> AllGames
    decreases n,
{
    if n <= 0 {
        AllGames {
            eichel_farbe: 123,
            gruen_farbe: 123,
            herz_farbe: 123,
            schell_farbe: 123,
            eichel_hand: 123,
            gruen_hand: 123,
            herz_hand: 123,
            schell_hand: 123,
            grand: 123,
            grand_hand: 123,
            null: 123,
            null_hand: 123,
        }
    } else {
        let r = results[n - 1];
        record_game(
            games_after(results, n - 1),
            r.0,
            match r.1 {
                Some(v) => v,
                None => 0,
            },
            r.2,
        )
    }
}

/// Collects the results into the values of all games; a result without a best skat is an
/// error naming its game.
pub fn combine_all_games(results: Vec<(GameKey, SolveWithSkatRet, SolveRet)>) -> (r: Result<
    AllGames,
    CalculationError,
>)
    ensures
        ({
            let vals = results@.map_values(|x: (GameKey, SolveWithSkatRet, SolveRet)| result_values(x));
            match r {
                Ok(g) => (forall|i: int| 0 <= i < vals.len() ==> (#[trigger] vals[i]).1 is Some)
                    && all_games_view(g) == all_games_view(games_after(vals, vals.len() as int)),
                Err(e) => exists|i: int|
                    0 <= i < vals.len() && (#[trigger] vals[i]).1 is None && (forall|j: int|
                        0 <= j < i ==> (#[trigger] vals[j]).1 is Some) && e
                        == CalculationError::NoBestSkatFound(vals[i].0),
            }
        }),
{
    let ghost vals = results@.map_values(|x: (GameKey, SolveWithSkatRet, SolveRet)| result_values(x));
    let mut final_games = AllGames::default();
    let mut i: usize = 0;
    let n = results.len();
    while i < n
        invariant
            n == results@.len(),
            vals == results@.map_values(|x: (GameKey, SolveWithSkatRet, SolveRet)| result_values(x)),
            i <= n,
            forall|j: int| 0 <= j < i ==> (#[trigger] vals[j]).1 is Some,
            all_games_view(final_games) == all_games_view(games_after(vals, i as int)),
        decreases n - i,
    {
        let key = results[i].0;
        let skat_value = match results[i].1.best_skat {
            Some(b) => b.value,
            None => {
                proof {
                    assert(vals[i as int].1 is None);
                }
                return Err(CalculationError::NoBestSkatFound(key));
            },
        };
        let hand_value = results[i].2.best_value;
        match key {
            GameKey::Eichel => {
                final_games.eichel_farbe = skat_value;
                final_games.eichel_hand = hand_value;
            },
            GameKey::Gruen => {
                final_games.gruen_farbe = skat_value;
                final_games.gruen_hand = hand_value;
            },
            GameKey::Herz => {
                final_games.herz_farbe = skat_value;
                final_games.herz_hand = hand_value;
            },
            GameKey::Schell => {
                final_games.schell_farbe = skat_value;
                final_games.schell_hand = hand_value;
            },
            GameKey::Grand => {
                final_games.grand = skat_value;
                final_games.grand_hand = hand_value;
            },
            GameKey::Null => {
                final_games.null = skat_value;
                final_games.null_hand = hand_value;
            },
        }
        proof {
            assert(vals[i as int] == result_values(results@[i as int]));
        }
        i = i + 1;
    }
    Ok(final_games)
}

/// The values of all six games of the deal, each searched with the best skat and as a hand
/// game, the games computed in parallel.
///
/// Every game finds a best skat, and the values are those recorded from the six results, one
/// per game in the order of the tasks.
pub fn calc_all_games(left_cards: u32, right_cards: u32, my_cards: u32, start_player: Player) -> (r:
    Result<AllGames, CalculationError>)
    requires
        skat_deal_ok(my_cards, left_cards, right_cards),
    ensures
        r matches Ok(g) && exists|res: Seq<(GameKey, SolveWithSkatRet, SolveRet)>|
            {
                &&& res.len() == 6
                &&& forall|i: int|
                    0 <= i < 6 ==> pair_ok(
                        tasks_spec(left_cards, right_cards, my_cards, start_player)[i],
                        #[trigger] res[i],
                    )
                &&& all_games_view(g) == all_games_view(
                    games_after(
                        res.map_values(|x: (GameKey, SolveWithSkatRet, SolveRet)| result_values(x)),
                        6,
                    ),
                )
            },
{
    let tasks = all_games_tasks(left_cards, right_cards, my_cards, start_player);
    let results = solve_tasks_in_parallel(tasks);
    let r = combine_all_games(results);
    proof {
        let vals = results@.map_values(|x: (GameKey, SolveWithSkatRet, SolveRet)| result_values(x));
        assert(tasks@.len() == 6);
        assert forall|i: int| 0 <= i < 6 implies pair_ok(
            tasks_spec(left_cards, right_cards, my_cards, start_player)[i],
            #[trigger] results@[i],
        ) by {
            assert(pair_ok(tasks@[i], results@[i]));
        }
        if r is Err {
            let i = choose|i: int| 0 <= i < vals.len() && (#[trigger] vals[i]).1 is None && (forall|
                j: int,
            | 0 <= j < i ==> (#[trigger] vals[j]).1 is Some) && r->Err_0
                == CalculationError::NoBestSkatFound(vals[i].0);
            assert(pair_ok(tasks@[i], results@[i]));
        }
    }
    r
}

} // verus!
