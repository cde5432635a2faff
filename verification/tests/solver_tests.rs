use skat_aug23::consts::{
    ACEOFCLUBS, ACEOFHEARTS, ACEOFSPADES, EIGHTOFCLUBS, EIGHTOFDIAMONDS, EIGHTOFHEARTS,
    EIGHTOFSPADES, JACKOFCLUBS, JACKOFDIAMONDS, JACKOFHEARTS, JACKOFSPADES, KINGOFCLUBS,
    KINGOFDIAMONDS, KINGOFHEARTS, NINEOFCLUBS, NINEOFDIAMONDS, NINEOFHEARTS, NINEOFSPADES,
    QUEENOFCLUBS, QUEENOFDIAMONDS, QUEENOFHEARTS, QUEENOFSPADES, SEVENOFCLUBS, SEVENOFDIAMONDS,
    SEVENOFHEARTS, SEVENOFSPADES, SPADES, TENOFCLUBS, TENOFDIAMONDS, TENOFHEARTS, TENOFSPADES,
    TRUMP_SUIT,
};
use skat_aug23::context::GameContext;
use skat_aug23::defs::{Game, Player};
use skat_aug23::engine::SkatEngine;
use skat_aug23::counters::Counters;
use skat_aug23::search::search_optimum;
use skat_aug23::solver::{solve_optimum_from_position, OptimumMode};

#[test]
fn verify_constants() {
    println!("TRUMP_SUIT: {:032b}", TRUMP_SUIT);
    println!("SPADES:     {:032b}", SPADES);
    assert_eq!(TRUMP_SUIT & SPADES, 0, "Trump and Spades overlap!");
    let st = TENOFSPADES;
    assert!((st & SPADES) > 0, "ST is not in SPADES!");
    assert_eq!(st & TRUMP_SUIT, 0, "ST is in TRUMP_SUIT!");
}

#[test]
fn verify_solver_logic() {
    let decl_cards = JACKOFSPADES
        | JACKOFHEARTS
        | TENOFSPADES
        | EIGHTOFSPADES
        | SEVENOFSPADES
        | QUEENOFHEARTS
        | NINEOFHEARTS
        | EIGHTOFHEARTS
        | NINEOFDIAMONDS
        | SEVENOFDIAMONDS;
    let left_cards = JACKOFCLUBS
        | JACKOFDIAMONDS
        | ACEOFCLUBS
        | KINGOFCLUBS
        | ACEOFSPADES
        | QUEENOFSPADES
        | SEVENOFHEARTS
        | TENOFDIAMONDS
        | QUEENOFDIAMONDS
        | EIGHTOFDIAMONDS;
    let right_cards = TENOFCLUBS
        | QUEENOFCLUBS
        | NINEOFCLUBS
        | EIGHTOFCLUBS
        | SEVENOFCLUBS
        | NINEOFSPADES
        | ACEOFHEARTS
        | TENOFHEARTS
        | KINGOFHEARTS
        | KINGOFDIAMONDS;

    let ctx = GameContext::create(decl_cards, left_cards, right_cards, Game::Suit, Player::Declarer);
    let mut engine = SkatEngine::new(ctx, None);
    let mut pos = engine.create_initial_position();

    pos = pos.make_move(TENOFSPADES, &ctx);

    let legal = pos.get_legal_moves();
    assert!((legal & ACEOFSPADES) > 0);
    assert!((legal & QUEENOFSPADES) > 0);
    assert_eq!(legal & (!SPADES), 0);

    let (best, _, _) =
        solve_optimum_from_position(&mut engine, &pos, OptimumMode::BestValue).unwrap();
    assert!(
        (legal & best) > 0,
        "Solver suggested illegal move {:032b} which is not in {:032b}",
        best,
        legal
    );
}

#[test]
fn optimum_card_avoids_the_trick_in_a_small_null_game() {
    let ctx = GameContext::create(
        SEVENOFSPADES | ACEOFHEARTS,
        EIGHTOFSPADES | SEVENOFDIAMONDS,
        NINEOFSPADES | EIGHTOFDIAMONDS,
        Game::Null,
        Player::Declarer,
    );
    let mut engine = SkatEngine::new(ctx, None);
    let pos = engine.create_initial_position();
    let (best, score, value) =
        solve_optimum_from_position(&mut engine, &pos, OptimumMode::BestValue).unwrap();
    assert_eq!(best, SEVENOFSPADES);
    assert_eq!(value, 0);
    assert!(score > 0, "the declarer wins the null game after the seven: {}", score);
}

#[test]
fn optimum_search_scores_the_small_null_game_exactly() {
    let ctx = GameContext::create(
        SEVENOFSPADES | ACEOFHEARTS,
        EIGHTOFSPADES | SEVENOFDIAMONDS,
        NINEOFSPADES | EIGHTOFDIAMONDS,
        Game::Null,
        Player::Declarer,
    );
    let pos = ctx.create_initial_position();
    let mut cnt = Counters::new();
    // After the seven the declarer never takes a trick: a won null game scores 1000.
    assert_eq!(search_optimum(&ctx, &pos, &mut cnt, i16::MIN + 1, i16::MAX - 1, 0), (SEVENOFSPADES, 1000));
    // After the ace the declarer takes the first trick: lost at the third ply, -1000 + 3.
    let after_ace = pos.make_move(ACEOFHEARTS, &ctx);
    let (_, lost) = search_optimum(&ctx, &after_ace, &mut cnt, i16::MIN + 1, i16::MAX - 1, 1);
    assert_eq!(lost, -997);
}
