use skat_aug23::convert::{BitConverter, StringConverter};
use skat_aug23::context::GameContext;
use skat_aug23::defs::{Game, Player};
use skat_aug23::engine::SkatEngine;
use skat_aug23::position::Position;
use skat_aug23::skat_game::{decimal_text, SkatGame};

#[test]
fn decimal_text_of_numbers() {
    assert_eq!(decimal_text(0), "0");
    assert_eq!(decimal_text(7), "7");
    assert_eq!(decimal_text(1234), "1234");
    assert_eq!(decimal_text(4294967295), "4294967295");
}

#[test]
fn a_new_game_starts_with_the_choice() {
    let mut g = SkatGame::new_random();
    assert!(g.game_selection_phase);
    let deal = g.initial_deal.unwrap();
    assert_eq!(deal.declarer_cards.count_ones(), 12);
    assert_eq!(g.skat_cards.count_ones(), 2);
    let state = g.get_state();
    assert_eq!(state.my_cards, deal.declarer_cards.__str());
    assert!(!state.game_over);
    assert!(!g.play_card_str("CJ"));
    assert!(!g.make_ai_move());
    // Laying away a card the user does not hold is refused.
    let foreign = deal.left_cards & deal.left_cards.wrapping_neg();
    let one_skat = g.skat_cards & g.skat_cards.wrapping_neg();
    assert!(!g.finalize_game_selection("Spades", &(foreign | one_skat).__str()));
    assert!(g.game_selection_phase);
    assert!(g.active_transformation.is_some());
    assert!(!g.finalize_game_selection("Grand", "CJ"));
    assert!(g.active_transformation.is_none());
}

fn small_game() -> SkatGame {
    let ctx = GameContext::create(
        "CJ SJ D7".__bit(),
        "HJ DJ DA".__bit(),
        "DT H7 H8".__bit(),
        Game::Suit,
        Player::Declarer,
    );
    let engine = SkatEngine::new(ctx, None);
    let current_position = Position::create_initial_position(&ctx);
    SkatGame {
        engine,
        user_player: Player::Declarer,
        history: Vec::new(),
        last_loss: 0,
        last_trick_cards: None,
        last_trick_winner: None,
        last_trick_points: None,
        last_trick_plays: Vec::new(),
        current_position,
        current_trick_plays: Vec::new(),
        skat_cards: 0,
        max_possible_points: 0,
        current_value: 0,
        game_selection_phase: false,
        initial_deal: None,
        move_sequence: Vec::new(),
        analysis_values: vec![None],
        active_transformation: None,
    }
}

#[test]
fn user_game_plays_and_takes_back_a_move() {
    let mut g = small_game();
    assert_eq!(g.calculate_max_points(), g.max_possible_points);
    let before_cards = g.current_position.player_cards;
    let legal = g.get_legal_moves_strings_transformed();
    assert_eq!(legal, vec!["D7", "SJ", "CJ"]);
    assert!(!g.play_card_str("HJ"));
    assert!(g.play_card_str("CJ"));
    assert_eq!(g.move_sequence.len(), 1);
    assert_eq!(g.history.len(), 1);
    assert_eq!(g.current_trick_plays.len(), 1);
    assert!(!g.play_card_str("SJ"));
    assert!(g.make_ai_move());
    assert!(g.make_ai_move());
    assert_eq!(g.current_trick_plays.len(), 0);
    assert!(g.last_trick_cards.is_some());
    g.calculate_analysis();
    assert!(g.analysis_values.iter().all(|v| v.is_some()));
    let log = g.get_move_history_json_transformed();
    assert_eq!(log.len(), 3);
    assert_eq!(log[0].card, "CJ");
    g.undo();
    g.undo();
    g.undo();
    assert_eq!(g.move_sequence.len(), 0);
    assert_eq!(g.current_position.player_cards, before_cards);
    assert!(g.current_trick_plays.is_empty());
    let state = g.get_state();
    assert!(!state.game_over);
    assert_eq!(state.my_cards, "[CJ SJ D7]");
    assert_eq!(state.legal_moves.len(), 3);
    assert!(state.move_history.is_empty());
    assert_eq!(state.trick_suit, "0");
    let analysis = g.get_move_analysis().expect("the user is to move");
    assert_eq!(analysis.len(), 3);
    assert!(analysis.iter().any(|m| m.is_best));
    assert!(g.get_hint().best_card.len() == 2);
}
