use skat_aug23::convert::BitConverter;
use skat_aug23::defs::{Game, Player};
use skat_aug23::facts::Facts;
use skat_aug23::formatter::format_hand_for_game;
use skat_aug23::pimc_playout::{
    extreme_result, get_null_rank, get_points, highest_card, infer_void, pick_best,
    playout, playout_with_history, table_cards, PlayoutEnd,
};
use skat_aug23::pimc_problem_builder::PimcProblemBuilder;
use skat_aug23::consts::{CLUBS, SPADES, TRUMP_SUIT};

#[test]
fn points_and_null_ranks_of_cards() {
    assert_eq!(get_points("CA".__bit()), 11);
    assert_eq!(get_points("ST".__bit()), 10);
    assert_eq!(get_points("HK".__bit()), 4);
    assert_eq!(get_points("DQ".__bit()), 3);
    assert_eq!(get_points("CJ".__bit()), 2);
    assert_eq!(get_points("C9".__bit()), 0);
    assert_eq!(get_null_rank("CA".__bit()), 7);
    assert_eq!(get_null_rank("CK".__bit()), 6);
    assert_eq!(get_null_rank("CQ".__bit()), 5);
    assert_eq!(get_null_rank("CJ".__bit()), 4);
    assert_eq!(get_null_rank("CT".__bit()), 3);
    assert_eq!(get_null_rank("C9".__bit()), 2);
    assert_eq!(get_null_rank("C8".__bit()), 1);
    assert_eq!(get_null_rank("C7".__bit()), 0);
}

#[test]
fn a_card_off_suit_shows_a_missing_suit() {
    let none = Facts::zero_fact();
    let f = infer_void(none, SPADES, "HA".__bit(), None);
    assert!(f.no_spades && !f.no_trump && !f.no_clubs);
    let f = infer_void(none, SPADES, "SA".__bit(), None);
    assert!(!f.no_spades);
    let f = infer_void(none, TRUMP_SUIT, "HA".__bit(), Some(TRUMP_SUIT));
    assert!(f.no_trump && !f.no_clubs);
    let f = infer_void(none, CLUBS | TRUMP_SUIT, "HA".__bit(), None);
    assert!(f.no_clubs && !f.no_trump);
}

#[test]
fn table_cards_of_the_neighbours() {
    let trick = vec![(Player::Right, 4u32), (Player::Left, 8u32)];
    assert_eq!(table_cards(&trick, Player::Declarer), (4, 8));
    assert_eq!(table_cards(&trick, Player::Right), (8, 0));
}

#[test]
fn best_entry_by_wins_then_tie_key() {
    let entries = vec![(1u32, 3u32, (0u32, 5u32)), (2, 5, (1, 9)), (4, 5, (0, 9)), (8, 5, (0, 9))];
    assert_eq!(pick_best(&entries), 2);
    let results = vec![(1u32, 0u32, 30u8), (2, 0, 70), (4, 0, 70), (8, 0, 10)];
    assert_eq!(extreme_result(&results, true), 1);
    assert_eq!(extreme_result(&results, false), 3);
    assert_eq!(highest_card("HA D7".__bit()), Some("HA".__bit()));
    assert_eq!(highest_card(0), None);
}

#[test]
fn hands_in_game_order() {
    let hand = "CJ DJ CA CT C7 SA HK D9".__bit();
    assert_eq!(format_hand_for_game(hand, "Clubs"), "[CJ DJ CA CT C7 SA HK D9]");
    assert_eq!(format_hand_for_game(hand, "Hearts"), "[CJ DJ HK CA CT C7 SA D9]");
    assert_eq!(format_hand_for_game(hand, "Null"), "[CA CJ CT C7 SA HK DJ D9]");
    assert_eq!(format_hand_for_game(0, "Null"), "[]");
    assert_eq!(format_hand_for_game("HK".__bit(), "Grand"), "HK");
}

#[test]
fn played_out_game_keeps_the_rules() {
    let up = PimcProblemBuilder::new_farbspiel()
        .cards(Player::Declarer, "CJ SJ D7")
        .remaining_cards("HJ DJ DA DT H7 H8")
        .threshold_half()
        .build();
    let ctx = up.generate_concrete_problem();
    let all = vec![Player::Declarer, Player::Left, Player::Right];
    let record = playout(ctx, 5, &all);
    assert_eq!(record.end, PlayoutEnd::GameOver);
    assert_eq!(record.steps.len(), 9);
    assert!(record.steps.iter().all(|s| s.god_mode));
    assert_eq!(record.steps[0].turn, Player::Declarer);
    assert_eq!(record.declarer_points + record.team_points, 2 + 2 + 2 + 2 + 11 + 10);
    let searched = playout(ctx, 5, &vec![]);
    assert!(!searched.steps.is_empty());
    assert!(!searched.steps[0].god_mode);
    assert!(!searched.steps[0].analysis.is_empty());
}

#[test]
fn trace_needs_the_skat_to_fit_the_hands() {
    // The searches of a traced game count the skat among the unseen cards, so the cards in
    // play never fit three hands and no search can be set up.
    let up = PimcProblemBuilder::new_farbspiel()
        .cards(Player::Declarer, "CJ SJ D7")
        .remaining_cards("HJ DJ DA DT H7 H8")
        .threshold_half()
        .build();
    let ctx = up.generate_concrete_problem();
    assert!(playout_with_history(ctx, 3).is_none());
    let null = PimcProblemBuilder::new(Game::Null)
        .cards(Player::Declarer, "CA SA HA")
        .remaining_cards("C7 S7 H7 C8 S8 H8")
        .threshold(1)
        .build();
    assert!(playout_with_history(null.generate_concrete_problem(), 3).is_none());
}
